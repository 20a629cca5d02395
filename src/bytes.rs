use vstd::prelude::*;

verus! {

/// Index of the first `b` in `s` at or after `pos`, or `s.len()` if there is none.
pub open spec fn find_from(s: Seq<u8>, pos: int, b: u8) -> int
    decreases s.len() - pos,
{
    if pos >= s.len() {
        s.len() as int
    } else if s[pos] == b {
        pos
    } else {
        find_from(s, pos + 1, b)
    }
}

/// `find_from` stays within `[pos, len]`, points at a `b` when below `len`,
/// and skips no `b` on the way.
pub proof fn lemma_find_bounds(s: Seq<u8>, pos: int, b: u8)
    requires
        0 <= pos <= s.len(),
    ensures
        pos <= find_from(s, pos, b) <= s.len(),
        find_from(s, pos, b) < s.len() ==> s[find_from(s, pos, b)] == b,
        forall|j: int| pos <= j < find_from(s, pos, b) ==> s[j] != b,
    decreases s.len() - pos,
{
    if pos < s.len() && s[pos] != b {
        lemma_find_bounds(s, pos + 1, b);
    }
}

/// A `b` at `k`, with none in `[pos, k)`, is the one `find_from` finds.
pub proof fn lemma_find_at(s: Seq<u8>, pos: int, b: u8, k: int)
    requires
        0 <= pos <= k <= s.len(),
        k < s.len() ==> s[k] == b,
        forall|j: int| pos <= j < k ==> s[j] != b,
    ensures
        find_from(s, pos, b) == k,
    decreases k - pos,
{
    if pos < k {
        lemma_find_at(s, pos + 1, b, k);
    }
}

/// Index of the first `b` in `s` at or after `from`, or `s.len()` if none.
pub fn find_byte(s: &[u8], from: usize, b: u8) -> (r: usize)
    requires
        from <= s@.len(),
    ensures
        r == find_from(s@, from as int, b),
{
    let mut i: usize = from;
    while i < s.len() && s[i] != b
        invariant
            from <= i <= s@.len(),
            find_from(s@, from as int, b) == find_from(s@, i as int, b),
        decreases s@.len() - i,
    {
        i = i + 1;
    }
    i
}

/// Copy of `s[from..to]`.
pub fn copy_range(s: &[u8], from: usize, to: usize) -> (r: Vec<u8>)
    requires
        from <= to <= s@.len(),
    ensures
        r@ == s@.subrange(from as int, to as int),
{
    let mut r: Vec<u8> = Vec::new();
    let mut i: usize = from;
    while i < to
        invariant
            from <= i <= to <= s@.len(),
            r@ == s@.subrange(from as int, i as int),
        decreases to - i,
    {
        r.push(s[i]);
        i = i + 1;
        assert(r@ =~= s@.subrange(from as int, i as int));
    }
    r
}

/// Appends `s[from..to]` to `out`.
pub fn extend_range(out: &mut Vec<u8>, s: &[u8], from: usize, to: usize)
    requires
        from <= to <= s@.len(),
    ensures
        final(out)@ == old(out)@ + s@.subrange(from as int, to as int),
{
    let mut i: usize = from;
    while i < to
        invariant
            from <= i <= to <= s@.len(),
            out@ == old(out)@ + s@.subrange(from as int, i as int),
        decreases to - i,
    {
        out.push(s[i]);
        i = i + 1;
        assert(out@ =~= old(out)@ + s@.subrange(from as int, i as int));
    }
}

} // verus!
