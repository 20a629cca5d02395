use vstd::prelude::*;
use crate::bytes::{copy_range, extend_range, find_byte, find_from, lemma_find_at, lemma_find_bounds};
use crate::codec::{GitObject, NUL, SPACE};
use crate::error::ObjectError;
use crate::object_type::ObjectType;
use vstd::utf8::{pop_first_scalar, valid_utf8};

verus! {

/// Width of the raw binary hash that ends each tree entry.
pub const HASH_LEN: usize = 20;

/// Byte of the newline that ends each rendered tree entry.
pub const NEWLINE: u8 = 10;

/// Names of the tree entries that start at `pos` of a tree's content. An
/// entry is mode bytes up to a space, the space, name bytes up to a NUL, the
/// NUL, then `HASH_LEN` hash bytes. Bytes after the last entry that hold no
/// space are ignored; a name with no NUL after it, or fewer than `HASH_LEN`
/// bytes where a hash belongs, is a truncated tree.
pub open spec fn tree_names_from(c: Seq<u8>, pos: int) -> Result<Seq<Seq<u8>>, ObjectError>
    decreases c.len() - pos,
    when 0 <= pos <= c.len()
{
    let sp = find_from(c, pos, SPACE);
    if sp >= c.len() {
        Ok(Seq::empty())
    } else {
        let nul = find_from(c, sp + 1, NUL);
        if nul >= c.len() || c.len() - (nul + 1) < HASH_LEN {
            Err(ObjectError::TruncatedTree)
        } else {
            proof {
                lemma_find_bounds(c, pos, SPACE);
                lemma_find_bounds(c, sp + 1, NUL);
            }
            match tree_names_from(c, nul + 1 + HASH_LEN) {
                Ok(rest) => Ok(seq![c.subrange(sp + 1, nul)] + rest),
                Err(e) => Err(e),
            }
        }
    }
}

/// Names of all entries of a tree's content, in order.
pub open spec fn tree_names(c: Seq<u8>) -> Result<Seq<Seq<u8>>, ObjectError> {
    tree_names_from(c, 0)
}

/// `names` put before the names in `r`, errors passed on.
pub open spec fn prepend_names(
    names: Seq<Seq<u8>>,
    r: Result<Seq<Seq<u8>>, ObjectError>,
) -> Result<Seq<Seq<u8>>, ObjectError> {
    match r {
        Ok(rest) => Ok(names + rest),
        Err(e) => Err(e),
    }
}

/// The byte strings held by a vector of byte vectors.
pub open spec fn byte_strings(v: Seq<Vec<u8>>) -> Seq<Seq<u8>> {
    v.map_values(|x: Vec<u8>| x@)
}

/// The names of the entries of a tree's content, in order.
pub fn tree_entry_names(content: &[u8]) -> (r: Result<Vec<Vec<u8>>, ObjectError>)
    ensures
        match (r, tree_names(content@)) {
            (Ok(v), Ok(s)) => byte_strings(v@) == s,
            (Err(e), Err(f)) => e == f,
            _ => false,
        },
{
    let ghost c = content@;
    let n = content.len();
    let mut names: Vec<Vec<u8>> = Vec::new();
    let mut pos: usize = 0;
    assert(byte_strings(names@) + Seq::<Seq<u8>>::empty() =~= Seq::<Seq<u8>>::empty());
    loop
        invariant
            c == content@,
            n == c.len(),
            pos <= n,
            tree_names(c) == prepend_names(byte_strings(names@), tree_names_from(c, pos as int)),
        decreases n - pos,
    {
        // Mode: skip to the space.
        let sp = find_byte(content, pos, SPACE);
        if sp >= n {
            assert(byte_strings(names@) + Seq::<Seq<u8>>::empty() =~= byte_strings(names@));
            return Ok(names);
        }
        proof {
            lemma_find_bounds(c, pos as int, SPACE);
        }
        // Name: collect up to the NUL.
        let nul = find_byte(content, sp + 1, NUL);
        if nul >= n || n - (nul + 1) < HASH_LEN {
            return Err(ObjectError::TruncatedTree);
        }
        proof {
            lemma_find_bounds(c, sp + 1, NUL);
        }
        let name = copy_range(content, sp + 1, nul);
        // Hash: skip its fixed width.
        let next = nul + 1 + HASH_LEN;
        let ghost before = byte_strings(names@);
        names.push(name);
        proof {
            assert(byte_strings(names@) =~= before + seq![name@]);
            match tree_names_from(c, next as int) {
                Ok(rest) => {
                    assert(before + (seq![name@] + rest) =~= byte_strings(names@) + rest);
                },
                Err(e) => {},
            }
        }
        pos = next;
    }
}

/// A tree of one entry, mode `100644` and name `file.txt`, lists exactly
/// that name, whatever its 20 hash bytes are.
pub proof fn lemma_single_entry_tree(hash: Seq<u8>)
    requires
        hash.len() == HASH_LEN,
    ensures
        tree_names(
            seq![49u8, 48, 48, 54, 52, 52, 32, 102, 105, 108, 101, 46, 116, 120, 116, 0] + hash,
        ) == Ok::<Seq<Seq<u8>>, ObjectError>(seq![seq![102u8, 105, 108, 101, 46, 116, 120, 116]]),
{
    let p = seq![49u8, 48, 48, 54, 52, 52, 32, 102, 105, 108, 101, 46, 116, 120, 116, 0];
    let c = p + hash;
    assert(forall|j: int| 0 <= j < 16 ==> c[j] == #[trigger] p[j]);
    lemma_find_at(c, 0, SPACE, 6);
    lemma_find_at(c, 7, NUL, 15);
    lemma_find_at(c, 36, SPACE, 36);
    assert(tree_names_from(c, 36) == Ok::<Seq<Seq<u8>>, ObjectError>(Seq::empty()));
    assert(c.subrange(7, 15) =~= seq![102u8, 105, 108, 101, 46, 116, 120, 116]);
    assert(seq![c.subrange(7, 15)] + Seq::<Seq<u8>>::empty() =~= seq![c.subrange(7, 15)]);
}

/// ASCII bytes are valid UTF-8.
pub proof fn lemma_ascii_is_utf8(b: Seq<u8>)
    requires
        forall|i: int| 0 <= i < b.len() ==> b[i] < 128,
    ensures
        valid_utf8(b),
    decreases b.len(),
{
    if b.len() > 0 {
        let x = b[0];
        assert(x & 0x7f <= 0x7f) by (bit_vector);
        let rest = pop_first_scalar(b);
        assert(rest =~= b.subrange(1, b.len() as int));
        lemma_ascii_is_utf8(rest);
    }
}

/// Relies on `std::str::from_utf8`: `Ok` exactly for valid UTF-8.
#[verifier::external_body]
fn is_utf8(b: &[u8]) -> (r: bool)
    ensures
        r == valid_utf8(b@),
{
    std::str::from_utf8(b).is_ok()
}

/// Each name followed by a newline, in order.
pub open spec fn lines(names: Seq<Seq<u8>>) -> Seq<u8>
    decreases names.len(),
{
    if names.len() == 0 {
        Seq::empty()
    } else {
        lines(names.drop_last()) + names.last() + seq![NEWLINE]
    }
}

/// The text that shows an object: a blob's content verbatim, or a tree's
/// entry names one per line. Commits and tags have no rendering.
pub open spec fn rendering(t: ObjectType, c: Seq<u8>) -> Result<Seq<u8>, ObjectError> {
    match t {
        ObjectType::Blob => if valid_utf8(c) {
            Ok(c)
        } else {
            Err(ObjectError::Encoding)
        },
        ObjectType::Tree => match tree_names(c) {
            Ok(names) => if forall|i: int| 0 <= i < names.len() ==> valid_utf8(#[trigger] names[i]) {
                Ok(lines(names))
            } else {
                Err(ObjectError::Encoding)
            },
            Err(e) => Err(e),
        },
        _ => Err(ObjectError::UnsupportedType),
    }
}

/// A tree of one entry, mode `100644` and name `file.txt`, renders as the
/// single line `file.txt`, whatever its 20 hash bytes are.
pub proof fn lemma_single_entry_tree_rendering(hash: Seq<u8>)
    requires
        hash.len() == HASH_LEN,
    ensures
        rendering(
            ObjectType::Tree,
            seq![49u8, 48, 48, 54, 52, 52, 32, 102, 105, 108, 101, 46, 116, 120, 116, 0] + hash,
        ) == Ok::<Seq<u8>, ObjectError>(seq![102u8, 105, 108, 101, 46, 116, 120, 116, NEWLINE]),
{
    let name = seq![102u8, 105, 108, 101, 46, 116, 120, 116];
    lemma_single_entry_tree(hash);
    lemma_ascii_is_utf8(name);
    let names = seq![name];
    assert(names.drop_last() =~= Seq::<Seq<u8>>::empty());
    assert(lines(Seq::<Seq<u8>>::empty()) == Seq::<u8>::empty());
    assert(names.last() == name);
    assert(lines(names) == lines(names.drop_last()) + name + seq![NEWLINE]);
    assert(lines(names) =~= seq![102u8, 105, 108, 101, 46, 116, 120, 116, NEWLINE]);
}

impl GitObject {
    /// The text that shows this object, as UTF-8 bytes: a blob's content as
    /// it is, or each tree entry's name on a line of its own.
    pub fn render(&self) -> (r: Result<Vec<u8>, ObjectError>)
        ensures
            match (r, rendering(self.object_type, self.content@)) {
                (Ok(v), Ok(s)) => v@ == s,
                (Err(e), Err(f)) => e == f,
                _ => false,
            },
    {
        match self.object_type {
            ObjectType::Blob => {
                if is_utf8(self.content.as_slice()) {
                    Ok(self.content.clone())
                } else {
                    Err(ObjectError::Encoding)
                }
            },
            ObjectType::Tree => {
                let names = match tree_entry_names(self.content.as_slice()) {
                    Ok(names) => names,
                    Err(e) => return Err(e),
                };
                let ghost s = byte_strings(names@);
                let mut out: Vec<u8> = Vec::new();
                let mut i: usize = 0;
                while i < names.len()
                    invariant
                        i <= names@.len(),
                        s == byte_strings(names@),
                        self.object_type == ObjectType::Tree,
                        tree_names(self.content@) == Ok::<Seq<Seq<u8>>, ObjectError>(s),
                        out@ == lines(s.subrange(0, i as int)),
                        forall|j: int| 0 <= j < i ==> valid_utf8(#[trigger] s[j]),
                    decreases names@.len() - i,
                {
                    let name = &names[i];
                    assert(name@ == s[i as int]);
                    if !is_utf8(name.as_slice()) {
                        return Err(ObjectError::Encoding);
                    }
                    let m = name.len();
                    extend_range(&mut out, name.as_slice(), 0, m);
                    out.push(NEWLINE);
                    proof {
                        assert(name@.subrange(0, m as int) =~= name@);
                        assert(s.subrange(0, i + 1).drop_last() =~= s.subrange(0, i as int));
                    }
                    i = i + 1;
                }
                assert(s.subrange(0, i as int) =~= s);
                Ok(out)
            },
            _ => Err(ObjectError::UnsupportedType),
        }
    }
}

} // verus!
