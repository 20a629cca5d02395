use vstd::prelude::*;
use crate::bytes::{copy_range, extend_range, find_byte, find_from, lemma_find_at, lemma_find_bounds};
use crate::error::ObjectError;
use crate::hashing::{hex_encode, hex_text, is_hex_char, lemma_hex_text, sha1_digest, sha1_of};
use crate::object_type::{lemma_parse_tag, parse_tag, ObjectType};

verus! {

/// Byte of the space that separates type tag and length in a header.
pub const SPACE: u8 = 32;

/// Byte that ends a header.
pub const NUL: u8 = 0;

/// Decimal ASCII digits of `n`, most significant first, without leading zeros.
pub open spec fn decimal(n: nat) -> Seq<u8>
    decreases n,
{
    if n < 10 {
        seq![(48 + n) as u8]
    } else {
        decimal(n / 10).push((48 + n % 10) as u8)
    }
}

/// `s` is a non-empty run of ASCII digits.
pub open spec fn is_decimal(s: Seq<u8>) -> bool {
    s.len() > 0 && forall|i: int| 0 <= i < s.len() ==> 48 <= #[trigger] s[i] <= 57
}

/// Header of an object: `"<type-tag> <decimal length>"`.
pub open spec fn header_of(t: ObjectType, len: nat) -> Seq<u8> {
    t.tag_spec() + seq![SPACE] + decimal(len)
}

/// The framed form of an object: header, NUL, then the content.
pub open spec fn encode(t: ObjectType, c: Seq<u8>) -> Seq<u8> {
    header_of(t, c.len()) + seq![NUL] + c
}

/// The identity of an object: the SHA-1 digest of its framed bytes, in
/// lowercase hexadecimal.
pub open spec fn object_id(t: ObjectType, c: Seq<u8>) -> Seq<char> {
    hex_text(sha1_of(encode(t, c)))
}

/// `h` names an object: 40 lowercase hexadecimal digits.
pub open spec fn is_object_hash(h: Seq<char>) -> bool {
    h.len() == 40 && forall|i: int| 0 <= i < h.len() ==> is_hex_char(#[trigger] h[i])
}

/// The type that a header names, if the header is exactly one known tag, one
/// space and a decimal length.
pub open spec fn parse_header(h: Seq<u8>) -> Option<ObjectType> {
    let sp = find_from(h, 0, SPACE);
    if sp >= h.len() {
        None
    } else if find_from(h, sp + 1, SPACE) < h.len() {
        None
    } else if !is_decimal(h.subrange(sp + 1, h.len() as int)) {
        None
    } else {
        parse_tag(h.subrange(0, sp))
    }
}

/// What decoding framed bytes gives: the header is everything before the
/// first NUL, the content everything after it.
pub open spec fn decode(b: Seq<u8>) -> Result<(ObjectType, Seq<u8>), ObjectError> {
    let nul = find_from(b, 0, NUL);
    if nul >= b.len() {
        Err(ObjectError::Framing)
    } else {
        match parse_header(b.subrange(0, nul)) {
            Some(t) => Ok((t, b.subrange(nul + 1, b.len() as int))),
            None => Err(ObjectError::Header),
        }
    }
}

/// Decimal digits are digits, and there is at least one.
pub proof fn lemma_decimal_digits(n: nat)
    ensures
        is_decimal(decimal(n)),
    decreases n,
{
    if n >= 10 {
        lemma_decimal_digits(n / 10);
        let d = decimal(n / 10);
        assert forall|i: int| 0 <= i < decimal(n).len() implies 48 <= #[trigger] decimal(n)[i]
            <= 57 by {
            if i < d.len() {
                assert(decimal(n)[i] == d[i]);
            }
        }
    }
}

/// Whether `s[from..to]` is a non-empty run of ASCII digits.
pub fn is_decimal_range(s: &[u8], from: usize, to: usize) -> (r: bool)
    requires
        from <= to <= s@.len(),
    ensures
        r == is_decimal(s@.subrange(from as int, to as int)),
{
    if from == to {
        return false;
    }
    let ghost d = s@.subrange(from as int, to as int);
    let mut i: usize = from;
    while i < to
        invariant
            from <= i <= to <= s@.len(),
            d == s@.subrange(from as int, to as int),
            forall|j: int| from <= j < i ==> 48 <= #[trigger] s@[j] <= 57,
        decreases to - i,
    {
        if s[i] < 48 || s[i] > 57 {
            assert(d[i - from] == s@[i as int]);
            return false;
        }
        i = i + 1;
    }
    assert forall|k: int| 0 <= k < d.len() implies 48 <= #[trigger] d[k] <= 57 by {
        assert(d[k] == s@[from + k]);
    }
    true
}

/// Appends the decimal digits of `n` to `out`.
pub fn push_decimal(out: &mut Vec<u8>, n: usize)
    ensures
        final(out)@ == old(out)@ + decimal(n as nat),
    decreases n,
{
    if n >= 10 {
        push_decimal(out, n / 10);
    }
    out.push((48 + n % 10) as u8);
    assert(final(out)@ =~= old(out)@ + decimal(n as nat));
}

/// A typed payload, the unit the store keeps.
#[derive(Debug, Clone)]
pub struct GitObject {
    pub object_type: ObjectType,
    pub content: Vec<u8>,
}

impl View for GitObject {
    type V = (ObjectType, Seq<u8>);

    open spec fn view(&self) -> (ObjectType, Seq<u8>) {
        (self.object_type, self.content@)
    }
}

impl GitObject {
    /// A blob holding `content`, as read from a file.
    pub fn new_blob(content: Vec<u8>) -> (r: GitObject)
        ensures
            r@ == (ObjectType::Blob, content@),
    {
        GitObject { object_type: ObjectType::Blob, content }
    }

    /// The header `"<type-tag> <content length>"`.
    pub fn header(&self) -> (r: Vec<u8>)
        ensures
            r@ == header_of(self.object_type, self.content@.len()),
    {
        let mut r = self.object_type.tag();
        r.push(SPACE);
        push_decimal(&mut r, self.content.len());
        assert(r@ =~= header_of(self.object_type, self.content@.len()));
        r
    }

    /// The framed bytes: header, NUL, content.
    pub fn object(&self) -> (r: Vec<u8>)
        ensures
            r@ == encode(self.object_type, self.content@),
    {
        let mut r = self.header();
        r.push(NUL);
        let n = self.content.len();
        extend_range(&mut r, self.content.as_slice(), 0, n);
        assert(self.content@.subrange(0, n as int) =~= self.content@);
        assert(r@ =~= encode(self.object_type, self.content@));
        r
    }

    /// The object's identity: 40 lowercase hexadecimal digits of the SHA-1
    /// digest of its framed bytes.
    pub fn hash(&self) -> (r: String)
        ensures
            r@ == object_id(self.object_type, self.content@),
            is_object_hash(r@),
    {
        let framed = self.object();
        let digest = sha1_digest(framed.as_slice());
        proof {
            lemma_hex_text(digest@);
        }
        hex_encode(digest.as_slice())
    }

    /// Decodes framed bytes into an object.
    pub fn decode(data: &[u8]) -> (r: Result<GitObject, ObjectError>)
        ensures
            match (r, decode(data@)) {
                (Ok(o), Ok(v)) => o@ == v,
                (Err(e), Err(f)) => e == f,
                _ => false,
            },
    {
        let n = data.len();
        let nul = find_byte(data, 0, NUL);
        if nul >= n {
            return Err(ObjectError::Framing);
        }
        proof {
            lemma_find_bounds(data@, 0, NUL);
        }
        let sp = find_byte(data, 0, SPACE);
        let ghost h = data@.subrange(0, nul as int);
        proof {
            lemma_find_bounds(data@, 0, SPACE);
            lemma_find_bounds(h, 0, SPACE);
            if sp < nul {
                lemma_find_at(h, 0, SPACE, sp as int);
            } else {
                lemma_find_at(h, 0, SPACE, nul as int);
            }
        }
        if sp >= nul {
            return Err(ObjectError::Header);
        }
        let sp2 = find_byte(data, sp + 1, SPACE);
        proof {
            lemma_find_bounds(data@, sp + 1, SPACE);
            lemma_find_bounds(h, sp + 1, SPACE);
            if sp2 < nul {
                lemma_find_at(h, sp + 1, SPACE, sp2 as int);
            } else {
                lemma_find_at(h, sp + 1, SPACE, nul as int);
            }
        }
        if sp2 < nul {
            return Err(ObjectError::Header);
        }
        assert(h.subrange(sp + 1, h.len() as int) =~= data@.subrange(sp + 1, nul as int));
        if !is_decimal_range(data, sp + 1, nul) {
            return Err(ObjectError::Header);
        }
        let tag = copy_range(data, 0, sp);
        assert(tag@ =~= h.subrange(0, sp as int));
        match ObjectType::from_tag(tag.as_slice()) {
            Some(t) => {
                let content = copy_range(data, nul + 1, n);
                Ok(GitObject { object_type: t, content })
            },
            None => Err(ObjectError::Header),
        }
    }
}

/// Decoding what encoding produced gives back the same type and content.
pub proof fn lemma_decode_encode(t: ObjectType, c: Seq<u8>)
    ensures
        decode(encode(t, c)) == Ok::<(ObjectType, Seq<u8>), ObjectError>((t, c)),
{
    let tag = t.tag_spec();
    let d = decimal(c.len());
    let h = header_of(t, c.len());
    let e = encode(t, c);
    lemma_decimal_digits(c.len());
    lemma_parse_tag(t);
    assert(forall|i: int| 0 <= i < tag.len() ==> #[trigger] tag[i] != NUL && tag[i] != SPACE);
    assert forall|j: int| 0 <= j < h.len() implies #[trigger] e[j] != NUL by {
        assert(e[j] == h[j]);
        if j > tag.len() {
            assert(h[j] == d[j - tag.len() - 1]);
        }
    }
    lemma_find_at(e, 0, NUL, h.len() as int);
    assert(e.subrange(0, h.len() as int) =~= h);
    assert(forall|j: int| 0 <= j < tag.len() ==> #[trigger] h[j] == tag[j]);
    lemma_find_at(h, 0, SPACE, tag.len() as int);
    assert forall|j: int| tag.len() + 1 <= j < h.len() implies #[trigger] h[j] != SPACE by {
        assert(h[j] == d[j - tag.len() - 1]);
    }
    lemma_find_at(h, tag.len() + 1int, SPACE, h.len() as int);
    assert(h.subrange(tag.len() + 1int, h.len() as int) =~= d);
    assert(h.subrange(0, tag.len() as int) =~= tag);
    assert(e.subrange(h.len() + 1int, e.len() as int) =~= c);
}

/// The identity depends on the type and the content alone: objects equal in
/// both have the same hash, whenever and wherever it is computed.
pub proof fn lemma_hash_deterministic(t1: ObjectType, c1: Seq<u8>, t2: ObjectType, c2: Seq<u8>)
    requires
        t1 == t2,
        c1 == c2,
    ensures
        object_id(t1, c1) == object_id(t2, c2),
        encode(t1, c1) == encode(t2, c2),
{
}

/// Bytes with no NUL cannot be decoded: the header never ends.
pub proof fn lemma_no_nul_is_framing_error(b: Seq<u8>)
    requires
        forall|i: int| 0 <= i < b.len() ==> b[i] != NUL,
    ensures
        decode(b) == Err::<(ObjectType, Seq<u8>), ObjectError>(ObjectError::Framing),
{
    lemma_find_at(b, 0, NUL, b.len() as int);
}

} // verus!
