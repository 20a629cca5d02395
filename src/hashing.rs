use vstd::prelude::*;
use sha1::Digest;

verus! {

/// The 20-byte SHA-1 digest of a byte string.
pub uninterp spec fn sha1_of(data: Seq<u8>) -> Seq<u8>;

/// Lowercase hexadecimal digit for a value below 16.
pub open spec fn hex_digit(d: u8) -> char {
    if d < 10 {
        (d + 48) as char
    } else {
        (d + 87) as char
    }
}

/// Two lowercase hexadecimal digits per byte, high nibble first.
pub open spec fn hex_text(b: Seq<u8>) -> Seq<char>
    decreases b.len(),
{
    if b.len() == 0 {
        Seq::empty()
    } else {
        seq![hex_digit(b[0] / 16), hex_digit(b[0] % 16)] + hex_text(b.subrange(1, b.len() as int))
    }
}

/// `c` is a lowercase hexadecimal digit.
pub open spec fn is_hex_char(c: char) -> bool {
    ('0' <= c && c <= '9') || ('a' <= c && c <= 'f')
}

/// Hex text has two digits per byte, each a lowercase hexadecimal digit.
pub proof fn lemma_hex_text(b: Seq<u8>)
    ensures
        hex_text(b).len() == 2 * b.len(),
        forall|i: int| 0 <= i < hex_text(b).len() ==> is_hex_char(#[trigger] hex_text(b)[i]),
    decreases b.len(),
{
    if b.len() > 0 {
        let rest = b.subrange(1, b.len() as int);
        lemma_hex_text(rest);
        let h = hex_text(b);
        let t = hex_text(rest);
        assert(is_hex_char(hex_digit(b[0] / 16)));
        assert(is_hex_char(hex_digit(b[0] % 16)));
        assert forall|i: int| 0 <= i < h.len() implies is_hex_char(#[trigger] h[i]) by {
            if i >= 2 {
                assert(h[i] == t[i - 2]);
            }
        }
    }
}

/// Relies on `sha1::Sha1::digest`: the SHA-1 digest of `data`, 20 bytes long
/// (the hasher's output size is `U20`).
#[verifier::external_body]
pub(crate) fn sha1_digest(data: &[u8]) -> (r: Vec<u8>)
    ensures
        r@ == sha1_of(data@),
        r@.len() == 20,
{
    sha1::Sha1::digest(data).to_vec()
}

/// Relies on `hex::encode`: two lowercase hexadecimal digits for each byte,
/// in order.
#[verifier::external_body]
pub(crate) fn hex_encode(data: &[u8]) -> (r: String)
    ensures
        r@ == hex_text(data@),
{
    hex::encode(data)
}

} // verus!
