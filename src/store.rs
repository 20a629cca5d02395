use vstd::prelude::*;
use std::io::{Read, Write};
use crate::codec::{decode, encode, is_object_hash, lemma_decode_encode, object_id, GitObject};
use crate::error::ObjectError;
use crate::hashing::is_hex_char;
use crate::object_type::ObjectType;

verus! {

/// What zlib decompression of `data` gives, or `None` where `data` is not a
/// well-formed zlib stream.
pub uninterp spec fn inflate_of(data: Seq<u8>) -> Option<Seq<u8>>;

/// Relies on `flate2::write::ZlibEncoder` (fast level) over a `Vec`: writing
/// into a `Vec` never fails and the compressor errs only on a misused stream,
/// so it always finishes, and the stream decompresses to exactly `data`.
#[verifier::external_body]
fn deflate(data: &[u8]) -> (r: Option<Vec<u8>>)
    ensures
        r is Some,
        r matches Some(v) ==> inflate_of(v@) == Some(data@),
{
    let mut enc = flate2::write::ZlibEncoder::new(Vec::new(), flate2::Compression::fast());
    match enc.write_all(data) {
        Ok(()) => enc.finish().ok(),
        Err(_) => None,
    }
}

/// Relies on `flate2::read::ZlibDecoder` read to the end: the decompressed
/// bytes, or an error where `data` is not a zlib stream.
#[verifier::external_body]
fn inflate(data: &[u8]) -> (r: Option<Vec<u8>>)
    ensures
        match r {
            Some(v) => inflate_of(data@) == Some(v@),
            None => inflate_of(data@) is None,
        },
{
    let mut out = Vec::new();
    match flate2::read::ZlibDecoder::new(data).read_to_end(&mut out) {
        Ok(_) => Some(out),
        Err(_) => None,
    }
}

/// What reading a stored file's bytes gives: decompress, then decode.
pub open spec fn load(stored: Seq<u8>) -> Result<(ObjectType, Seq<u8>), ObjectError> {
    match inflate_of(stored) {
        Some(framed) => decode(framed),
        None => Err(ObjectError::Io),
    }
}

/// Where an object lives under the objects directory.
#[derive(Debug, Clone)]
pub struct ObjectPath {
    /// The sharding subdirectory: objects directory, `/`, first two digits.
    pub dir: String,
    /// The object file: subdirectory, `/`, remaining 38 digits.
    pub file: String,
}

/// Whether `c` is a lowercase hexadecimal digit.
fn hex_char(c: char) -> (r: bool)
    ensures
        r == is_hex_char(c),
{
    ('0' <= c && c <= '9') || ('a' <= c && c <= 'f')
}

/// The location of the object named `hash` under `objects_dir`: the first two
/// digits name a subdirectory, the other 38 the file in it. `None` where
/// `hash` is not 40 lowercase hexadecimal digits, so no object can have it.
pub fn object_path(objects_dir: &str, hash: &str) -> (r: Option<ObjectPath>)
    ensures
        r is Some <==> is_object_hash(hash@),
        r matches Some(p) ==> {
            &&& p.dir@ == objects_dir@ + seq!['/'] + hash@.subrange(0, 2)
            &&& p.file@ == p.dir@ + seq!['/'] + hash@.subrange(2, 40)
        },
{
    let n = hash.unicode_len();
    if n != 40 {
        return None;
    }
    let mut i: usize = 0;
    while i < n
        invariant
            n == hash@.len() == 40,
            0 <= i <= n,
            forall|j: int| 0 <= j < i ==> is_hex_char(#[trigger] hash@[j]),
        decreases n - i,
    {
        if !hex_char(hash.get_char(i)) {
            return None;
        }
        i = i + 1;
    }
    let slash = "/";
    proof {
        reveal_strlit("/");
    }
    let mut dir = String::from_str(objects_dir);
    dir.append(slash);
    dir.append(hash.substring_char(0, 2));
    let mut file = dir.clone();
    file.append(slash);
    file.append(hash.substring_char(2, 40));
    Some(ObjectPath { dir, file })
}

impl GitObject {
    /// The location of this object under `objects_dir`, named by its hash.
    pub fn path(&self, objects_dir: &str) -> (r: ObjectPath)
        ensures
            ({
                let id = object_id(self.object_type, self.content@);
                &&& r.dir@ == objects_dir@ + seq!['/'] + id.subrange(0, 2)
                &&& r.file@ == r.dir@ + seq!['/'] + id.subrange(2, 40)
            }),
    {
        let hash = self.hash();
        match object_path(objects_dir, hash.as_str()) {
            Some(p) => p,
            None => {
                assert(false);
                ObjectPath { dir: String::new(), file: String::new() }
            },
        }
    }

    /// The bytes to store: the framed object, zlib-compressed.
    pub fn compressed(&self) -> (r: Vec<u8>)
        ensures
            inflate_of(r@) == Some(encode(self.object_type, self.content@)),
    {
        let framed = self.object();
        match deflate(framed.as_slice()) {
            Some(v) => v,
            None => {
                assert(false);
                Vec::new()
            },
        }
    }

    /// Reads an object back from the bytes of its stored file: decompresses
    /// them (`Err(Io)` where that fails), then decodes.
    pub fn from_compressed(stored: &[u8]) -> (r: Result<GitObject, ObjectError>)
        ensures
            match (r, load(stored@)) {
                (Ok(o), Ok(v)) => o@ == v,
                (Err(e), Err(f)) => e == f,
                _ => false,
            },
    {
        match inflate(stored) {
            Some(framed) => GitObject::decode(framed.as_slice()),
            None => Err(ObjectError::Io),
        }
    }
}

/// Storing an object and reading the stored bytes back gives that object;
/// storing it again gives bytes that read back the same, under the same hash.
pub proof fn lemma_write_read(o: GitObject, stored: Seq<u8>, again: Seq<u8>)
    requires
        inflate_of(stored) == Some(encode(o.object_type, o.content@)),
        inflate_of(again) == Some(encode(o.object_type, o.content@)),
    ensures
        load(stored) == Ok::<(ObjectType, Seq<u8>), ObjectError>(o@),
        load(again) == load(stored),
{
    lemma_decode_encode(o.object_type, o.content@);
}

} // verus!
