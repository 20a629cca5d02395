use minigit::codec::GitObject;
use minigit::error::ObjectError;
use minigit::object_type::ObjectType;

fn obj(t: ObjectType, c: &[u8]) -> GitObject {
    GitObject { object_type: t, content: c.to_vec() }
}

#[test]
fn empty_blob_hash_is_well_known() {
    let o = obj(ObjectType::Blob, b"");
    assert_eq!(o.hash(), "e69de29bb2d1d6434b8b29ae775ad8c2e48c5391");
}

#[test]
fn hash_of_text_blob() {
    let o = obj(ObjectType::Blob, b"test content\n");
    assert_eq!(o.hash(), "d670460b4b4aece5915caf5c68d12f560a9fe3e4");
}

#[test]
fn hash_is_stable_across_calls() {
    let a = obj(ObjectType::Tree, b"some bytes");
    let b = obj(ObjectType::Tree, b"some bytes");
    assert_eq!(a.hash(), a.hash());
    assert_eq!(a.hash(), b.hash());
    assert_ne!(a.hash(), obj(ObjectType::Blob, b"some bytes").hash());
    assert_ne!(a.hash(), obj(ObjectType::Tree, b"some bytez").hash());
}

#[test]
fn header_of_each_type() {
    assert_eq!(obj(ObjectType::Blob, b"hello").header(), b"blob 5".to_vec());
    assert_eq!(obj(ObjectType::Commit, b"").header(), b"commit 0".to_vec());
    assert_eq!(obj(ObjectType::Tag, &[7u8; 1234]).header(), b"tag 1234".to_vec());
    assert_eq!(obj(ObjectType::Tree, &[0u8; 10]).header(), b"tree 10".to_vec());
}

#[test]
fn framed_bytes() {
    assert_eq!(obj(ObjectType::Blob, b"").object(), b"blob 0\0".to_vec());
    assert_eq!(obj(ObjectType::Blob, b"ab\0c").object(), b"blob 4\0ab\0c".to_vec());
}

#[test]
fn new_blob_holds_content() {
    let o = GitObject::new_blob(b"data".to_vec());
    assert_eq!(o.object_type, ObjectType::Blob);
    assert_eq!(o.content, b"data".to_vec());
}

#[test]
fn decode_round_trips_every_type() {
    for t in [ObjectType::Blob, ObjectType::Commit, ObjectType::Tag, ObjectType::Tree] {
        for c in [&b""[..], &b"x y\0z"[..], &[255u8, 0, 32, 10][..]] {
            let o = obj(t, c);
            let d = GitObject::decode(&o.object()).unwrap();
            assert_eq!(d.object_type, t);
            assert_eq!(d.content, c.to_vec());
        }
    }
}

#[test]
fn decode_without_nul_is_framing_error() {
    assert_eq!(GitObject::decode(b"blob 5 hello").unwrap_err(), ObjectError::Framing);
    assert_eq!(GitObject::decode(b"").unwrap_err(), ObjectError::Framing);
}

#[test]
fn decode_unknown_tag_is_header_error() {
    assert_eq!(GitObject::decode(b"weird 5\0abcde").unwrap_err(), ObjectError::Header);
}

#[test]
fn decode_bad_headers() {
    assert_eq!(GitObject::decode(b"blob\0abc").unwrap_err(), ObjectError::Header);
    assert_eq!(GitObject::decode(b"blob 1 2\0abc").unwrap_err(), ObjectError::Header);
    assert_eq!(GitObject::decode(b"blob x\0abc").unwrap_err(), ObjectError::Header);
    assert_eq!(GitObject::decode(b"blob \0abc").unwrap_err(), ObjectError::Header);
    assert_eq!(GitObject::decode(b"Blob 3\0abc").unwrap_err(), ObjectError::Header);
    assert_eq!(GitObject::decode(b"blob -3\0abc").unwrap_err(), ObjectError::Header);
}

#[test]
fn decode_takes_content_after_first_nul() {
    let d = GitObject::decode(b"commit 9\0a\0b").unwrap();
    assert_eq!(d.object_type, ObjectType::Commit);
    assert_eq!(d.content, b"a\0b".to_vec());
}

#[test]
fn decode_does_not_check_length() {
    let d = GitObject::decode(b"blob 5\0abc").unwrap();
    assert_eq!(d.object_type, ObjectType::Blob);
    assert_eq!(d.content, b"abc".to_vec());
}

#[test]
fn tags_round_trip() {
    assert_eq!(ObjectType::Blob.tag(), b"blob".to_vec());
    assert_eq!(ObjectType::Commit.tag(), b"commit".to_vec());
    assert_eq!(ObjectType::Tag.tag(), b"tag".to_vec());
    assert_eq!(ObjectType::Tree.tag(), b"tree".to_vec());
    for t in [ObjectType::Blob, ObjectType::Commit, ObjectType::Tag, ObjectType::Tree] {
        assert_eq!(ObjectType::from_tag(&t.tag()), Some(t));
    }
    assert_eq!(ObjectType::from_tag(b"tre"), None);
    assert_eq!(ObjectType::from_tag(b""), None);
    assert_eq!(ObjectType::from_tag(b"blobs"), None);
}
