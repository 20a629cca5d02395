use minigit::codec::GitObject;
use minigit::error::ObjectError;
use minigit::object_type::ObjectType;
use minigit::store::object_path;

#[test]
fn sharded_path_of_empty_blob_hash() {
    let p = object_path("objects", "e69de29bb2d1d6434b8b29ae775ad8c2e48c5391").unwrap();
    assert_eq!(p.dir, "objects/e6");
    assert_eq!(p.file, "objects/e6/9de29bb2d1d6434b8b29ae775ad8c2e48c5391");
}

#[test]
fn path_rejects_malformed_hashes() {
    assert!(object_path("objects", "e69de29bb2d1d6434b8b29ae775ad8c2e48c539").is_none());
    assert!(object_path("objects", "e69de29bb2d1d6434b8b29ae775ad8c2e48c53911").is_none());
    assert!(object_path("objects", "E69DE29BB2D1D6434B8B29AE775AD8C2E48C5391").is_none());
    assert!(object_path("objects", "g69de29bb2d1d6434b8b29ae775ad8c2e48c5391").is_none());
    assert!(object_path("objects", "").is_none());
}

#[test]
fn object_path_follows_hash() {
    let o = GitObject { object_type: ObjectType::Blob, content: Vec::new() };
    let p = o.path(".git/objects");
    assert_eq!(p.dir, ".git/objects/e6");
    assert_eq!(p.file, ".git/objects/e6/9de29bb2d1d6434b8b29ae775ad8c2e48c5391");
}

#[test]
fn compressed_round_trip() {
    let o = GitObject { object_type: ObjectType::Tree, content: b"100644 a\0aaaaaaaaaaaaaaaaaaaa".to_vec() };
    let stored = o.compressed();
    assert_ne!(stored, o.object());
    let back = GitObject::from_compressed(&stored).unwrap();
    assert_eq!(back.object_type, ObjectType::Tree);
    assert_eq!(back.content, o.content);
    assert_eq!(back.hash(), o.hash());
}

#[test]
fn compressed_is_zlib_of_framed_bytes() {
    let o = GitObject { object_type: ObjectType::Blob, content: b"hello".to_vec() };
    let stored = o.compressed();
    assert_eq!(stored[0], 0x78);
}

#[test]
fn garbage_is_io_error() {
    assert_eq!(GitObject::from_compressed(b"not zlib at all").unwrap_err(), ObjectError::Io);
}

#[test]
fn writing_again_gives_same_hash_and_bytes() {
    let o = GitObject { object_type: ObjectType::Blob, content: Vec::new() };
    let first = o.compressed();
    let second = o.compressed();
    assert_eq!(first, second);
    let back = GitObject::from_compressed(&second).unwrap();
    assert_eq!(back.hash(), "e69de29bb2d1d6434b8b29ae775ad8c2e48c5391");
    assert_eq!(back.content, Vec::<u8>::new());
}
