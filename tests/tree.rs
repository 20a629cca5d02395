use minigit::codec::GitObject;
use minigit::error::ObjectError;
use minigit::object_type::ObjectType;
use minigit::tree::tree_entry_names;

fn entry(mode: &[u8], name: &[u8], fill: u8) -> Vec<u8> {
    let mut v = mode.to_vec();
    v.push(b' ');
    v.extend_from_slice(name);
    v.push(0);
    v.extend_from_slice(&[fill; 20]);
    v
}

#[test]
fn single_entry_names() {
    let c = entry(b"100644", b"file.txt", 0xab);
    assert_eq!(tree_entry_names(&c).unwrap(), vec![b"file.txt".to_vec()]);
}

#[test]
fn hash_bytes_holding_delimiters_are_skipped() {
    let mut c = entry(b"100644", b"a", b' ');
    c.extend(entry(b"40000", b"dir", 0));
    assert_eq!(tree_entry_names(&c).unwrap(), vec![b"a".to_vec(), b"dir".to_vec()]);
}

#[test]
fn empty_tree_has_no_names() {
    assert_eq!(tree_entry_names(b"").unwrap(), Vec::<Vec<u8>>::new());
}

#[test]
fn short_hash_is_truncated() {
    let mut c = entry(b"100644", b"file.txt", 1);
    c.pop();
    assert_eq!(tree_entry_names(&c).unwrap_err(), ObjectError::TruncatedTree);
}

#[test]
fn unterminated_name_is_truncated() {
    assert_eq!(tree_entry_names(b"100644 file.txt").unwrap_err(), ObjectError::TruncatedTree);
}

#[test]
fn render_tree_with_one_entry() {
    let o = GitObject { object_type: ObjectType::Tree, content: entry(b"100644", b"file.txt", 7) };
    assert_eq!(o.render().unwrap(), b"file.txt\n".to_vec());
}

#[test]
fn render_tree_with_two_entries() {
    let mut c = entry(b"100644", b"b.rs", 3);
    c.extend(entry(b"40000", b"src", 4));
    let o = GitObject { object_type: ObjectType::Tree, content: c };
    assert_eq!(o.render().unwrap(), b"b.rs\nsrc\n".to_vec());
}

#[test]
fn render_blob_verbatim() {
    let o = GitObject { object_type: ObjectType::Blob, content: "héllo\n".as_bytes().to_vec() };
    assert_eq!(o.render().unwrap(), "héllo\n".as_bytes().to_vec());
}

#[test]
fn render_blob_not_utf8() {
    let o = GitObject { object_type: ObjectType::Blob, content: vec![0xff, 0xfe] };
    assert_eq!(o.render().unwrap_err(), ObjectError::Encoding);
}

#[test]
fn render_tree_name_not_utf8() {
    let o = GitObject { object_type: ObjectType::Tree, content: entry(b"100644", &[0xc3], 0) };
    assert_eq!(o.render().unwrap_err(), ObjectError::Encoding);
}

#[test]
fn render_truncated_tree() {
    let o = GitObject { object_type: ObjectType::Tree, content: b"100644 x\0abc".to_vec() };
    assert_eq!(o.render().unwrap_err(), ObjectError::TruncatedTree);
}

#[test]
fn render_commit_and_tag_unsupported() {
    let c = GitObject { object_type: ObjectType::Commit, content: b"tree abc\n".to_vec() };
    let t = GitObject { object_type: ObjectType::Tag, content: b"object abc\n".to_vec() };
    assert_eq!(c.render().unwrap_err(), ObjectError::UnsupportedType);
    assert_eq!(t.render().unwrap_err(), ObjectError::UnsupportedType);
}
