use vstd::prelude::*;

verus! {

/// The four kinds of stored object.
#[derive(Debug, Clone, Copy, PartialEq, Eq, Structural)]
pub enum ObjectType {
    Blob,
    Commit,
    Tag,
    Tree,
}

/// ASCII bytes of `"blob"`.
pub open spec fn blob_tag() -> Seq<u8> {
    seq![98u8, 108u8, 111u8, 98u8]
}

/// ASCII bytes of `"commit"`.
pub open spec fn commit_tag() -> Seq<u8> {
    seq![99u8, 111u8, 109u8, 109u8, 105u8, 116u8]
}

/// ASCII bytes of `"tag"`.
pub open spec fn tag_tag() -> Seq<u8> {
    seq![116u8, 97u8, 103u8]
}

/// ASCII bytes of `"tree"`.
pub open spec fn tree_tag() -> Seq<u8> {
    seq![116u8, 114u8, 101u8, 101u8]
}

/// The type whose tag is `s`, if any.
pub open spec fn parse_tag(s: Seq<u8>) -> Option<ObjectType> {
    if s == blob_tag() {
        Some(ObjectType::Blob)
    } else if s == commit_tag() {
        Some(ObjectType::Commit)
    } else if s == tag_tag() {
        Some(ObjectType::Tag)
    } else if s == tree_tag() {
        Some(ObjectType::Tree)
    } else {
        None
    }
}

impl ObjectType {
    /// The lowercase ASCII tag that names this type in an object header.
    pub open spec fn tag_spec(self) -> Seq<u8> {
        match self {
            ObjectType::Blob => blob_tag(),
            ObjectType::Commit => commit_tag(),
            ObjectType::Tag => tag_tag(),
            ObjectType::Tree => tree_tag(),
        }
    }

    /// The tag of this type as bytes: `blob`, `commit`, `tag` or `tree`.
    pub fn tag(&self) -> (r: Vec<u8>)
        ensures
            r@ == self.tag_spec(),
    {
        let r = match self {
            ObjectType::Blob => vec![98u8, 108u8, 111u8, 98u8],
            ObjectType::Commit => vec![99u8, 111u8, 109u8, 109u8, 105u8, 116u8],
            ObjectType::Tag => vec![116u8, 97u8, 103u8],
            ObjectType::Tree => vec![116u8, 114u8, 101u8, 101u8],
        };
        assert(r@ =~= self.tag_spec());
        r
    }

    /// The type named by `tag`, or `None` for any other byte string.
    pub fn from_tag(tag: &[u8]) -> (r: Option<ObjectType>)
        ensures
            r == parse_tag(tag@),
    {
        let s = tag;
        let n = s.len();
        if n == 4 && s[0] == 98u8 && s[1] == 108u8 && s[2] == 111u8 && s[3] == 98u8 {
            assert(s@ =~= blob_tag());
            return Some(ObjectType::Blob);
        }
        if n == 6 && s[0] == 99u8 && s[1] == 111u8 && s[2] == 109u8 && s[3] == 109u8
            && s[4] == 105u8 && s[5] == 116u8 {
            assert(s@ =~= commit_tag());
            assert(s@ != blob_tag());
            return Some(ObjectType::Commit);
        }
        if n == 3 && s[0] == 116u8 && s[1] == 97u8 && s[2] == 103u8 {
            assert(s@ =~= tag_tag());
            assert(s@ != blob_tag());
            assert(s@ != commit_tag());
            return Some(ObjectType::Tag);
        }
        if n == 4 && s[0] == 116u8 && s[1] == 114u8 && s[2] == 101u8 && s[3] == 101u8 {
            assert(s@ =~= tree_tag());
            assert(s@[0] != blob_tag()[0]);
            return Some(ObjectType::Tree);
        }
        proof {
            if s@ == blob_tag() || s@ == commit_tag() || s@ == tag_tag() || s@ == tree_tag() {
                assert(false);
            }
        }
        None
    }
}

/// Reading back the tag of a type gives that type.
pub proof fn lemma_parse_tag(t: ObjectType)
    ensures
        parse_tag(t.tag_spec()) == Some(t),
{
    assert(blob_tag()[0] != commit_tag()[0]);
    assert(blob_tag()[0] != tag_tag()[0]);
    assert(blob_tag()[0] != tree_tag()[0]);
    assert(commit_tag()[0] != tag_tag()[0]);
    assert(commit_tag()[0] != tree_tag()[0]);
    assert(tag_tag().len() != tree_tag().len());
}

} // verus!
