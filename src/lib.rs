//! A content-addressed object store in the style of a version-control object
//! database: typed payloads are framed as `"<type> <length>\0<content>"`,
//! identified by the SHA-1 digest of that framing, and kept zlib-compressed
//! under a two-level directory layout.

pub mod bytes;
pub mod cli;
pub mod codec;
pub mod error;
pub mod hashing;
pub mod object_type;
pub mod store;
pub mod tree;
