use vstd::prelude::*;

verus! {

/// The ways an operation on the object store can fail.
#[derive(Debug, Clone, Copy, PartialEq, Eq, Structural)]
pub enum ObjectError {
    /// A filesystem operation (open, create, read, write, mkdir) failed, or
    /// stored bytes could not be decompressed.
    Io,
    /// The requested hash has no object file.
    NotFound,
    /// The stored bytes hold no NUL byte ending the header.
    Framing,
    /// The header is not `"<known type> <decimal length>"`.
    Header,
    /// Content that must be shown as text is not valid UTF-8.
    Encoding,
    /// A tree's content ends in the middle of an entry.
    TruncatedTree,
    /// Rendering was asked for a type that has no rendering.
    UnsupportedType,
}

} // verus!
