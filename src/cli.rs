use vstd::prelude::*;

verus! {

/// A parsed command line: one subcommand.
#[derive(Debug, Clone)]
pub struct Cli {
    pub command: SubCommands,
}

/// The operations offered on a repository.
#[derive(Debug, Clone)]
pub enum SubCommands {
    /// Create an empty repository layout.
    Init,
    /// Show a stored object, named by its hash.
    CatFile { pretty_print: bool, object: String },
    /// Compute a file's object hash and store it as a blob.
    HashObject { write: bool, file: String },
    /// List the names in a stored tree.
    LsTree { name_only: bool, tree_ish: String },
}

} // verus!
