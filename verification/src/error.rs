use vstd::prelude::*;

verus! {

/// The failure taxonomy of the builder.
///
/// `Content` marks a malformed input shape (wrong field count, out-of-range
/// index), `Parse` an unparseable numeric or category field, `Serialize` a
/// record-encoding failure, and `Build` a failed trie construction on a
/// degenerate key set. Every stage surfaces the first error and aborts.
#[derive(Clone, Copy, Debug, PartialEq, Eq, Structural)]
pub enum BuildError {
    Content,
    Parse,
    Serialize,
    Build,
}

impl BuildError {
    /// A short human-readable label for the error class.
    pub fn label(&self) -> (r: &'static str)
        ensures
            r@ == match self {
                BuildError::Content => "content error"@,
                BuildError::Parse => "parse error"@,
                BuildError::Serialize => "serialize error"@,
                BuildError::Build => "build error"@,
            },
    {
        match self {
            BuildError::Content => "content error",
            BuildError::Parse => "parse error",
            BuildError::Serialize => "serialize error",
            BuildError::Build => "build error",
        }
    }
}

} // verus!
