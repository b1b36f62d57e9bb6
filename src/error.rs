use vstd::prelude::*;

verus! {

/// The failures of the library and of the program around it, one variant per kind.
#[derive(Clone, Debug, PartialEq, Eq)]
pub enum RustyDiaryError {
    /// A source file could not be read, written or removed.
    Io(String),
    /// The persistent store could not be opened, migrated, read or written.
    Database(String),
    /// A date could not be read from a source name.
    DateParse(String),
    InvalidDirectory(String),
    /// The date pattern is not a valid regular expression.
    InvalidPattern(String),
    /// The source collection was empty.
    NoFilesFound(String),
    /// Empty content or a malformed source name.
    ContentIntegrity(String),
}

} // verus!
