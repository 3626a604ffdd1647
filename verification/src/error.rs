//! The failures that documentation extraction can report.

use vstd::prelude::*;

verus! {

/// What can go wrong between an input path and a rendered document.
#[derive(Debug, Clone, Copy, PartialEq, Eq, Structural)]
pub enum DocError {
    /// An input file does not exist or does not hold text.
    FileUnreadable,
    /// A delimited block has no first description line.
    MissingShortDescription,
    /// An annotation line holds nothing after its marker.
    EmptyAnnotationLine,
    /// The delimiter configuration does not give six distinct markers.
    ConfigMalformed,
    /// A path or pattern names no file.
    InvalidPathPattern,
}

impl DocError {
    /// Whether the error ends the whole run. Configuration and path errors
    /// do; a bad line, block or file only loses that line, block or file.
    pub open spec fn spec_is_fatal(&self) -> bool {
        *self == DocError::ConfigMalformed || *self == DocError::InvalidPathPattern
    }

    /// Whether the error ends the whole run.
    #[verifier::when_used_as_spec(spec_is_fatal)]
    pub fn is_fatal(&self) -> (r: bool)
        ensures
            r == self.spec_is_fatal(),
    {
        match self {
            DocError::ConfigMalformed | DocError::InvalidPathPattern => true,
            _ => false,
        }
    }

    /// The one-line diagnostic of the error.
    pub open spec fn diagnostic(&self) -> Seq<char> {
        match self {
            DocError::FileUnreadable => "file cannot be read as text"@,
            DocError::MissingShortDescription => "block has no short description"@,
            DocError::EmptyAnnotationLine => "annotation line is empty"@,
            DocError::ConfigMalformed => "delimiter configuration is malformed"@,
            DocError::InvalidPathPattern => "path or pattern matches no file"@,
        }
    }

    /// The one-line diagnostic of the error.
    pub fn message(&self) -> (r: &'static str)
        ensures
            r@ == self.diagnostic(),
    {
        match self {
            DocError::FileUnreadable => "file cannot be read as text",
            DocError::MissingShortDescription => "block has no short description",
            DocError::EmptyAnnotationLine => "annotation line is empty",
            DocError::ConfigMalformed => "delimiter configuration is malformed",
            DocError::InvalidPathPattern => "path or pattern matches no file",
        }
    }
}

} // verus!
