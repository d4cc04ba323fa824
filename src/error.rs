//! Failures of decoding an archive and of extracting a file from it.

use vstd::prelude::*;

verus! {

/// Why an archive could not be read or a file could not be extracted.
#[derive(Debug, Clone, Copy, PartialEq, Eq, Structural)]
pub enum RpfError {
    /// The first header word is not the RPF7 magic; holds the word that was found.
    BadMagic(u32),
    /// Fewer bytes were supplied than the header or the entry table needs.
    ShortInput,
    /// A directory's child range reaches past the end of the entry table.
    EntryRangeOutOfBounds,
    /// Directories nest deeper than the table has entries: the child ranges form a cycle.
    DirectoryCycle,
    /// Both the stored and the uncompressed size of a file are zero.
    EmptyFile,
    /// Fewer stored bytes were available than the entry's size asks for.
    TruncatedRead,
}

impl RpfError {
    /// True for the errors that say the archive's structure is malformed.
    pub open spec fn spec_is_format_error(&self) -> bool {
        match self {
            RpfError::BadMagic(_) | RpfError::EntryRangeOutOfBounds
            | RpfError::DirectoryCycle => true,
            _ => false,
        }
    }

    /// True for the errors that say the archive's structure is malformed.
    #[verifier::when_used_as_spec(spec_is_format_error)]
    pub fn is_format_error(&self) -> (r: bool)
        ensures
            r == self.spec_is_format_error(),
    {
        match self {
            RpfError::BadMagic(_) | RpfError::EntryRangeOutOfBounds
            | RpfError::DirectoryCycle => true,
            _ => false,
        }
    }
}

} // verus!
