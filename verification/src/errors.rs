use vstd::prelude::*;

verus! {

/// A failure of the scanner.
#[derive(Debug, Clone, Copy, PartialEq, Eq, Structural)]
pub enum ScanError {
    /// A character the token grammar has no place for, and the zero-based
    /// character offset where it stands in the source text.
    UnexpectedChar(char, usize),
}

} // verus!
