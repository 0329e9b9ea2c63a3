use vstd::prelude::*;

verus! {

/// The kind of a failure to read a program.
#[derive(Debug, PartialEq, Eq, Clone, Copy, Structural)]
pub enum ParseErrorT {
    RHSofComparatorMustBeLiteralOrNumber,
    NoDotBetweenFns,
    InvalidBinopStructure,
    Unexpected,
    UnmatchedParenthesis,
    MissingComparator,
    MissingOpenParen,
    EndOfTokenStream,
    /// A character that starts no token, a lone `=` or `!` among them.
    UnexpectedCharacter,
    /// A numeric lexeme with more than one dot.
    MalformedNumber,
}

/// A failure and the character offset in the source where it was found.
#[derive(Debug, Clone, Copy)]
pub struct ParseError {
    pub ty: ParseErrorT,
    pub cursor: usize,
}

impl ParseError {
    /// The failure as a kind and an offset.
    pub open spec fn spec_pair(&self) -> (ParseErrorT, nat) {
        (self.ty, self.cursor as nat)
    }
}

} // verus!
