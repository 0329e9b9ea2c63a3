use vstd::prelude::*;

verus! {

/// A comparison between two operands.
#[derive(Debug, PartialEq, Eq, Clone, Copy, Structural)]
pub enum Comparator {
    GTE,
    GT,
    EQ,
    NEQ,
    LT,
    LTE,
}

/// A combinator over a list of conditions.
#[derive(Debug, PartialEq, Eq, Clone, Copy, Structural)]
pub enum ConditionalOperator {
    AND,
    OR,
}

/// The kind of a token, with the text of a name or a number.
///
/// A number is kept as its lexeme: ASCII digits with at most one dot,
/// starting with a digit, which reads as a decimal constant.
#[derive(Debug, Clone)]
pub enum TokenT {
    Literal(String),
    Number(String),
    Comparator(Comparator),
    OpenParen,
    CloseParen,
    Dot,
    Match,
    ConditionalOperator(ConditionalOperator),
}

/// A token and the character offset of its first character in the source.
#[derive(Debug, Clone)]
pub struct Token {
    pub ty: TokenT,
    pub idx: usize,
}

/// What a token kind means, with text as character sequences.
pub enum TokKind {
    Literal(Seq<char>),
    Number(Seq<char>),
    Cmp(Comparator),
    Open,
    Close,
    Dot,
    Match,
    Logic(ConditionalOperator),
}

/// What a token means: its kind and its offset.
pub struct Tok {
    pub kind: TokKind,
    pub at: nat,
}

impl View for TokenT {
    type V = TokKind;

    open spec fn view(&self) -> TokKind {
        match self {
            TokenT::Literal(s) => TokKind::Literal(s@),
            TokenT::Number(s) => TokKind::Number(s@),
            TokenT::Comparator(c) => TokKind::Cmp(*c),
            TokenT::OpenParen => TokKind::Open,
            TokenT::CloseParen => TokKind::Close,
            TokenT::Dot => TokKind::Dot,
            TokenT::Match => TokKind::Match,
            TokenT::ConditionalOperator(o) => TokKind::Logic(*o),
        }
    }
}

impl View for Token {
    type V = Tok;

    open spec fn view(&self) -> Tok {
        Tok { kind: self.ty@, at: self.idx as nat }
    }
}

impl PartialEq for TokenT {
    fn eq(&self, other: &TokenT) -> (r: bool) {
        match (self, other) {
            (TokenT::Literal(a), TokenT::Literal(b)) => *a == *b,
            (TokenT::Number(a), TokenT::Number(b)) => *a == *b,
            (TokenT::Comparator(a), TokenT::Comparator(b)) => *a == *b,
            (TokenT::OpenParen, TokenT::OpenParen) => true,
            (TokenT::CloseParen, TokenT::CloseParen) => true,
            (TokenT::Dot, TokenT::Dot) => true,
            (TokenT::Match, TokenT::Match) => true,
            (TokenT::ConditionalOperator(a), TokenT::ConditionalOperator(b)) => *a == *b,
            _ => false,
        }
    }
}

impl vstd::std_specs::cmp::PartialEqSpecImpl for TokenT {
    open spec fn obeys_eq_spec() -> bool {
        true
    }

    open spec fn eq_spec(&self, other: &TokenT) -> bool {
        self@ == other@
    }
}

/// The meaning of a sequence of tokens.
pub open spec fn toks_view(v: Seq<Token>) -> Seq<Tok> {
    v.map_values(|t: Token| t@)
}

} // verus!
