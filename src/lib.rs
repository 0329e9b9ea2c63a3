//! A small query language of `match(...)` statements over named fields:
//! a lexer, a recursive-descent parser that builds an abstract syntax tree,
//! and a lowering of the simplest statements into a document-query filter.
use vstd::prelude::*;

pub mod ast;
pub mod diagnostic;
pub mod error;
pub mod laws;
pub mod lexer;
pub mod lower;
pub mod parser;
pub mod token;

pub use ast::{ASTNode, Ast};
pub use diagnostic::fmt_err;
pub use error::{ParseError, ParseErrorT};
pub use lower::LowerError;
pub use token::{Comparator, ConditionalOperator, Token, TokenT};

use lexer::lex;
use lower::{clause, clauses, lower, op_symbol};
use parser::{parse_program, parse_stmts, Failure};
use token::toks_view;

verus! {

broadcast use vstd::std_specs::vec::group_vec_axioms;

/// A program's source text and the statements last read from it.
pub struct MonGod {
    s: String,
    pub ast: Vec<ASTNode>,
}

/// The meanings of a list of statements.
pub open spec fn program_view(v: Seq<ASTNode>) -> Seq<Ast> {
    v.map_values(|n: ASTNode| n@)
}

/// The statements of a source text, or the first failure in lexing or
/// parsing it. Running out of tokens is reported at the end of the text.
pub open spec fn parse_source(s: Seq<char>) -> Result<Seq<Ast>, Failure> {
    match lex(s) {
        Err(e) => Err(e),
        Ok(t) => parse_program(t, s.len()),
    }
}

/// How a read of statements relates the program before and after it:
/// on success the statements are replaced, on failure they stay as they were.
pub open spec fn read_outcome(
    before: Seq<Ast>,
    after: Seq<Ast>,
    r: Result<(), ParseError>,
    expected: Result<Seq<Ast>, Failure>,
) -> bool {
    match expected {
        Ok(ms) => r is Ok && after == ms,
        Err(e) => r matches Err(x) && x.spec_pair() == e && after == before,
    }
}

/// The target language's operator for a comparator.
fn op_str(c: Comparator) -> (r: &'static str)
    ensures
        r@ == op_symbol(c),
{
    match c {
        Comparator::GTE => "$gte",
        Comparator::GT => "$gt",
        Comparator::EQ => "$eq",
        Comparator::NEQ => "$neq",
        Comparator::LT => "$lt",
        Comparator::LTE => "$lte",
    }
}

/// A failure in a prefix is the failure of the whole.
proof fn lemma_clauses_err(ms: Seq<Ast>, n: nat)
    requires
        n <= ms.len(),
        clauses(ms.take(n as int)) is Err,
    ensures
        clauses(ms) == clauses(ms.take(n as int)),
    decreases ms.len() - n,
{
    if n < ms.len() {
        assert(ms.take(n + 1int).drop_last() =~= ms.take(n as int));
        lemma_clauses_err(ms, n + 1);
    } else {
        assert(ms.take(n as int) =~= ms);
    }
}

impl MonGod {
    /// The source text.
    pub closed spec fn source(&self) -> Seq<char> {
        self.s@
    }

    /// The statements held, as meanings.
    pub closed spec fn statements(&self) -> Seq<Ast> {
        program_view(self.ast@)
    }

    /// A program over a source text, holding no statements yet.
    pub fn new(s: String) -> (r: Self)
        ensures
            r.source() == s@,
            r.statements() == Seq::<Ast>::empty(),
    {
        let r = Self { s, ast: Vec::new() };
        assert(r.statements() =~= Seq::<Ast>::empty());
        r
    }

    /// Reads the statements of `tokens`; see `parse_program`. Running out of
    /// tokens is reported at the end of the source text. On success the
    /// statements read replace those held; on failure those held stay.
    pub fn parse_tokens(&mut self, tokens: &Vec<Token>) -> (r: Result<(), ParseError>)
        ensures
            final(self).source() == old(self).source(),
            read_outcome(
                old(self).statements(),
                final(self).statements(),
                r,
                parse_program(toks_view(tokens@), old(self).source().len()),
            ),
    {
        let end = self.s.as_str().unicode_len();
        let ghost t = toks_view(tokens@);
        let mut nodes: Vec<ASTNode> = Vec::new();
        let mut p: usize = 0;
        proof {
            match parse_program(t, end as nat) {
                Ok(ms) => {
                    assert(seq![].add(ms) =~= ms);
                },
                Err(_) => {},
            }
            assert(program_view(nodes@) =~= seq![]);
        }
        while p < tokens.len()
            invariant
                t == toks_view(tokens@),
                end == self.s@.len(),
                p <= tokens@.len(),
                parse_program(t, end as nat) == match parse_stmts(t, p as nat, end as nat) {
                    Ok(ms) => Ok(program_view(nodes@).add(ms)),
                    Err(e) => Err(e),
                },
            decreases tokens@.len() - p,
        {
            let ghost before = program_view(nodes@);
            let (m, q) = match Self::parse_match(tokens, p, end) {
                Ok(x) => x,
                Err(e) => return Err(e),
            };
            let ghost mv = m@;
            nodes.push(m);
            proof {
                assert(program_view(nodes@) =~= before.push(mv));
                match parse_stmts(t, q as nat, end as nat) {
                    Ok(ms) => {
                        assert(before.add(seq![mv].add(ms)) =~= before.push(mv).add(ms));
                    },
                    Err(_) => {},
                }
            }
            p = q;
        }
        proof {
            assert(program_view(nodes@).add(seq![]) =~= program_view(nodes@));
        }
        self.ast = nodes;
        Ok(())
    }

    /// Lexes and parses the source text; see `parse_source`. On success the
    /// statements read replace those held; on failure those held stay.
    pub fn build(&mut self) -> (r: Result<(), ParseError>)
        ensures
            final(self).source() == old(self).source(),
            read_outcome(
                old(self).statements(),
                final(self).statements(),
                r,
                parse_source(old(self).source()),
            ),
    {
        let tokens = match Self::tokenize(self.s.as_str()) {
            Ok(t) => t,
            Err(e) => return Err(e),
        };
        self.parse_tokens(&tokens)
    }

    /// The query for the statements held; see `lower`. A statement that is
    /// not a comparison of two names is refused, with its position.
    pub fn ast2mql(&self) -> (r: Result<String, LowerError>)
        ensures
            match lower(self.statements()) {
                Ok(q) => r matches Ok(s) && s@ == q,
                Err(k) => r matches Err(e) && e.index == k,
            },
    {
        let ghost ms = self.statements();
        let mut body = String::new();
        let mut i: usize = 0;
        while i < self.ast.len()
            invariant
                ms == program_view(self.ast@),
                i <= ms.len(),
                clauses(ms.take(i as int)) == Ok::<Seq<char>, nat>(body@),
            decreases self.ast@.len() - i,
        {
            proof {
                assert(ms.take(i + 1).drop_last() =~= ms.take(i as int));
                assert(ms.take(i + 1).last() == ms[i as int]);
            }
            let mut done = false;
            match &self.ast[i] {
                ASTNode::Match(inner) => match &**inner {
                    ASTNode::Condition { op, left, right } => match (&**left, &**right) {
                        (ASTNode::Literal(field), ASTNode::Literal(value)) => {
                            let ghost b0 = body@;
                            body.append("{ $match: { ");
                            body.append(field.as_str());
                            body.append(": { ");
                            body.append(op_str(*op));
                            body.append(": ");
                            body.append(value.as_str());
                            body.append(" } } },");
                            assert(body@ =~= b0 + ("{ $match: { "@ + field@ + ": { "@ + op_symbol(*op)
                                + ": "@ + value@ + " } } },"@));
                            done = true;
                        },
                        _ => {},
                    },
                    _ => {},
                },
                _ => {},
            }
            proof {
                reveal_with_fuel(ASTNode::to_ast, 3);
                assert(ms[i as int] == self.ast@[i as int]@);
                if done {
                    assert(clause(ms[i as int]) is Some);
                } else {
                    assert(clause(ms[i as int]) is None);
                }
            }
            if !done {
                proof {
                    lemma_clauses_err(ms, (i + 1) as nat);
                }
                return Err(LowerError { index: i });
            }
            i = i + 1;
        }
        assert(ms.take(i as int) =~= ms);
        let mut out = String::from_str("db.collection.aggregate{[");
        out.append(body.as_str());
        out.append("]}");
        Ok(out)
    }
}

} // verus!
