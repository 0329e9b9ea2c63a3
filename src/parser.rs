use vstd::prelude::*;

use crate::ast::{ASTNode, Ast, lemma_group_view, nodes_view};
use crate::error::{ParseError, ParseErrorT};
use crate::token::{ConditionalOperator, Tok, TokKind, Token, TokenT, toks_view};
use crate::MonGod;

verus! {

broadcast use vstd::std_specs::vec::group_vec_axioms;

/// A failure: its kind and the offset where it was found.
pub type Failure = (ParseErrorT, nat);

/// Whether the token at `p` is an AND / OR operator.
pub open spec fn logic_at(t: Seq<Tok>, p: nat) -> bool {
    p < t.len() && t[p as int].kind is Logic
}

/// Whether the token at `p` is an open parenthesis.
pub open spec fn open_at(t: Seq<Tok>, p: nat) -> bool {
    p < t.len() && t[p as int].kind is Open
}

/// Whether the token at `p` is a close parenthesis.
pub open spec fn close_at(t: Seq<Tok>, p: nat) -> bool {
    p < t.len() && t[p as int].kind is Close
}

/// One condition read from position `p` on: the node and the position after
/// it. `end` is the offset reported when the tokens run out.
///
/// A condition is an operator group, a name, a number, or
/// `( condition comparator condition )`.
pub open spec fn parse_cond(t: Seq<Tok>, p: nat, end: nat) -> Result<(Ast, nat), Failure>
    decreases t.len() - p, 2nat,
{
    if p >= t.len() {
        Err((ParseErrorT::EndOfTokenStream, end))
    } else {
        match t[p as int].kind {
            TokKind::Logic(_) => parse_group(t, p, end),
            TokKind::Literal(s) => Ok((Ast::Literal(s), p + 1)),
            TokKind::Number(s) => Ok((Ast::Number(s), p + 1)),
            TokKind::Open => match parse_cond(t, p + 1, end) {
                Err(e) => Err(e),
                // A condition read always ends past where it began, so
                // `p < q` holds; it shows that the recursion ends.
                Ok((l, q)) => if p < q && q < t.len() {
                    match t[q as int].kind {
                        TokKind::Cmp(c) => match parse_cond(t, q + 1, end) {
                            Err(e) => Err(e),
                            Ok((r, q2)) => if q2 >= t.len() {
                                Err((ParseErrorT::EndOfTokenStream, end))
                            } else if t[q2 as int].kind is Close {
                                Ok((Ast::Condition(c, Box::new(l), Box::new(r)), q2 + 1))
                            } else {
                                Err((ParseErrorT::UnmatchedParenthesis, t[q2 as int].at))
                            },
                        },
                        _ => Err((ParseErrorT::MissingComparator, t[q as int].at)),
                    }
                } else {
                    Err((ParseErrorT::EndOfTokenStream, end))
                },
            },
            _ => Err((ParseErrorT::Unexpected, t[p as int].at)),
        }
    }
}

/// An operator group read from position `p` on: the operator, an open
/// parenthesis, and the conditions up to the closing parenthesis.
pub open spec fn parse_group(t: Seq<Tok>, p: nat, end: nat) -> Result<(Ast, nat), Failure>
    decreases t.len() - p, 1nat,
{
    if p >= t.len() {
        Err((ParseErrorT::EndOfTokenStream, end))
    } else {
        match t[p as int].kind {
            TokKind::Logic(op) => if p + 1 >= t.len() {
                Err((ParseErrorT::EndOfTokenStream, end))
            } else if t[p + 1int].kind is Open {
                match parse_items(t, p + 2, end) {
                    Ok((cs, q)) => Ok((Ast::Group(op, cs), q)),
                    Err(e) => Err(e),
                }
            } else {
                Err((ParseErrorT::MissingOpenParen, t[p + 1int].at))
            },
            _ => Err((ParseErrorT::Unexpected, t[p as int].at)),
        }
    }
}

/// Where the next condition of a group starts when the token at `q` opens a
/// parenthesis: past it when an operator follows (a parenthesis that only
/// groups a nested operator), at it otherwise.
pub open spec fn next_item(t: Seq<Tok>, q: nat) -> nat {
    if logic_at(t, q + 1) {
        q + 1
    } else {
        q
    }
}

/// The conditions of a group from position `q` on, up to and past the
/// closing parenthesis. Conditions follow one another with no separator.
pub open spec fn parse_items(t: Seq<Tok>, q: nat, end: nat) -> Result<(Seq<Ast>, nat), Failure>
    decreases t.len() - q, 3nat,
{
    if q >= t.len() {
        Err((ParseErrorT::EndOfTokenStream, end))
    } else {
        match parse_cond(t, q, end) {
            Err(e) => Err(e),
            // As in `parse_cond`, `q < q2` always holds.
            Ok((c, q2)) => if q < q2 && q2 < t.len() {
                match t[q2 as int].kind {
                    TokKind::Close => Ok((seq![c], q2 + 1)),
                    TokKind::Open => match parse_items(t, next_item(t, q2), end) {
                        Ok((cs, q3)) => Ok((seq![c].add(cs), q3)),
                        Err(e) => Err(e),
                    },
                    _ => Err((ParseErrorT::Unexpected, t[q2 as int].at)),
                }
            } else {
                Err((ParseErrorT::EndOfTokenStream, end))
            },
        }
    }
}

/// One statement read from position `p` on: `match ( condition )`.
pub open spec fn parse_stmt(t: Seq<Tok>, p: nat, end: nat) -> Result<(Ast, nat), Failure> {
    if p >= t.len() {
        Err((ParseErrorT::EndOfTokenStream, end))
    } else if t[p as int].kind is Match {
        if open_at(t, p + 1) {
            match parse_cond(t, p + 2, end) {
                Err(e) => Err(e),
                Ok((c, q)) => if q >= t.len() {
                    Err((ParseErrorT::EndOfTokenStream, end))
                } else if t[q as int].kind is Close {
                    Ok((Ast::Match(Box::new(c)), q + 1))
                } else {
                    Err((ParseErrorT::UnmatchedParenthesis, t[q as int].at))
                },
            }
        } else {
            Err((ParseErrorT::MissingOpenParen, t[p as int].at))
        }
    } else {
        Err((ParseErrorT::Unexpected, t[p as int].at))
    }
}

/// The statements from position `p` to the end of the tokens.
pub open spec fn parse_stmts(t: Seq<Tok>, p: nat, end: nat) -> Result<Seq<Ast>, Failure>
    decreases t.len() - p,
{
    if p >= t.len() {
        Ok(seq![])
    } else {
        match parse_stmt(t, p, end) {
            Err(e) => Err(e),
            Ok((m, q)) => {
                proof {
                    lemma_stmt_bounds(t, p, end);
                }
                match parse_stmts(t, q, end) {
                    Ok(ms) => Ok(seq![m].add(ms)),
                    Err(e) => Err(e),
                }
            },
        }
    }
}

/// The statements of a whole token sequence.
pub open spec fn parse_program(t: Seq<Tok>, end: nat) -> Result<Seq<Ast>, Failure> {
    parse_stmts(t, 0, end)
}

/// A successful read always moves forward and stays within the tokens.
pub proof fn lemma_cond_bounds(t: Seq<Tok>, p: nat, end: nat)
    ensures
        parse_cond(t, p, end) matches Ok((_, q)) ==> p < q <= t.len(),
    decreases t.len() - p, 2nat,
{
    if p < t.len() {
        match t[p as int].kind {
            TokKind::Logic(_) => {
                lemma_group_bounds(t, p, end);
            },
            TokKind::Open => {
                lemma_cond_bounds(t, p + 1, end);
                if let Ok((_, q)) = parse_cond(t, p + 1, end) {
                    if p < q && q < t.len() {
                        lemma_cond_bounds(t, q + 1, end);
                    }
                }
            },
            _ => {},
        }
    }
}

/// A group read always moves forward and stays within the tokens.
pub proof fn lemma_group_bounds(t: Seq<Tok>, p: nat, end: nat)
    ensures
        parse_group(t, p, end) matches Ok((_, q)) ==> p < q <= t.len(),
    decreases t.len() - p, 1nat,
{
    if p + 1 < t.len() {
        lemma_items_bounds(t, p + 2, end);
    }
}

/// A list of conditions read always moves forward, stays within the tokens
/// and holds at least one condition.
pub proof fn lemma_items_bounds(t: Seq<Tok>, q: nat, end: nat)
    ensures
        parse_items(t, q, end) matches Ok((cs, q2)) ==> q < q2 <= t.len() && cs.len() > 0,
    decreases t.len() - q, 3nat,
{
    if q < t.len() {
        lemma_cond_bounds(t, q, end);
        if let Ok((_, q2)) = parse_cond(t, q, end) {
            if q < q2 && q2 < t.len() {
                lemma_items_bounds(t, next_item(t, q2), end);
            }
        }
    }
}

/// A statement read always moves forward and stays within the tokens.
pub proof fn lemma_stmt_bounds(t: Seq<Tok>, p: nat, end: nat)
    ensures
        parse_stmt(t, p, end) matches Ok((_, q)) ==> p < q <= t.len(),
{
    lemma_cond_bounds(t, p + 2, end);
}

/// The outcome of reading one node, as meanings.
pub open spec fn node_result_view(r: Result<(ASTNode, usize), ParseError>) -> Result<
    (Ast, nat),
    Failure,
> {
    match r {
        Ok((n, q)) => Ok((n@, q as nat)),
        Err(e) => Err(e.spec_pair()),
    }
}

/// Puts conditions in front of the outcome of reading the rest of a group.
pub open spec fn prepend_items(
    p: Seq<Ast>,
    r: Result<(Seq<Ast>, nat), Failure>,
) -> Result<(Seq<Ast>, nat), Failure> {
    match r {
        Ok((cs, q)) => Ok((p.add(cs), q)),
        Err(e) => Err(e),
    }
}

impl MonGod {
    /// Reads one condition from `tokens[pos..]`; see `parse_cond`. `end` is
    /// the offset reported when the tokens run out.
    pub fn parse_condition(tokens: &Vec<Token>, pos: usize, end: usize) -> (r: Result<
        (ASTNode, usize),
        ParseError,
    >)
        ensures
            node_result_view(r) == parse_cond(toks_view(tokens@), pos as nat, end as nat),
            r matches Ok((_, q)) ==> pos < q <= tokens@.len(),
        decreases tokens@.len() - pos, 2nat,
    {
        let ghost t = toks_view(tokens@);
        proof {
            lemma_cond_bounds(t, pos as nat, end as nat);
        }
        if pos >= tokens.len() {
            return Err(ParseError { ty: ParseErrorT::EndOfTokenStream, cursor: end });
        }
        match &tokens[pos].ty {
            TokenT::ConditionalOperator(_) => Self::parse_logical_op(tokens, pos, end),
            TokenT::Literal(s) => Ok((ASTNode::Literal(s.clone()), pos + 1)),
            TokenT::Number(s) => Ok((ASTNode::Number(s.clone()), pos + 1)),
            TokenT::OpenParen => {
                let (left, q) = match Self::parse_condition(tokens, pos + 1, end) {
                    Ok(x) => x,
                    Err(e) => return Err(e),
                };
                if q >= tokens.len() {
                    return Err(ParseError { ty: ParseErrorT::EndOfTokenStream, cursor: end });
                }
                let op = match &tokens[q].ty {
                    TokenT::Comparator(c) => *c,
                    _ => return Err(ParseError { ty: ParseErrorT::MissingComparator, cursor: tokens[q].idx }),
                };
                let (right, q2) = match Self::parse_condition(tokens, q + 1, end) {
                    Ok(x) => x,
                    Err(e) => return Err(e),
                };
                if q2 >= tokens.len() {
                    return Err(ParseError { ty: ParseErrorT::EndOfTokenStream, cursor: end });
                }
                match &tokens[q2].ty {
                    TokenT::CloseParen => Ok(
                        (ASTNode::Condition { op, left: Box::new(left), right: Box::new(right) }, q2 + 1),
                    ),
                    _ => Err(ParseError { ty: ParseErrorT::UnmatchedParenthesis, cursor: tokens[q2].idx }),
                }
            },
            _ => Err(ParseError { ty: ParseErrorT::Unexpected, cursor: tokens[pos].idx }),
        }
    }

    /// Reads an operator group from `tokens[pos..]`; see `parse_group`.
    pub fn parse_logical_op(tokens: &Vec<Token>, pos: usize, end: usize) -> (r: Result<
        (ASTNode, usize),
        ParseError,
    >)
        ensures
            node_result_view(r) == parse_group(toks_view(tokens@), pos as nat, end as nat),
            r matches Ok((_, q)) ==> pos < q <= tokens@.len(),
        decreases tokens@.len() - pos, 1nat,
    {
        let ghost t = toks_view(tokens@);
        proof {
            lemma_group_bounds(t, pos as nat, end as nat);
        }
        if pos >= tokens.len() {
            return Err(ParseError { ty: ParseErrorT::EndOfTokenStream, cursor: end });
        }
        let op: ConditionalOperator = match &tokens[pos].ty {
            TokenT::ConditionalOperator(o) => *o,
            _ => return Err(ParseError { ty: ParseErrorT::Unexpected, cursor: tokens[pos].idx }),
        };
        if pos + 1 >= tokens.len() {
            return Err(ParseError { ty: ParseErrorT::EndOfTokenStream, cursor: end });
        }
        match &tokens[pos + 1].ty {
            TokenT::OpenParen => {},
            _ => return Err(ParseError { ty: ParseErrorT::MissingOpenParen, cursor: tokens[pos + 1].idx }),
        }
        let mut conditions: Vec<Box<ASTNode>> = Vec::new();
        let mut q: usize = pos + 2;
        proof {
            match parse_items(t, q as nat, end as nat) {
                Ok((cs, q3)) => {
                    assert(seq![].add(cs) =~= cs);
                },
                Err(_) => {},
            }
            assert(nodes_view(conditions@) =~= seq![]);
        }
        loop
            invariant
                t == toks_view(tokens@),
                pos + 2 <= q <= tokens@.len(),
                t[pos as int].kind == TokKind::Logic(op),
                t[pos + 1].kind is Open,
                parse_items(t, (pos + 2) as nat, end as nat) == prepend_items(
                    nodes_view(conditions@),
                    parse_items(t, q as nat, end as nat),
                ),
            decreases tokens@.len() - q,
        {
            if q >= tokens.len() {
                return Err(ParseError { ty: ParseErrorT::EndOfTokenStream, cursor: end });
            }
            let ghost before = nodes_view(conditions@);
            let (c, q2) = match Self::parse_condition(tokens, q, end) {
                Ok(x) => x,
                Err(e) => return Err(e),
            };
            let ghost cv = c@;
            conditions.push(Box::new(c));
            assert(nodes_view(conditions@) =~= before.push(cv));
            if q2 >= tokens.len() {
                return Err(ParseError { ty: ParseErrorT::EndOfTokenStream, cursor: end });
            }
            match &tokens[q2].ty {
                TokenT::CloseParen => {
                    assert(before.add(seq![cv]) =~= before.push(cv));
                    proof {
                        lemma_group_view(op, conditions);
                    }
                    return Ok((ASTNode::ConditionalOperator { op, conditions }, q2 + 1));
                },
                TokenT::OpenParen => {
                    let ghost old_q = q;
                    if q2 + 1 < tokens.len() && matches!(tokens[q2 + 1].ty, TokenT::ConditionalOperator(_)) {
                        q = q2 + 1;
                    } else {
                        q = q2;
                    }
                    proof {
                        assert(q == next_item(t, q2 as nat));
                        match parse_items(t, q as nat, end as nat) {
                            Ok((cs, q3)) => {
                                assert(before.add(seq![cv].add(cs)) =~= before.push(cv).add(cs));
                            },
                            Err(_) => {},
                        }
                    }
                },
                _ => return Err(ParseError { ty: ParseErrorT::Unexpected, cursor: tokens[q2].idx }),
            }
        }
    }

    /// Reads one statement from `tokens[pos..]`; see `parse_stmt`.
    pub fn parse_match(tokens: &Vec<Token>, pos: usize, end: usize) -> (r: Result<
        (ASTNode, usize),
        ParseError,
    >)
        ensures
            node_result_view(r) == parse_stmt(toks_view(tokens@), pos as nat, end as nat),
            r matches Ok((_, q)) ==> pos < q <= tokens@.len(),
    {
        proof {
            lemma_stmt_bounds(toks_view(tokens@), pos as nat, end as nat);
        }
        if pos >= tokens.len() {
            return Err(ParseError { ty: ParseErrorT::EndOfTokenStream, cursor: end });
        }
        match &tokens[pos].ty {
            TokenT::Match => {},
            _ => return Err(ParseError { ty: ParseErrorT::Unexpected, cursor: tokens[pos].idx }),
        }
        if pos + 1 >= tokens.len() || !matches!(tokens[pos + 1].ty, TokenT::OpenParen) {
            return Err(ParseError { ty: ParseErrorT::MissingOpenParen, cursor: tokens[pos].idx });
        }
        let (c, q) = match Self::parse_condition(tokens, pos + 2, end) {
            Ok(x) => x,
            Err(e) => return Err(e),
        };
        if q >= tokens.len() {
            return Err(ParseError { ty: ParseErrorT::EndOfTokenStream, cursor: end });
        }
        match &tokens[q].ty {
            TokenT::CloseParen => Ok((ASTNode::Match(Box::new(c)), q + 1)),
            _ => Err(ParseError { ty: ParseErrorT::UnmatchedParenthesis, cursor: tokens[q].idx }),
        }
    }
}

} // verus!
