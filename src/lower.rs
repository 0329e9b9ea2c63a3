use vstd::prelude::*;

use crate::ast::Ast;
use crate::token::Comparator;

verus! {

/// The statement that lowering could not express: its position in the
/// program.
#[derive(Debug, PartialEq, Eq, Clone, Copy, Structural)]
pub struct LowerError {
    pub index: usize,
}

/// The target language's operator for a comparator.
pub open spec fn op_symbol(c: Comparator) -> Seq<char> {
    match c {
        Comparator::GTE => "$gte"@,
        Comparator::GT => "$gt"@,
        Comparator::EQ => "$eq"@,
        Comparator::NEQ => "$neq"@,
        Comparator::LT => "$lt"@,
        Comparator::LTE => "$lte"@,
    }
}

/// The filter clause of one statement, where the statement compares a field
/// name with a name: `{ $match: { field: { op: value } } },`. Any other
/// statement has none.
pub open spec fn clause(m: Ast) -> Option<Seq<char>> {
    match m {
        Ast::Match(inner) => match *inner {
            Ast::Condition(c, l, r) => match (*l, *r) {
                (Ast::Literal(field), Ast::Literal(value)) => Some(
                    "{ $match: { "@ + field + ": { "@ + op_symbol(c) + ": "@ + value + " } } },"@,
                ),
                _ => None,
            },
            _ => None,
        },
        _ => None,
    }
}

/// The clauses of all statements in order, or the position of the first
/// statement that has none.
pub open spec fn clauses(ms: Seq<Ast>) -> Result<Seq<char>, nat>
    decreases ms.len(),
{
    if ms.len() == 0 {
        Ok(seq![])
    } else {
        match clauses(ms.drop_last()) {
            Err(k) => Err(k),
            Ok(s) => match clause(ms.last()) {
                Some(c) => Ok(s + c),
                None => Err((ms.len() - 1) as nat),
            },
        }
    }
}

/// The query for a program: its clauses inside the aggregate frame, or the
/// position of the first statement that cannot be expressed.
pub open spec fn lower(ms: Seq<Ast>) -> Result<Seq<char>, nat> {
    match clauses(ms) {
        Ok(s) => Ok("db.collection.aggregate{["@ + s + "]}"@),
        Err(k) => Err(k),
    }
}

} // verus!
