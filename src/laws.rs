//! Properties of the language that hold for all inputs.
use vstd::prelude::*;

use crate::ast::Ast;
use crate::error::{ParseError, ParseErrorT};
use crate::lexer::{
    cons, dots, ident_len, is_digit, is_ident_char, is_ident_start, is_number_char, lex, lex_from,
    number_len, word_kind,
};
use crate::parser::{
    lemma_stmt_bounds, parse_cond, parse_group, parse_items, parse_program, parse_stmt,
    parse_stmts, Failure,
};
use crate::token::{Comparator, ConditionalOperator, Tok, TokKind};
use crate::lower::{clause, clauses, lower, op_symbol};
use crate::{parse_source, read_outcome};

verus! {

/// How a comparator is written.
pub open spec fn spelling(c: Comparator) -> Seq<char> {
    match c {
        Comparator::GTE => ">="@,
        Comparator::GT => ">"@,
        Comparator::EQ => "=="@,
        Comparator::NEQ => "!="@,
        Comparator::LT => "<"@,
        Comparator::LTE => "<="@,
    }
}

/// Each of the six comparator spellings lexes to exactly one token, that
/// comparator, so the six give six distinct tokens.
pub proof fn lemma_comparator_spellings(c: Comparator)
    ensures
        lex(spelling(c)) == Ok::<Seq<Tok>, Failure>(seq![Tok { kind: TokKind::Cmp(c), at: 0 }]),
{
    reveal_strlit(">=");
    reveal_strlit(">");
    reveal_strlit("==");
    reveal_strlit("!=");
    reveal_strlit("<");
    reveal_strlit("<=");
    let s = spelling(c);
    let t = Tok { kind: TokKind::Cmp(c), at: 0 };
    assert(lex_from(s, s.len()) == Ok::<Seq<Tok>, Failure>(seq![]));
    assert(seq![t].add(seq![]) =~= seq![t]);
}

/// Wherever `>=` or `<=` stands, it lexes as one two-character comparator
/// token, never as `>` or `<` followed by something else.
pub proof fn lemma_two_char_comparators(s: Seq<char>, i: nat)
    requires
        i + 1 < s.len(),
        s[i as int] == '>' || s[i as int] == '<',
        s[i + 1int] == '=',
    ensures
        lex_from(s, i) == cons(
            Tok {
                kind: TokKind::Cmp(
                    if s[i as int] == '>' {
                        Comparator::GTE
                    } else {
                        Comparator::LTE
                    },
                ),
                at: i,
            },
            lex_from(s, i + 2),
        ),
{
}

/// Reading the same source text twice gives the same outcome: equal
/// statements on success, the same failure otherwise.
pub proof fn lemma_parse_repeatable(
    s: Seq<char>,
    before1: Seq<Ast>,
    after1: Seq<Ast>,
    r1: Result<(), ParseError>,
    before2: Seq<Ast>,
    after2: Seq<Ast>,
    r2: Result<(), ParseError>,
)
    requires
        read_outcome(before1, after1, r1, parse_source(s)),
        read_outcome(before2, after2, r2, parse_source(s)),
    ensures
        r1 is Ok <==> r2 is Ok,
        r1 is Ok ==> after1 == after2,
        r1 matches Err(e1) ==> r2 matches Err(e2) && e1.spec_pair() == e2.spec_pair(),
{
}

/// The kinds of a sequence of tokens.
pub open spec fn kinds(t: Seq<Tok>) -> Seq<TokKind> {
    t.map_values(|x: Tok| x.kind)
}

/// A name inside one operator group per operator, the first outermost:
/// `& ( | ( name ) )` for AND, OR.
pub open spec fn nested_kinds(ops: Seq<ConditionalOperator>, name: Seq<char>) -> Seq<TokKind>
    decreases ops.len(),
{
    if ops.len() == 0 {
        seq![TokKind::Literal(name)]
    } else {
        seq![TokKind::Logic(ops[0]), TokKind::Open].add(nested_kinds(ops.drop_first(), name)).add(
            seq![TokKind::Close],
        )
    }
}

/// The tree of `nested_kinds`: one group per operator around the name.
pub open spec fn nested_ast(ops: Seq<ConditionalOperator>, name: Seq<char>) -> Ast
    decreases ops.len(),
{
    if ops.len() == 0 {
        Ast::Literal(name)
    } else {
        Ast::Group(ops[0], seq![nested_ast(ops.drop_first(), name)])
    }
}

/// Groups nest to any depth: groups nested `n` deep, wherever they stand in
/// the tokens, read as a tree of `n` nested groups, and the read ends just
/// past them.
pub proof fn lemma_nesting(
    t: Seq<Tok>,
    p: nat,
    end: nat,
    ops: Seq<ConditionalOperator>,
    name: Seq<char>,
)
    requires
        p + nested_kinds(ops, name).len() <= t.len(),
        kinds(t).subrange(p as int, p + nested_kinds(ops, name).len() as int) == nested_kinds(ops, name),
    ensures
        parse_cond(t, p, end) == Ok::<(Ast, nat), Failure>(
            (nested_ast(ops, name), p + nested_kinds(ops, name).len()),
        ),
    decreases ops.len(),
{
    let nk = nested_kinds(ops, name);
    let pi = p as int;
    let w = kinds(t).subrange(pi, pi + nk.len());
    assert(t[pi].kind == w[0]);
    if ops.len() > 0 {
        let rest = ops.drop_first();
        let rk = nested_kinds(rest, name);
        let k = rk.len() as int;
        assert(t[pi + 1].kind == w[1]);
        assert(kinds(t).subrange(pi + 2, pi + 2 + k) =~= nk.subrange(2, 2 + k));
        assert(nk.subrange(2, 2 + k) =~= rk);
        lemma_nesting(t, p + 2, end, rest, name);
        let q2 = (p + 2 + k) as nat;
        assert(t[q2 as int].kind == w[2 + k]);
        assert(parse_items(t, p + 2, end) == Ok::<(Seq<Ast>, nat), Failure>(
            (seq![nested_ast(rest, name)], q2 + 1),
        ));
        assert(parse_group(t, p, end) == Ok::<(Ast, nat), Failure>(
            (nested_ast(ops, name), q2 + 1),
        ));
    }
}

/// A read of statements from `p` on that succeeds ends on a closing
/// parenthesis.
proof fn lemma_stmts_end_closed(t: Seq<Tok>, p: nat, end: nat)
    requires
        p < t.len(),
        parse_stmts(t, p, end) is Ok,
    ensures
        t.last().kind is Close,
    decreases t.len() - p,
{
    lemma_stmt_bounds(t, p, end);
    if let Ok((_, q)) = parse_stmt(t, p, end) {
        assert(t[q - 1].kind is Close);
        if q < t.len() {
            lemma_stmts_end_closed(t, q, end);
        }
    }
}

/// A non-empty program that parses ends with a closing parenthesis, so one
/// whose last token is anything else (a statement left open) fails.
pub proof fn lemma_success_ends_closed(t: Seq<Tok>, end: nat)
    requires
        t.len() > 0,
        parse_program(t, end) is Ok,
    ensures
        t.last().kind is Close,
{
    lemma_stmts_end_closed(t, 0, end);
}

/// A program whose first token is not `match` fails at that token with an
/// unexpected-token error.
pub proof fn lemma_top_level_needs_match(t: Seq<Tok>, end: nat)
    requires
        t.len() > 0,
        !(t[0].kind is Match),
    ensures
        parse_program(t, end) == Err::<Seq<Ast>, Failure>((ParseErrorT::Unexpected, t[0].at)),
{
}

/// A name as the lexer reads one: a letter or underscore, then name
/// characters, and not the keyword `match`.
pub open spec fn is_name(x: Seq<char>) -> bool {
    &&& x.len() > 0
    &&& is_ident_start(x[0])
    &&& forall|k: int| 0 <= k < x.len() ==> is_ident_char(#[trigger] x[k])
    &&& x != "match"@
}

/// A number as the lexer reads one: a digit, then digits and dots, with at
/// most one dot.
pub open spec fn is_number(y: Seq<char>) -> bool {
    &&& y.len() > 0
    &&& is_digit(y[0])
    &&& forall|k: int| 0 <= k < y.len() ==> is_number_char(#[trigger] y[k])
    &&& dots(y) <= 1
}

/// The right operand of a comparison: a name or a number.
pub open spec fn is_operand(k: TokKind) -> bool {
    match k {
        TokKind::Literal(y) => is_name(y),
        TokKind::Number(y) => is_number(y),
        _ => false,
    }
}

/// The text of an operand token.
pub open spec fn operand_text(k: TokKind) -> Seq<char> {
    match k {
        TokKind::Literal(y) => y,
        TokKind::Number(y) => y,
        _ => seq![],
    }
}

/// The tree of an operand token.
pub open spec fn operand_ast(k: TokKind) -> Ast {
    match k {
        TokKind::Number(y) => Ast::Number(y),
        _ => Ast::Literal(operand_text(k)),
    }
}

/// The statement `match((x c y))`, with single spaces round the comparator.
pub open spec fn comparison_source(x: Seq<char>, c: Comparator, y: Seq<char>) -> Seq<char> {
    "match(("@ + x + " "@ + spelling(c) + " "@ + y + "))"@
}

/// The statement's tree: one comparison of the name `x` with the operand.
pub open spec fn comparison_ast(x: Seq<char>, c: Comparator, y: TokKind) -> Ast {
    Ast::Match(Box::new(Ast::Condition(c, Box::new(Ast::Literal(x)), Box::new(operand_ast(y)))))
}

proof fn lemma_ident_run(s: Seq<char>, i: nat, j: nat)
    requires
        i <= j <= s.len(),
        forall|k: int| i <= k < j ==> is_ident_char(#[trigger] s[k]),
        j < s.len() ==> !is_ident_char(s[j as int]),
    ensures
        ident_len(s, i) == j - i,
    decreases j - i,
{
    if i < j {
        lemma_ident_run(s, i + 1, j);
    }
}

proof fn lemma_number_run(s: Seq<char>, i: nat, j: nat)
    requires
        i <= j <= s.len(),
        forall|k: int| i <= k < j ==> is_number_char(#[trigger] s[k]),
        j < s.len() ==> !is_number_char(s[j as int]),
    ensures
        number_len(s, i) == j - i,
    decreases j - i,
{
    if i < j {
        lemma_number_run(s, i + 1, j);
    }
}

/// An operand that stands at `i` and is followed by a character that ends it
/// lexes to its token.
proof fn lemma_lex_operand(s: Seq<char>, i: nat, k: TokKind)
    requires
        is_operand(k),
        i + operand_text(k).len() < s.len(),
        s.subrange(i as int, i + operand_text(k).len() as int) == operand_text(k),
        !is_ident_char(s[i + operand_text(k).len() as int]),
    ensures
        lex_from(s, i) == cons(Tok { kind: k, at: i }, lex_from(s, i + operand_text(k).len())),
{
    let y = operand_text(k);
    let j = i + y.len();
    assert(s[i as int] == y[0]);
    assert forall|m: int| i + 1 <= m < j implies s[m] == y[m - i] by {
        assert(s[m] == s.subrange(i as int, j as int)[m - i]);
    }
    match k {
        TokKind::Literal(_) => {
            lemma_ident_run(s, i + 1, j as nat);
            assert(word_kind(y) == k);
        },
        TokKind::Number(_) => {
            assert(!is_number_char(s[j as int]));
            lemma_number_run(s, i + 1, j as nat);
        },
        _ => {},
    }
}

/// The tokens of `match((x c y))`.
pub open spec fn comparison_tokens(x: Seq<char>, c: Comparator, y: TokKind) -> Seq<Tok> {
    let a = 8 + x.len();
    let b = a + spelling(c).len() + 1;
    let e = b + operand_text(y).len();
    seq![
        Tok { kind: TokKind::Match, at: 0 },
        Tok { kind: TokKind::Open, at: 5 },
        Tok { kind: TokKind::Open, at: 6 },
        Tok { kind: TokKind::Literal(x), at: 7 },
        Tok { kind: TokKind::Cmp(c), at: a },
        Tok { kind: y, at: b },
        Tok { kind: TokKind::Close, at: e },
        Tok { kind: TokKind::Close, at: e + 1 },
    ]
}

proof fn lemma_lex_close2(s: Seq<char>, e: nat)
    requires
        s.len() == e + 2,
        s[e as int] == ')',
        s[e + 1int] == ')',
    ensures
        lex_from(s, e) == Ok::<Seq<Tok>, Failure>(
            seq![Tok { kind: TokKind::Close, at: e }, Tok { kind: TokKind::Close, at: e + 1 }],
        ),
{
    assert(lex_from(s, e + 2) == Ok::<Seq<Tok>, Failure>(seq![]));
    assert(lex_from(s, e + 1) == cons(Tok { kind: TokKind::Close, at: e + 1 }, lex_from(s, e + 2)));
    assert(lex_from(s, e) == cons(Tok { kind: TokKind::Close, at: e }, lex_from(s, e + 1)));
    assert(seq![Tok { kind: TokKind::Close, at: e + 1 }].add(seq![]) =~= seq![
        Tok { kind: TokKind::Close, at: e + 1 },
    ]);
    assert(seq![Tok { kind: TokKind::Close, at: e }].add(
        seq![Tok { kind: TokKind::Close, at: e + 1 }],
    ) =~= seq![Tok { kind: TokKind::Close, at: e }, Tok { kind: TokKind::Close, at: e + 1 }]);
}

proof fn lemma_lex_cmp(s: Seq<char>, a: nat, c: Comparator)
    requires
        a + spelling(c).len() < s.len(),
        s.subrange(a as int, a + spelling(c).len() as int) == spelling(c),
        s[a + spelling(c).len() as int] == ' ',
    ensures
        lex_from(s, a) == cons(
            Tok { kind: TokKind::Cmp(c), at: a },
            lex_from(s, a + spelling(c).len() + 1),
        ),
{
    reveal_strlit(">=");
    reveal_strlit(">");
    reveal_strlit("==");
    reveal_strlit("!=");
    reveal_strlit("<");
    reveal_strlit("<=");
    let ls = spelling(c).len() as int;
    assert(s[a as int] == s.subrange(a as int, a + ls)[0]);
    if ls == 2 {
        assert(s[a + 1int] == s.subrange(a as int, a + ls)[1]);
    }
    assert(lex_from(s, (a + ls) as nat) == lex_from(s, (a + ls + 1) as nat));
}

proof fn lemma_lex_keyword(s: Seq<char>)
    requires
        s.len() > 7,
        s.subrange(0, 7) == "match(("@,
    ensures
        lex_from(s, 0) == cons(
            Tok { kind: TokKind::Match, at: 0 },
            cons(
                Tok { kind: TokKind::Open, at: 5 },
                cons(Tok { kind: TokKind::Open, at: 6 }, lex_from(s, 7)),
            ),
        ),
{
    reveal_strlit("match((");
    reveal_strlit("match");
    assert forall|k: int| 0 <= k < 7 implies s[k] == "match(("@[k] by {
        assert(s[k] == s.subrange(0, 7)[k]);
    }
    assert(s[0] == 'm');
    assert(s[5] == '(');
    assert(s[6] == '(');
    assert(!is_ident_char(s[5]));
    lemma_ident_run(s, 1, 5);
    assert(s.subrange(0, 5) =~= "match"@);
    assert(word_kind(s.subrange(0, 5)) == TokKind::Match);
    assert(lex_from(s, 6) == cons(Tok { kind: TokKind::Open, at: 6 }, lex_from(s, 7)));
    assert(lex_from(s, 5) == cons(Tok { kind: TokKind::Open, at: 5 }, lex_from(s, 6)));
    assert(lex_from(s, 0) == cons(Tok { kind: TokKind::Match, at: 0 }, lex_from(s, 5)));
}

/// `match((x c y))` lexes to its eight tokens.
#[verifier::rlimit(40)]
proof fn lemma_lex_comparison(x: Seq<char>, c: Comparator, y: TokKind)
    requires
        is_name(x),
        is_operand(y),
    ensures
        lex(comparison_source(x, c, operand_text(y))) == Ok::<Seq<Tok>, Failure>(
            comparison_tokens(x, c, y),
        ),
{
    reveal_strlit("match((");
    reveal_strlit(" ");
    reveal_strlit("))");
    let yt = operand_text(y);
    let sp = spelling(c);
    let s = comparison_source(x, c, yt);
    let ts = comparison_tokens(x, c, y);
    let nx = x.len() as int;
    let ls = sp.len() as int;
    let ny = yt.len() as int;
    let a = 8 + nx;
    let b = a + ls + 1;
    let e = b + ny;
    let upto_x = "match(("@ + x;
    let upto_gap = upto_x + " "@;
    let upto_cmp = upto_gap + sp;
    let upto_space = upto_cmp + " "@;
    let upto_y = upto_space + yt;
    assert(s == upto_y + "))"@);
    assert(s.len() == e + 2);
    assert(s.subrange(0, 7) =~= "match(("@);
    assert(s.subrange(7, 7 + nx) =~= x);
    assert(s.subrange(a, a + ls) =~= sp);
    assert(s.subrange(b, b + ny) =~= yt);
    assert(s[7 + nx] == ' ');
    assert(s[a + ls] == ' ');
    assert(s[e] == ')');
    assert(s[e + 1] == ')');

    lemma_lex_close2(s, e as nat);
    assert(!is_ident_char(s[b + ny]));
    lemma_lex_operand(s, b as nat, y);
    lemma_lex_cmp(s, a as nat, c);
    assert(lex_from(s, (7 + nx) as nat) == lex_from(s, a as nat));
    assert(!is_ident_char(s[7 + nx]));
    lemma_lex_operand(s, 7, TokKind::Literal(x));
    lemma_lex_keyword(s);
    let tail = seq![ts[6], ts[7]];
    assert(lex_from(s, e as nat) == Ok::<Seq<Tok>, Failure>(tail));
    assert(ts =~= seq![ts[0]].add(seq![ts[1]].add(seq![ts[2]].add(seq![ts[3]].add(
        seq![ts[4]].add(seq![ts[5]].add(tail)),
    )))));
}

proof fn lemma_parse_comparison(x: Seq<char>, c: Comparator, y: TokKind, end: nat)
    requires
        is_operand(y),
    ensures
        parse_program(comparison_tokens(x, c, y), end) == Ok::<Seq<Ast>, Failure>(
            seq![comparison_ast(x, c, y)],
        ),
{
    let t = comparison_tokens(x, c, y);
    let cond = Ast::Condition(c, Box::new(Ast::Literal(x)), Box::new(operand_ast(y)));
    assert(parse_cond(t, 3, end) == Ok::<(Ast, nat), Failure>((Ast::Literal(x), 4nat)));
    assert(parse_cond(t, 5, end) == Ok::<(Ast, nat), Failure>((operand_ast(y), 6nat)));
    assert(parse_cond(t, 2, end) == Ok::<(Ast, nat), Failure>((cond, 7nat)));
    assert(parse_stmt(t, 0, end) == Ok::<(Ast, nat), Failure>((comparison_ast(x, c, y), 8nat)));
    assert(parse_stmts(t, 8, end) == Ok::<Seq<Ast>, Failure>(seq![]));
    assert(seq![comparison_ast(x, c, y)].add(seq![]) =~= seq![comparison_ast(x, c, y)]);
}

/// A statement that compares two names, `match((x c y))`, reads as exactly
/// one statement holding that comparison: its comparator, `x` on the left
/// and `y` on the right.
pub proof fn lemma_name_comparison(x: Seq<char>, c: Comparator, y: Seq<char>)
    requires
        is_name(x),
        is_name(y),
    ensures
        parse_source(comparison_source(x, c, y)) == Ok::<Seq<Ast>, Failure>(
            seq![
                Ast::Match(
                    Box::new(Ast::Condition(c, Box::new(Ast::Literal(x)), Box::new(Ast::Literal(y)))),
                ),
            ],
        ),
{
    let s = comparison_source(x, c, y);
    lemma_lex_comparison(x, c, TokKind::Literal(y));
    lemma_parse_comparison(x, c, TokKind::Literal(y), s.len());
}

/// A statement that compares a name with a number, `match((x c y))`, reads
/// as exactly one statement holding that comparison: its comparator, `x` on
/// the left and the number `y` on the right.
pub proof fn lemma_number_comparison(x: Seq<char>, c: Comparator, y: Seq<char>)
    requires
        is_name(x),
        is_number(y),
    ensures
        parse_source(comparison_source(x, c, y)) == Ok::<Seq<Ast>, Failure>(
            seq![
                Ast::Match(
                    Box::new(Ast::Condition(c, Box::new(Ast::Literal(x)), Box::new(Ast::Number(y)))),
                ),
            ],
        ),
{
    let s = comparison_source(x, c, y);
    lemma_lex_comparison(x, c, TokKind::Number(y));
    lemma_parse_comparison(x, c, TokKind::Number(y), s.len());
}

/// A statement that compares two names lowers to one filter clause: the
/// field `x`, the comparator's operator and the value `y`.
pub proof fn lemma_lower_name_comparison(x: Seq<char>, c: Comparator, y: Seq<char>)
    requires
        is_name(x),
        is_name(y),
    ensures
        parse_source(comparison_source(x, c, y)) matches Ok(ms) && lower(ms) == Ok::<
            Seq<char>,
            nat,
        >(
            "db.collection.aggregate{["@ + ("{ $match: { "@ + x + ": { "@ + op_symbol(c) + ": "@ + y
                + " } } },"@) + "]}"@,
        ),
{
    lemma_name_comparison(x, c, y);
    let m = Ast::Match(
        Box::new(Ast::Condition(c, Box::new(Ast::Literal(x)), Box::new(Ast::Literal(y)))),
    );
    let ms = seq![m];
    let cl = "{ $match: { "@ + x + ": { "@ + op_symbol(c) + ": "@ + y + " } } },"@;
    assert(clause(m) == Some(cl));
    assert(ms.drop_last() =~= Seq::<Ast>::empty());
    assert(clauses(ms.drop_last()) == Ok::<Seq<char>, nat>(seq![]));
    assert(seq![].add(cl) =~= cl);
}

/// A refusal names a statement that has no clause.
proof fn lemma_clauses_err_names(ms: Seq<Ast>)
    ensures
        clauses(ms) matches Err(k) ==> k < ms.len() && clause(ms[k as int]) is None,
    decreases ms.len(),
{
    if ms.len() > 0 {
        lemma_clauses_err_names(ms.drop_last());
    }
}

/// Lowering never drops a statement it cannot express: where statement `i`
/// (a group, a number operand, a nested comparison) has no clause, lowering
/// fails, naming that statement or an earlier one that has no clause either.
pub proof fn lemma_lower_refuses(ms: Seq<Ast>, i: int)
    requires
        0 <= i < ms.len(),
        clause(ms[i]) is None,
    ensures
        lower(ms) matches Err(k) && k <= i && clause(ms[k as int]) is None,
    decreases ms.len(),
{
    lemma_clauses_err_names(ms);
    if i < ms.len() - 1 {
        lemma_lower_refuses(ms.drop_last(), i);
    }
}

} // verus!
