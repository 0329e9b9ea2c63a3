//! Rendering a failure with the line and column it points at.
use vstd::prelude::*;

use crate::error::{ParseError, ParseErrorT};

verus! {

/// The name of a failure kind.
pub open spec fn kind_name(k: ParseErrorT) -> Seq<char> {
    match k {
        ParseErrorT::RHSofComparatorMustBeLiteralOrNumber => "RHSofComparatorMustBeLiteralOrNumber"@,
        ParseErrorT::NoDotBetweenFns => "NoDotBetweenFns"@,
        ParseErrorT::InvalidBinopStructure => "InvalidBinopStructure"@,
        ParseErrorT::Unexpected => "Unexpected"@,
        ParseErrorT::UnmatchedParenthesis => "UnmatchedParenthesis"@,
        ParseErrorT::MissingComparator => "MissingComparator"@,
        ParseErrorT::MissingOpenParen => "MissingOpenParen"@,
        ParseErrorT::EndOfTokenStream => "EndOfTokenStream"@,
        ParseErrorT::UnexpectedCharacter => "UnexpectedCharacter"@,
        ParseErrorT::MalformedNumber => "MalformedNumber"@,
    }
}

fn kind_str(k: ParseErrorT) -> (r: &'static str)
    ensures
        r@ == kind_name(k),
{
    match k {
        ParseErrorT::RHSofComparatorMustBeLiteralOrNumber => "RHSofComparatorMustBeLiteralOrNumber",
        ParseErrorT::NoDotBetweenFns => "NoDotBetweenFns",
        ParseErrorT::InvalidBinopStructure => "InvalidBinopStructure",
        ParseErrorT::Unexpected => "Unexpected",
        ParseErrorT::UnmatchedParenthesis => "UnmatchedParenthesis",
        ParseErrorT::MissingComparator => "MissingComparator",
        ParseErrorT::MissingOpenParen => "MissingOpenParen",
        ParseErrorT::EndOfTokenStream => "EndOfTokenStream",
        ParseErrorT::UnexpectedCharacter => "UnexpectedCharacter",
        ParseErrorT::MalformedNumber => "MalformedNumber",
    }
}

/// The character of a decimal digit.
pub open spec fn digit_char(d: nat) -> char {
    if d == 0 { '0' } else if d == 1 { '1' } else if d == 2 { '2' } else if d == 3 { '3' }
    else if d == 4 { '4' } else if d == 5 { '5' } else if d == 6 { '6' } else if d == 7 { '7' }
    else if d == 8 { '8' } else { '9' }
}

/// A number written in decimal.
pub open spec fn decimal(n: nat) -> Seq<char>
    decreases n,
{
    if n < 10 {
        seq![digit_char(n)]
    } else {
        decimal(n / 10).push(digit_char(n % 10))
    }
}

/// `k` spaces.
pub open spec fn spaces(k: nat) -> Seq<char> {
    Seq::new(k, |i: int| ' ')
}

/// A number written in decimal, right-aligned in three columns.
pub open spec fn padded3(n: nat) -> Seq<char> {
    let d = decimal(n);
    if d.len() < 3 {
        spaces((3 - d.len()) as nat) + d
    } else {
        d
    }
}

/// How many line breaks `s[..c]` holds.
pub open spec fn breaks_before(s: Seq<char>, c: nat) -> nat
    decreases c,
{
    if c == 0 {
        0
    } else {
        breaks_before(s, (c - 1) as nat) + if s[c - 1] == '\n' { 1nat } else { 0nat }
    }
}

/// Where the line holding offset `c` starts.
pub open spec fn line_start(s: Seq<char>, c: nat) -> nat
    decreases c,
{
    if c == 0 {
        0
    } else if s[c - 1] == '\n' {
        c
    } else {
        line_start(s, (c - 1) as nat)
    }
}

/// Where the line holding offset `c` ends: at its line break, or at the end
/// of the text.
pub open spec fn line_end(s: Seq<char>, c: nat) -> nat
    decreases s.len() - c,
{
    if c >= s.len() {
        s.len()
    } else if s[c as int] == '\n' {
        c
    } else {
        line_end(s, c + 1)
    }
}

/// The 1-based line of offset `c`.
pub open spec fn line_of(s: Seq<char>, c: nat) -> nat {
    breaks_before(s, c) + 1
}

/// The 1-based column of offset `c`.
pub open spec fn column_of(s: Seq<char>, c: nat) -> nat {
    (c - line_start(s, c) + 1) as nat
}

/// A failure shown against its source: the kind, the line and column, the
/// line's text and a caret under the column.
pub open spec fn diagnostic(s: Seq<char>, k: ParseErrorT, c: nat) -> Seq<char> {
    let line = line_of(s, c);
    let col = column_of(s, c);
    "ParseError::"@ + kind_name(k) + "\n   --> line "@ + decimal(line) + ", column "@ + decimal(
        col,
    ) + "\n   |\n"@ + padded3(line) + "| "@ + s.subrange(
        line_start(s, c) as int,
        line_end(s, c) as int,
    ) + "\n   | "@ + spaces((col - 1) as nat) + "^\n"@
}

fn digit_str(d: usize) -> (r: &'static str)
    requires
        d < 10,
    ensures
        r@ == seq![digit_char(d as nat)],
{
    proof {
        reveal_strlit("0");
        reveal_strlit("1");
        reveal_strlit("2");
        reveal_strlit("3");
        reveal_strlit("4");
        reveal_strlit("5");
        reveal_strlit("6");
        reveal_strlit("7");
        reveal_strlit("8");
        reveal_strlit("9");
    }
    if d == 0 { "0" } else if d == 1 { "1" } else if d == 2 { "2" } else if d == 3 { "3" }
    else if d == 4 { "4" } else if d == 5 { "5" } else if d == 6 { "6" } else if d == 7 { "7" }
    else if d == 8 { "8" } else { "9" }
}

fn push_decimal(out: &mut String, n: usize)
    ensures
        final(out)@ == old(out)@ + decimal(n as nat),
    decreases n,
{
    if n >= 10 {
        push_decimal(out, n / 10);
    }
    let ghost mid = out@;
    out.append(digit_str(n % 10));
    proof {
        if n >= 10 {
            assert(out@ =~= old(out)@ + decimal(n as nat));
        } else {
            assert(out@ =~= old(out)@ + decimal(n as nat));
        }
    }
}

fn push_spaces(out: &mut String, k: usize)
    ensures
        final(out)@ == old(out)@ + spaces(k as nat),
{
    let mut i: usize = 0;
    proof {
        reveal_strlit(" ");
    }
    while i < k
        invariant
            i <= k,
            out@ == old(out)@ + spaces(i as nat),
        decreases k - i,
    {
        proof {
            reveal_strlit(" ");
        }
        out.append(" ");
        i = i + 1;
        assert(out@ =~= old(out)@ + spaces(i as nat));
    }
}

fn decimal_len(n: usize) -> (r: usize)
    ensures
        r == decimal(n as nat).len(),
        r <= n + 1,
    decreases n,
{
    if n < 10 {
        1
    } else {
        1 + decimal_len(n / 10)
    }
}

/// Shows a failure against the source text it was found in: its kind, the
/// 1-based line and column of its offset, that line, and a caret under the
/// column.
pub fn fmt_err(s: &str, e: ParseError) -> (r: String)
    requires
        e.cursor <= s@.len(),
        e.cursor < usize::MAX,
    ensures
        r@ == diagnostic(s@, e.ty, e.cursor as nat),
{
    let n = s.unicode_len();
    let c = e.cursor;
    let mut k: usize = 0;
    let mut start: usize = 0;
    let mut breaks: usize = 0;
    while k < c
        invariant
            n == s@.len(),
            c <= n,
            k <= c,
            start == line_start(s@, k as nat),
            breaks == breaks_before(s@, k as nat),
            breaks <= k,
        decreases c - k,
    {
        if s.get_char(k) == '\n' {
            start = k + 1;
            breaks = breaks + 1;
        }
        k = k + 1;
    }
    let mut stop: usize = c;
    while stop < n && s.get_char(stop) != '\n'
        invariant
            n == s@.len(),
            c <= stop <= n,
            line_end(s@, c as nat) == line_end(s@, stop as nat),
        decreases n - stop,
    {
        stop = stop + 1;
    }
    proof {
        lemma_line_start_bound(s@, c as nat);
    }
    let line = breaks + 1;
    let col = c - start + 1;
    let mut out = String::from_str("ParseError::");
    out.append(kind_str(e.ty));
    out.append("\n   --> line ");
    push_decimal(&mut out, line);
    out.append(", column ");
    push_decimal(&mut out, col);
    out.append("\n   |\n");
    let width = decimal_len(line);
    if width < 3 {
        push_spaces(&mut out, 3 - width);
    }
    push_decimal(&mut out, line);
    out.append("| ");
    out.append(s.substring_char(start, stop));
    out.append("\n   | ");
    push_spaces(&mut out, col - 1);
    out.append("^\n");
    out
}

proof fn lemma_line_start_bound(s: Seq<char>, c: nat)
    ensures
        line_start(s, c) <= c,
    decreases c,
{
    if c > 0 {
        lemma_line_start_bound(s, (c - 1) as nat);
    }
}

} // verus!
