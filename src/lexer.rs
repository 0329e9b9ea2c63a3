use vstd::prelude::*;

use crate::error::{ParseError, ParseErrorT};
use crate::token::{Comparator, ConditionalOperator, Tok, TokKind, Token, TokenT, toks_view};
use crate::MonGod;

verus! {

/// Whether `char::is_alphanumeric` holds of a character.
pub uninterp spec fn alnum(c: char) -> bool;

/// Relies on `char::is_alphanumeric`: whether the character is alphabetic or
/// numeric in Unicode's sense.
#[verifier::external_body]
fn is_alphanumeric(c: char) -> (r: bool)
    ensures
        r == alnum(c),
{
    c.is_alphanumeric()
}

pub open spec fn is_ascii_letter(c: char) -> bool {
    ('a' <= c && c <= 'z') || ('A' <= c && c <= 'Z')
}

pub open spec fn is_digit(c: char) -> bool {
    '0' <= c && c <= '9'
}

pub open spec fn is_space(c: char) -> bool {
    c == ' ' || c == '\t' || c == '\n'
}

/// A character that starts a name.
pub open spec fn is_ident_start(c: char) -> bool {
    is_ascii_letter(c) || c == '_'
}

/// A character that continues a name: a letter or digit (for ASCII, an
/// ASCII letter or digit), an underscore or a dot.
pub open spec fn is_ident_char(c: char) -> bool {
    if (c as u32) < 128 {
        is_ascii_letter(c) || is_digit(c) || c == '_' || c == '.'
    } else {
        alnum(c)
    }
}

/// A character that continues a number.
pub open spec fn is_number_char(c: char) -> bool {
    is_digit(c) || c == '.'
}

/// How many characters from `i` on continue a name.
pub open spec fn ident_len(s: Seq<char>, i: nat) -> nat
    decreases s.len() - i,
{
    if i < s.len() && is_ident_char(s[i as int]) {
        1 + ident_len(s, i + 1)
    } else {
        0
    }
}

/// How many characters from `i` on continue a number.
pub open spec fn number_len(s: Seq<char>, i: nat) -> nat
    decreases s.len() - i,
{
    if i < s.len() && is_number_char(s[i as int]) {
        1 + number_len(s, i + 1)
    } else {
        0
    }
}

/// How many dots a text holds.
pub open spec fn dots(s: Seq<char>) -> nat
    decreases s.len(),
{
    if s.len() == 0 {
        0
    } else {
        dots(s.drop_last()) + if s.last() == '.' { 1nat } else { 0nat }
    }
}

/// The token that a name lexeme makes: the keyword or a literal.
pub open spec fn word_kind(w: Seq<char>) -> TokKind {
    if w == "match"@ {
        TokKind::Match
    } else {
        TokKind::Literal(w)
    }
}

/// Puts a token in front of the outcome of lexing the rest.
pub open spec fn cons(t: Tok, r: Result<Seq<Tok>, (ParseErrorT, nat)>) -> Result<
    Seq<Tok>,
    (ParseErrorT, nat),
> {
    match r {
        Ok(ts) => Ok(seq![t].add(ts)),
        Err(e) => Err(e),
    }
}

/// Puts tokens in front of the outcome of lexing the rest.
pub open spec fn prepend(p: Seq<Tok>, r: Result<Seq<Tok>, (ParseErrorT, nat)>) -> Result<
    Seq<Tok>,
    (ParseErrorT, nat),
> {
    match r {
        Ok(ts) => Ok(p.add(ts)),
        Err(e) => Err(e),
    }
}

/// The tokens of `s` from offset `i` on, or the first failure.
pub open spec fn lex_from(s: Seq<char>, i: nat) -> Result<Seq<Tok>, (ParseErrorT, nat)>
    decreases s.len() - i,
{
    if i >= s.len() {
        Ok(seq![])
    } else {
        let c = s[i as int];
        let next_eq = i + 1 < s.len() && s[i + 1int] == '=';
        if is_space(c) {
            lex_from(s, i + 1)
        } else if c == '>' {
            if next_eq {
                cons(Tok { kind: TokKind::Cmp(Comparator::GTE), at: i }, lex_from(s, i + 2))
            } else {
                cons(Tok { kind: TokKind::Cmp(Comparator::GT), at: i }, lex_from(s, i + 1))
            }
        } else if c == '<' {
            if next_eq {
                cons(Tok { kind: TokKind::Cmp(Comparator::LTE), at: i }, lex_from(s, i + 2))
            } else {
                cons(Tok { kind: TokKind::Cmp(Comparator::LT), at: i }, lex_from(s, i + 1))
            }
        } else if c == '=' {
            if next_eq {
                cons(Tok { kind: TokKind::Cmp(Comparator::EQ), at: i }, lex_from(s, i + 2))
            } else {
                Err((ParseErrorT::UnexpectedCharacter, i))
            }
        } else if c == '!' {
            if next_eq {
                cons(Tok { kind: TokKind::Cmp(Comparator::NEQ), at: i }, lex_from(s, i + 2))
            } else {
                Err((ParseErrorT::UnexpectedCharacter, i))
            }
        } else if c == '&' {
            cons(Tok { kind: TokKind::Logic(ConditionalOperator::AND), at: i }, lex_from(s, i + 1))
        } else if c == '|' {
            cons(Tok { kind: TokKind::Logic(ConditionalOperator::OR), at: i }, lex_from(s, i + 1))
        } else if c == '(' {
            cons(Tok { kind: TokKind::Open, at: i }, lex_from(s, i + 1))
        } else if c == ')' {
            cons(Tok { kind: TokKind::Close, at: i }, lex_from(s, i + 1))
        } else if c == '.' {
            cons(Tok { kind: TokKind::Dot, at: i }, lex_from(s, i + 1))
        } else if is_ident_start(c) {
            proof {
                lemma_ident_len_bound(s, i + 1);
            }
            let j = i + 1 + ident_len(s, i + 1);
            cons(Tok { kind: word_kind(s.subrange(i as int, j as int)), at: i }, lex_from(s, j))
        } else if is_digit(c) {
            proof {
                lemma_number_len_bound(s, i + 1);
            }
            let j = i + 1 + number_len(s, i + 1);
            let w = s.subrange(i as int, j as int);
            if dots(w) <= 1 {
                cons(Tok { kind: TokKind::Number(w), at: i }, lex_from(s, j))
            } else {
                Err((ParseErrorT::MalformedNumber, i))
            }
        } else {
            Err((ParseErrorT::UnexpectedCharacter, i))
        }
    }
}

/// The tokens of a whole source text, or the first failure.
pub open spec fn lex(s: Seq<char>) -> Result<Seq<Tok>, (ParseErrorT, nat)> {
    lex_from(s, 0)
}

/// The outcome of the tokenizer, as token meanings and failure pairs.
pub open spec fn lex_result_view(r: Result<Vec<Token>, ParseError>) -> Result<
    Seq<Tok>,
    (ParseErrorT, nat),
> {
    match r {
        Ok(v) => Ok(toks_view(v@)),
        Err(e) => Err(e.spec_pair()),
    }
}

pub proof fn lemma_ident_len_bound(s: Seq<char>, i: nat)
    ensures
        i <= s.len() ==> i + ident_len(s, i) <= s.len(),
    decreases s.len() - i,
{
    if i < s.len() && is_ident_char(s[i as int]) {
        lemma_ident_len_bound(s, i + 1);
    }
}

pub proof fn lemma_number_len_bound(s: Seq<char>, i: nat)
    ensures
        i <= s.len() ==> i + number_len(s, i) <= s.len(),
    decreases s.len() - i,
{
    if i < s.len() && is_number_char(s[i as int]) {
        lemma_number_len_bound(s, i + 1);
    }
}

proof fn lemma_prepend_cons(p: Seq<Tok>, t: Tok, r: Result<Seq<Tok>, (ParseErrorT, nat)>)
    ensures
        prepend(p, cons(t, r)) == prepend(p.push(t), r),
{
    match r {
        Ok(ts) => {
            assert(p.add(seq![t].add(ts)) =~= p.push(t).add(ts));
        },
        Err(e) => {},
    }
}

fn is_name_char(c: char) -> (r: bool)
    ensures
        r == is_ident_char(c),
{
    if (c as u32) < 128 {
        ('a' <= c && c <= 'z') || ('A' <= c && c <= 'Z') || ('0' <= c && c <= '9') || c == '_'
            || c == '.'
    } else {
        is_alphanumeric(c)
    }
}

fn is_number_char_exec(c: char) -> (r: bool)
    ensures
        r == is_number_char(c),
{
    ('0' <= c && c <= '9') || c == '.'
}

/// Counts the dots of `s[from..to]`.
fn count_dots(s: &str, from: usize, to: usize) -> (r: usize)
    requires
        from <= to <= s@.len(),
    ensures
        r == dots(s@.subrange(from as int, to as int)),
{
    let mut k: usize = from;
    let mut n: usize = 0;
    while k < to
        invariant
            from <= k <= to <= s@.len(),
            n == dots(s@.subrange(from as int, k as int)),
            n <= k - from,
        decreases to - k,
    {
        let c = s.get_char(k);
        assert(s@.subrange(from as int, k + 1).drop_last() =~= s@.subrange(from as int, k as int));
        if c == '.' {
            n = n + 1;
        }
        k = k + 1;
    }
    n
}

impl MonGod {
    /// Splits a source text into tokens, each with the character offset of its
    /// first character; see `lex_from`. Fails at the first character that
    /// starts no token (a lone `=` or `!` among them: only `==` and `!=` are
    /// comparators) and at the first number with more than one dot.
    pub fn tokenize(s: &str) -> (r: Result<Vec<Token>, ParseError>)
        ensures
            lex_result_view(r) == lex(s@),
    {
        let n = s.unicode_len();
        let mut tokens: Vec<Token> = Vec::new();
        let mut i: usize = 0;
        proof {
            match lex(s@) {
                Ok(ts) => {
                    assert(seq![].add(ts) =~= ts);
                },
                Err(_) => {},
            }
            assert(toks_view(tokens@) =~= seq![]);
        }
        while i < n
            invariant
                n == s@.len(),
                i <= n,
                lex(s@) == prepend(toks_view(tokens@), lex_from(s@, i as nat)),
            decreases n - i,
        {
            let c = s.get_char(i);
            let next_eq = i + 1 < n && s.get_char(i + 1) == '=';
            let ghost rest = lex_from(s@, i as nat);
            let ghost before = toks_view(tokens@);
            let mut kind: Option<TokenT> = None;
            let mut step: usize = 1;
            if c == ' ' || c == '\t' || c == '\n' {
            } else if c == '>' {
                if next_eq {
                    kind = Some(TokenT::Comparator(Comparator::GTE));
                    step = 2;
                } else {
                    kind = Some(TokenT::Comparator(Comparator::GT));
                }
            } else if c == '<' {
                if next_eq {
                    kind = Some(TokenT::Comparator(Comparator::LTE));
                    step = 2;
                } else {
                    kind = Some(TokenT::Comparator(Comparator::LT));
                }
            } else if c == '=' {
                if next_eq {
                    kind = Some(TokenT::Comparator(Comparator::EQ));
                    step = 2;
                } else {
                    return Err(ParseError { ty: ParseErrorT::UnexpectedCharacter, cursor: i });
                }
            } else if c == '!' {
                if next_eq {
                    kind = Some(TokenT::Comparator(Comparator::NEQ));
                    step = 2;
                } else {
                    return Err(ParseError { ty: ParseErrorT::UnexpectedCharacter, cursor: i });
                }
            } else if c == '&' {
                kind = Some(TokenT::ConditionalOperator(ConditionalOperator::AND));
            } else if c == '|' {
                kind = Some(TokenT::ConditionalOperator(ConditionalOperator::OR));
            } else if c == '(' {
                kind = Some(TokenT::OpenParen);
            } else if c == ')' {
                kind = Some(TokenT::CloseParen);
            } else if c == '.' {
                kind = Some(TokenT::Dot);
            } else if ('a' <= c && c <= 'z') || ('A' <= c && c <= 'Z') || c == '_' {
                let mut j: usize = i + 1;
                while j < n && is_name_char(s.get_char(j))
                    invariant
                        n == s@.len(),
                        i + 1 <= j <= n,
                        i + 1 + ident_len(s@, (i + 1) as nat) == j + ident_len(s@, j as nat),
                    decreases n - j,
                {
                    j = j + 1;
                }
                assert(j == i + 1 + ident_len(s@, (i + 1) as nat));
                let word = String::from_str(s.substring_char(i, j));
                proof {
                    reveal_strlit("match");
                }
                if word.as_str().unicode_len() == 5 && word.as_str().get_char(0) == 'm'
                    && word.as_str().get_char(1) == 'a' && word.as_str().get_char(2) == 't'
                    && word.as_str().get_char(3) == 'c' && word.as_str().get_char(4) == 'h' {
                    assert(word@ =~= "match"@);
                    kind = Some(TokenT::Match);
                } else {
                    assert(word@ != "match"@);
                    kind = Some(TokenT::Literal(word));
                }
                step = j - i;
            } else if '0' <= c && c <= '9' {
                let mut j: usize = i + 1;
                while j < n && is_number_char_exec(s.get_char(j))
                    invariant
                        n == s@.len(),
                        i + 1 <= j <= n,
                        i + 1 + number_len(s@, (i + 1) as nat) == j + number_len(s@, j as nat),
                    decreases n - j,
                {
                    j = j + 1;
                }
                assert(j == i + 1 + number_len(s@, (i + 1) as nat));
                if count_dots(s, i, j) > 1 {
                    return Err(ParseError { ty: ParseErrorT::MalformedNumber, cursor: i });
                }
                kind = Some(TokenT::Number(String::from_str(s.substring_char(i, j))));
                step = j - i;
            } else {
                return Err(ParseError { ty: ParseErrorT::UnexpectedCharacter, cursor: i });
            }
            match kind {
                Some(ty) => {
                    let t = Token { ty, idx: i };
                    tokens.push(t);
                    proof {
                        assert(toks_view(tokens@) =~= before.push(t@));
                        lemma_prepend_cons(before, t@, lex_from(s@, (i + step) as nat));
                    }
                },
                None => {},
            }
            i = i + step;
        }
        proof {
            assert(prepend(toks_view(tokens@), Ok(seq![])) == Ok::<Seq<Tok>, (ParseErrorT, nat)>(
                toks_view(tokens@),
            )) by {
                assert(toks_view(tokens@).add(seq![]) =~= toks_view(tokens@));
            }
        }
        Ok(tokens)
    }
}

} // verus!
