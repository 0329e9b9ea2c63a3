use mongorph::{Comparator, ConditionalOperator, MonGod, ParseErrorT, Token, TokenT};

fn lex(s: &str) -> Vec<Token> {
    match MonGod::tokenize(s) {
        Ok(t) => t,
        Err(e) => panic!("lexing failed: {:?}", e),
    }
}

fn lex_err(s: &str) -> (ParseErrorT, usize) {
    match MonGod::tokenize(s) {
        Ok(t) => panic!("lexing succeeded: {:?}", t),
        Err(e) => (e.ty, e.cursor),
    }
}

fn literal(t: &Token) -> String {
    match &t.ty {
        TokenT::Literal(s) => s.clone(),
        other => panic!("not a literal: {:?}", other),
    }
}

fn number(t: &Token) -> String {
    match &t.ty {
        TokenT::Number(s) => s.clone(),
        other => panic!("not a number: {:?}", other),
    }
}

fn comparator(t: &Token) -> Comparator {
    match &t.ty {
        TokenT::Comparator(c) => *c,
        other => panic!("not a comparator: {:?}", other),
    }
}

#[test]
fn each_comparator_spelling_is_one_token() {
    let cases = [
        (">", Comparator::GT),
        (">=", Comparator::GTE),
        ("<", Comparator::LT),
        ("<=", Comparator::LTE),
        ("==", Comparator::EQ),
        ("!=", Comparator::NEQ),
    ];
    for (text, c) in cases {
        let t = lex(text);
        assert_eq!(t.len(), 1, "{}", text);
        assert_eq!(comparator(&t[0]), c);
        assert_eq!(t[0].idx, 0);
    }
}

#[test]
fn two_character_comparators_are_not_split() {
    let t = lex("a>=1");
    assert_eq!(t.len(), 3);
    assert_eq!(literal(&t[0]), "a");
    assert_eq!(comparator(&t[1]), Comparator::GTE);
    assert_eq!(t[1].idx, 1);
    assert_eq!(number(&t[2]), "1");
    assert_eq!(t[2].idx, 3);

    let t = lex("b<=c");
    assert_eq!(t.len(), 3);
    assert_eq!(comparator(&t[1]), Comparator::LTE);
    assert_eq!(literal(&t[2]), "c");
    assert_eq!(t[2].idx, 3);

    let t = lex("x > y");
    assert_eq!(comparator(&t[1]), Comparator::GT);
    assert_eq!(t[2].idx, 4);
}

#[test]
fn offsets_point_at_each_lexeme() {
    let t = lex("match((a == 1))");
    let offsets: Vec<usize> = t.iter().map(|x| x.idx).collect();
    assert_eq!(offsets, vec![0, 5, 6, 7, 9, 12, 13, 14]);
    assert!(matches!(t[0].ty, TokenT::Match));
    assert!(matches!(t[1].ty, TokenT::OpenParen));
    assert!(matches!(t[2].ty, TokenT::OpenParen));
    assert_eq!(literal(&t[3]), "a");
    assert_eq!(comparator(&t[4]), Comparator::EQ);
    assert_eq!(number(&t[5]), "1");
    assert!(matches!(t[6].ty, TokenT::CloseParen));
    assert!(matches!(t[7].ty, TokenT::CloseParen));
}

#[test]
fn whitespace_advances_offsets_by_one() {
    let t = lex("match(\n(a\t==\t1))");
    let offsets: Vec<usize> = t.iter().map(|x| x.idx).collect();
    assert_eq!(offsets, vec![0, 5, 7, 8, 10, 13, 14, 15]);
}

#[test]
fn operators_and_punctuation() {
    let t = lex("&|().");
    assert!(matches!(t[0].ty, TokenT::ConditionalOperator(ConditionalOperator::AND)));
    assert!(matches!(t[1].ty, TokenT::ConditionalOperator(ConditionalOperator::OR)));
    assert!(matches!(t[2].ty, TokenT::OpenParen));
    assert!(matches!(t[3].ty, TokenT::CloseParen));
    assert!(matches!(t[4].ty, TokenT::Dot));
    let offsets: Vec<usize> = t.iter().map(|x| x.idx).collect();
    assert_eq!(offsets, vec![0, 1, 2, 3, 4]);
}

#[test]
fn names_take_letters_digits_underscores_and_dots() {
    let t = lex("a.b_c1 _x9");
    assert_eq!(t.len(), 2);
    assert_eq!(literal(&t[0]), "a.b_c1");
    assert_eq!(literal(&t[1]), "_x9");
    assert_eq!(t[1].idx, 7);
}

#[test]
fn keyword_is_the_whole_lexeme() {
    let t = lex("match");
    assert_eq!(t.len(), 1);
    assert!(matches!(t[0].ty, TokenT::Match));
    let t = lex("matches");
    assert_eq!(literal(&t[0]), "matches");
    let t = lex("Match");
    assert_eq!(literal(&t[0]), "Match");
}

#[test]
fn names_continue_with_unicode_letters() {
    let t = lex("café == 1");
    assert_eq!(literal(&t[0]), "café");
    assert_eq!(comparator(&t[1]), Comparator::EQ);
    assert_eq!(t[1].idx, 5);
    assert_eq!(lex_err("a→b"), (ParseErrorT::UnexpectedCharacter, 1));
}

#[test]
fn numbers_keep_their_lexeme() {
    let t = lex("x 12.5 7 3.");
    assert_eq!(number(&t[1]), "12.5");
    assert_eq!(t[1].idx, 2);
    assert_eq!(number(&t[2]), "7");
    assert_eq!(number(&t[3]), "3.");
    let t = lex(".5");
    assert!(matches!(t[0].ty, TokenT::Dot));
    assert_eq!(number(&t[1]), "5");
}

#[test]
fn number_with_two_dots_is_malformed() {
    assert_eq!(lex_err("1.2.3"), (ParseErrorT::MalformedNumber, 0));
    assert_eq!(lex_err("match((a == 10..2))"), (ParseErrorT::MalformedNumber, 12));
}

#[test]
fn lone_equals_and_bang_are_refused() {
    assert_eq!(lex_err("match((a = 1))"), (ParseErrorT::UnexpectedCharacter, 9));
    assert_eq!(lex_err("a ! b"), (ParseErrorT::UnexpectedCharacter, 2));
    assert_eq!(lex_err("a ="), (ParseErrorT::UnexpectedCharacter, 2));
}

#[test]
fn unknown_character_is_refused() {
    assert_eq!(lex_err("#"), (ParseErrorT::UnexpectedCharacter, 0));
    assert_eq!(lex_err("match((a == \"b\"))"), (ParseErrorT::UnexpectedCharacter, 12));
}

#[test]
fn empty_source_has_no_tokens() {
    assert_eq!(lex("").len(), 0);
    assert_eq!(lex("  \n\t").len(), 0);
}

#[test]
fn token_kinds_compare_by_value() {
    let t = lex("a == 1 match");
    assert!(t[0].ty == TokenT::Literal("a".to_string()));
    assert!(t[0].ty != TokenT::Number("a".to_string()));
    assert!(t[1].ty == TokenT::Comparator(Comparator::EQ));
    assert!(t[1].ty != TokenT::Comparator(Comparator::NEQ));
    assert!(t[2].ty == TokenT::Number("1".to_string()));
    assert!(t[3].ty == TokenT::Match);
}
