use mongorph::{ASTNode, Comparator, ConditionalOperator, MonGod, ParseErrorT};

fn cmp(c: &Comparator) -> &'static str {
    match c {
        Comparator::GTE => ">=",
        Comparator::GT => ">",
        Comparator::EQ => "==",
        Comparator::NEQ => "!=",
        Comparator::LT => "<",
        Comparator::LTE => "<=",
    }
}

fn show(n: &ASTNode) -> String {
    match n {
        ASTNode::Literal(s) => s.clone(),
        ASTNode::Number(s) => format!("#{}", s),
        ASTNode::Condition { op, left, right } => {
            format!("({} {} {})", show(left), cmp(op), show(right))
        }
        ASTNode::ConditionalOperator { op, conditions } => {
            let name = match op {
                ConditionalOperator::AND => "AND",
                ConditionalOperator::OR => "OR",
            };
            let parts: Vec<String> = conditions.iter().map(|c| show(c)).collect();
            format!("{}[{}]", name, parts.join(", "))
        }
        ASTNode::Match(inner) => format!("match{{{}}}", show(inner)),
    }
}

fn parse(s: &str) -> Vec<String> {
    let mut m = MonGod::new(s.to_string());
    match m.build() {
        Ok(()) => m.ast.iter().map(show).collect(),
        Err(e) => panic!("parse failed: {:?}", e),
    }
}

fn parse_err(s: &str) -> (ParseErrorT, usize) {
    let mut m = MonGod::new(s.to_string());
    match m.build() {
        Ok(()) => panic!("parse succeeded: {:?}", m.ast),
        Err(e) => (e.ty, e.cursor),
    }
}

#[test]
fn comparison_of_two_names() {
    assert_eq!(parse("match((branch == CSE))"), vec!["match{(branch == CSE)}"]);
    let mut m = MonGod::new("match((branch == CSE))".to_string());
    assert!(m.build().is_ok());
    assert_eq!(m.ast.len(), 1);
    match &m.ast[0] {
        ASTNode::Match(inner) => match &**inner {
            ASTNode::Condition { op, left, right } => {
                assert_eq!(*op, Comparator::EQ);
                assert!(matches!(&**left, ASTNode::Literal(s) if s == "branch"));
                assert!(matches!(&**right, ASTNode::Literal(s) if s == "CSE"));
            }
            other => panic!("not a condition: {:?}", other),
        },
        other => panic!("not a statement: {:?}", other),
    }
}

#[test]
fn comparison_with_a_number() {
    assert_eq!(parse("match((age >= 18))"), vec!["match{(age >= #18)}"]);
    assert_eq!(parse("match((score<2.5))"), vec!["match{(score < #2.5)}"]);
}

#[test]
fn every_comparator_parses() {
    for c in [">", ">=", "<", "<=", "==", "!="] {
        let src = format!("match((a {} b))", c);
        assert_eq!(parse(&src), vec![format!("match{{(a {} b)}}", c)]);
    }
}

#[test]
fn comparison_needs_its_own_brackets() {
    assert_eq!(parse_err("match(branch == CSE)"), (ParseErrorT::UnmatchedParenthesis, 13));
}

#[test]
fn parsing_twice_gives_equal_trees() {
    let src = "match(|((branch == ECE)(&((branch == CSE)(branch == AIML))))";
    assert_eq!(parse(src), parse(src));
    let mut m = MonGod::new(src.to_string());
    assert!(m.build().is_ok());
    let first: Vec<String> = m.ast.iter().map(show).collect();
    assert!(m.build().is_ok());
    let second: Vec<String> = m.ast.iter().map(show).collect();
    assert_eq!(first, second);
    assert_eq!(first.len(), 1);
}

#[test]
fn nested_groups_follow_the_brackets() {
    assert_eq!(
        parse("match(&( &( (a==1) (b==2) ) (c==3) ))"),
        vec!["match{AND[AND[(a == #1), (b == #2)], (c == #3)]}"]
    );
    assert_eq!(parse("match(&(|(&(x))))"), vec!["match{AND[OR[AND[x]]]}"]);
}

#[test]
fn bracket_before_a_nested_group_only_groups() {
    assert_eq!(
        parse("match(|((branch == ECE)(&((branch == CSE)(branch == AIML))))"),
        vec!["match{OR[(branch == ECE), AND[(branch == CSE), (branch == AIML)]]}"]
    );
}

#[test]
fn comparison_operands_may_be_groups() {
    assert_eq!(parse("match((&(a) == b))"), vec!["match{(AND[a] == b)}"]);
    assert_eq!(parse("match(((a == b) != c))"), vec!["match{((a == b) != c)}"]);
}

#[test]
fn unclosed_statement_fails() {
    assert_eq!(parse_err("match(a == 1"), (ParseErrorT::UnmatchedParenthesis, 8));
    assert_eq!(parse_err("match((a == 1)"), (ParseErrorT::EndOfTokenStream, 14));
    assert_eq!(parse_err("match((a == 1"), (ParseErrorT::EndOfTokenStream, 13));
}

#[test]
fn bare_comparison_at_top_level_fails() {
    assert_eq!(parse_err("branch == CSE"), (ParseErrorT::Unexpected, 0));
    assert_eq!(parse_err("match((a == b)) )"), (ParseErrorT::Unexpected, 16));
}

#[test]
fn missing_comparator() {
    assert_eq!(parse_err("match((a b))"), (ParseErrorT::MissingComparator, 9));
    assert_eq!(parse_err("match((a"), (ParseErrorT::EndOfTokenStream, 8));
}

#[test]
fn missing_open_parenthesis() {
    assert_eq!(parse_err("match a"), (ParseErrorT::MissingOpenParen, 0));
    assert_eq!(parse_err("match"), (ParseErrorT::MissingOpenParen, 0));
    assert_eq!(parse_err("match(& a)"), (ParseErrorT::MissingOpenParen, 8));
    assert_eq!(parse_err("match(&"), (ParseErrorT::EndOfTokenStream, 7));
}

#[test]
fn group_member_followed_by_other_token() {
    assert_eq!(parse_err("match(&((a==1)b))"), (ParseErrorT::Unexpected, 14));
    assert_eq!(parse_err("match(&((a==1)"), (ParseErrorT::EndOfTokenStream, 14));
}

#[test]
fn condition_cannot_start_with_other_tokens() {
    assert_eq!(parse_err("match())"), (ParseErrorT::Unexpected, 6));
    assert_eq!(parse_err("match(("), (ParseErrorT::EndOfTokenStream, 7));
    assert_eq!(parse_err("match((a == ))"), (ParseErrorT::Unexpected, 12));
}

#[test]
fn lexing_failure_stops_the_parse() {
    assert_eq!(parse_err("match((a == 1.2.3))"), (ParseErrorT::MalformedNumber, 12));
}

#[test]
fn several_statements_in_order() {
    assert_eq!(
        parse("match((a==b)) match((c!=1))"),
        vec!["match{(a == b)}", "match{(c != #1)}"]
    );
}

#[test]
fn empty_program() {
    assert_eq!(parse(""), Vec::<String>::new());
    assert_eq!(parse(" \n "), Vec::<String>::new());
}

#[test]
fn failed_parse_keeps_previous_statements() {
    let mut m = MonGod::new("match((a == b))".to_string());
    assert!(m.build().is_ok());
    let bad = MonGod::tokenize("branch == CSE").unwrap();
    let e = m.parse_tokens(&bad).unwrap_err();
    assert_eq!(e.ty, ParseErrorT::Unexpected);
    assert_eq!(e.cursor, 0);
    let kept: Vec<String> = m.ast.iter().map(show).collect();
    assert_eq!(kept, vec!["match{(a == b)}"]);
}

#[test]
fn parse_tokens_replaces_statements() {
    let mut m = MonGod::new("match((a == b)) match((c == d))".to_string());
    assert!(m.build().is_ok());
    let other = MonGod::tokenize("match((x > 2))").unwrap();
    assert!(m.parse_tokens(&other).is_ok());
    let now: Vec<String> = m.ast.iter().map(show).collect();
    assert_eq!(now, vec!["match{(x > #2)}"]);
}

#[test]
fn parse_functions_report_the_next_position() {
    let t = MonGod::tokenize("(a == b) c").unwrap();
    let (node, next) = MonGod::parse_condition(&t, 0, 10).unwrap();
    assert_eq!(show(&node), "(a == b)");
    assert_eq!(next, 5);
    let t = MonGod::tokenize("&((a == 1)(b == 2)) x").unwrap();
    let (node, next) = MonGod::parse_logical_op(&t, 0, 21).unwrap();
    assert_eq!(show(&node), "AND[(a == #1), (b == #2)]");
    assert_eq!(next, 13);
    let t = MonGod::tokenize("&(a b)").unwrap();
    let e = MonGod::parse_logical_op(&t, 0, 6).unwrap_err();
    assert_eq!((e.ty, e.cursor), (ParseErrorT::Unexpected, 4));
    let t = MonGod::tokenize("match((a < b))").unwrap();
    let (node, next) = MonGod::parse_match(&t, 0, 14).unwrap();
    assert_eq!(show(&node), "match{(a < b)}");
    assert_eq!(next, 8);
    let e = MonGod::parse_logical_op(&t, 0, 14).unwrap_err();
    assert_eq!((e.ty, e.cursor), (ParseErrorT::Unexpected, 0));
}

#[test]
fn inner_sees_through_a_statement() {
    let mut m = MonGod::new("match((a == b))".to_string());
    assert!(m.build().is_ok());
    assert_eq!(show(m.ast[0].inner()), "(a == b)");
    let lit = ASTNode::Literal("x".to_string());
    assert_eq!(show(lit.inner()), "x");
}

fn lit(s: &str) -> Box<ASTNode> {
    Box::new(ASTNode::Literal(s.to_string()))
}

fn num(s: &str) -> Box<ASTNode> {
    Box::new(ASTNode::Number(s.to_string()))
}

fn eq(l: Box<ASTNode>, r: Box<ASTNode>) -> Box<ASTNode> {
    Box::new(ASTNode::Condition { op: Comparator::EQ, left: l, right: r })
}

#[test]
fn equal_sources_give_equal_trees() {
    let src = "match(&( &( (a==1) (b==2) ) (c==3) )) match((x != y))";
    let mut a = MonGod::new(src.to_string());
    let mut b = MonGod::new(src.to_string());
    assert!(a.build().is_ok());
    assert!(b.build().is_ok());
    assert!(a.ast == b.ast);
    let mut c = MonGod::new("match(&( &( (a==1) (b==2) ) (c==4) )) match((x != y))".to_string());
    assert!(c.build().is_ok());
    assert!(a.ast != c.ast);
}

#[test]
fn nested_group_tree_is_exact() {
    let mut m = MonGod::new("match(&( &( (a==1) (b==2) ) (c==3) ))".to_string());
    assert!(m.build().is_ok());
    let inner = ASTNode::ConditionalOperator {
        op: ConditionalOperator::AND,
        conditions: vec![eq(lit("a"), num("1")), eq(lit("b"), num("2"))],
    };
    let outer = ASTNode::ConditionalOperator {
        op: ConditionalOperator::AND,
        conditions: vec![Box::new(inner), eq(lit("c"), num("3"))],
    };
    assert!(m.ast == vec![ASTNode::Match(Box::new(outer))]);
}

#[test]
fn tree_equality_tells_kinds_apart() {
    assert!(*lit("1") != *num("1"));
    assert!(*lit("a") == *lit("a"));
    let one = ASTNode::ConditionalOperator { op: ConditionalOperator::OR, conditions: vec![lit("a")] };
    let two = ASTNode::ConditionalOperator {
        op: ConditionalOperator::OR,
        conditions: vec![lit("a"), lit("a")],
    };
    let and = ASTNode::ConditionalOperator { op: ConditionalOperator::AND, conditions: vec![lit("a")] };
    assert!(one != two);
    assert!(one != and);
}
