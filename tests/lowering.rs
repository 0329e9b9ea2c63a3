use mongorph::{LowerError, MonGod};

fn lower(s: &str) -> Result<String, LowerError> {
    let mut m = MonGod::new(s.to_string());
    m.build().expect("parse");
    m.ast2mql()
}

#[test]
fn single_equality_becomes_one_clause() {
    assert_eq!(
        lower("match((branch == CSE))").unwrap(),
        "db.collection.aggregate{[{ $match: { branch: { $eq: CSE } } },]}"
    );
}

#[test]
fn each_comparator_has_its_operator() {
    let cases = [
        (">=", "$gte"),
        (">", "$gt"),
        ("==", "$eq"),
        ("!=", "$neq"),
        ("<", "$lt"),
        ("<=", "$lte"),
    ];
    for (c, sym) in cases {
        let q = lower(&format!("match((f {} v))", c)).unwrap();
        assert_eq!(q, format!("db.collection.aggregate{{[{{ $match: {{ f: {{ {}: v }} }} }},]}}", sym));
    }
}

#[test]
fn clauses_follow_statement_order() {
    assert_eq!(
        lower("match((a==b)) match((c!=d))").unwrap(),
        "db.collection.aggregate{[{ $match: { a: { $eq: b } } },{ $match: { c: { $neq: d } } },]}"
    );
}

#[test]
fn empty_program_lowers_to_empty_frame() {
    assert_eq!(lower("").unwrap(), "db.collection.aggregate{[]}");
}

#[test]
fn group_statement_is_refused() {
    assert_eq!(lower("match(&((a==b)))"), Err(LowerError { index: 0 }));
}

#[test]
fn number_operand_is_refused_at_its_position() {
    assert_eq!(lower("match((a==b)) match((x > 1))"), Err(LowerError { index: 1 }));
    assert_eq!(lower("match(((a==b) == c))"), Err(LowerError { index: 0 }));
}
