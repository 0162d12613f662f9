use tagrepo::query::parser::parse;
use tagrepo::query::parser::Expr;

fn and(exprs: Vec<Expr>) -> Expr {
    Expr::And(exprs)
}

fn or(exprs: Vec<Expr>) -> Expr {
    Expr::Or(exprs)
}

fn not(expr: Expr) -> Expr {
    Expr::Not(Box::new(expr))
}

fn t(name: &str) -> Expr {
    Expr::Tag(name.to_string())
}

fn kv(key: &str, val: &str) -> Expr {
    Expr::KeyValue(key.to_string(), val.to_string())
}

fn assert_expr(input: &str, expected: Expr) {
    let expr = parse(input).unwrap();
    assert_eq!(expr, expected);
}

#[test]
fn just_and_1() {
    assert_expr("a b c", and(vec![t("a"), t("b"), t("c")]));
}

#[test]
fn just_and_2() {
    assert_expr("a & b c", and(vec![t("a"), t("&"), t("b"), t("c")]));
}

#[test]
fn just_and_3() {
    assert_expr("a &b & c", and(vec![t("a"), t("&b"), t("&"), t("c")]));
}

#[test]
fn just_and_4() {
    assert_expr("a&b&c", t("a&b&c"));
}

#[test]
fn just_or_1() {
    assert_expr("a | b | c", or(vec![t("a"), t("b"), t("c")]));
}

#[test]
fn just_or_2() {
    assert_expr("a | b | c", or(vec![t("a"), t("b"), t("c")]));
}

#[test]
fn just_or_3() {
    assert_expr("a | |b | c", or(vec![t("a"), t("|b"), t("c")]));
}

#[test]
fn just_or_4() {
    assert_expr("a|b | c", or(vec![t("a|b"), t("c")]));
}

#[test]
fn and_or_1() {
    assert_expr("a| b | c", or(vec![and(vec![t("a|"), t("b")]), t("c")]));
}

#[test]
fn and_or_2() {
    assert_expr(
        "a b | c | d e f",
        or(vec![and(vec![t("a"), t("b")]), t("c"), and(vec![t("d"), t("e"), t("f")])]),
    );
}

#[test]
fn parens_1() {
    assert_expr("(a b) | c", or(vec![and(vec![t("a"), t("b")]), t("c")]));
}

#[test]
fn parens_2() {
    assert_expr("(a b) c", and(vec![t("a"), t("b"), t("c")]));
}

#[test]
fn parens_3() {
    assert_expr("( a b ) c", and(vec![t("a"), t("b"), t("c")]));
}

#[test]
fn parens_4() {
    assert_expr("c ( a b )", and(vec![t("c"), t("a"), t("b")]));
}

#[test]
fn string_tags_1() {
    assert_expr(r#""c" ( 'a' "b" )"#, and(vec![t("c"), t("a"), t("b")]));
}

#[test]
fn string_tags_2() {
    assert_expr(r#""c ( 'a' b )""#, t("c ( 'a' b )"));
}

#[test]
fn string_tags_3() {
    assert_expr(r#" as "#, t("as"));
}

#[test]
fn not_1() {
    assert_expr(
        "a b -e in:1 | d e in:0",
        or(vec![
            and(vec![t("a"), t("b"), not(t("e")), kv("in", "1")]),
            and(vec![t("d"), t("e"), kv("in", "0")]),
        ]),
    );
}

#[test]
fn not_2() {
    assert_expr(
        "a -(b e in:1) | -d e in:0",
        or(vec![
            and(vec![t("a"), not(and(vec![t("b"), t("e"), kv("in", "1")]))]),
            and(vec![not(t("d")), t("e"), kv("in", "0")]),
        ]),
    );
}

#[test]
fn parser_common_1() {
    assert_expr(
        "kick drum (black_octopus_sounds | in:'black octopus' | in:'black-octopus')",
        and(vec![
            t("kick"),
            t("drum"),
            or(vec![
                t("black_octopus_sounds"),
                kv("in", "black octopus"),
                kv("in", "black-octopus"),
            ]),
        ]),
    )
}

#[test]
fn complex_1() {
    assert_expr(
        "a & b | c ( in:src/ | d &e ) & f",
        or(vec![
            and(vec![t("a"), t("&"), t("b")]),
            and(vec![
                t("c"),
                or(vec![kv("in", "src/"), and(vec![t("d"), t("&e")])]),
                t("&"),
                t("f"),
            ]),
        ]),
    );
}

#[test]
fn parse_rejects_stray_paren() {
    let err = parse("a b)").unwrap_err();
    match err {
        tagrepo::query::parser::ParseError::InputNotFullyConsumed(rem, partial) => {
            assert_eq!(rem, ")");
            assert_eq!(partial, and(vec![t("a"), t("b")]));
        },
        other => panic!("expected unconsumed input, got {:?}", other),
    }
}

#[test]
fn parse_rejects_unparsable_start() {
    let err = parse(")a").unwrap_err();
    match err {
        tagrepo::query::parser::ParseError::Syntax(rem) => {
            assert_eq!(rem, ")a");
        },
        other => panic!("expected a syntax error, got {:?}", other),
    }
}
