use tagrepo::query::convert::generate_clause;
use tagrepo::query::convert::CompileError;
use tagrepo::query::convert::FTSPart;
use tagrepo::query::convert::WhereClause;
use tagrepo::query::parser::parse;
use tagrepo::query::parser::Expr;

fn fts(part: FTSPart) -> WhereClause {
    WhereClause::FTS(part)
}

fn indir(path: &str) -> WhereClause {
    WhereClause::InDir(path.to_string())
}

fn and(clauses: Vec<WhereClause>) -> WhereClause {
    WhereClause::And(clauses)
}

fn or(clauses: Vec<WhereClause>) -> WhereClause {
    WhereClause::Or(clauses)
}

fn not(clause: WhereClause) -> WhereClause {
    WhereClause::Not(Box::new(clause))
}

fn ftsphrase(name: &str) -> FTSPart {
    FTSPart::Phrase(name.to_string())
}

fn ftsand(clauses: Vec<FTSPart>) -> FTSPart {
    FTSPart::And(clauses)
}

fn ftsor(clauses: Vec<FTSPart>) -> FTSPart {
    FTSPart::Or(clauses)
}

fn ftsnot(clause: FTSPart) -> FTSPart {
    FTSPart::Not(Box::new(clause))
}

fn assert_clause(query: &str, expected: WhereClause) {
    let expr = parse(query).unwrap();
    let clause = generate_clause(&expr).unwrap();
    assert_eq!(clause, expected);
}

#[test]
fn fts_1() {
    assert_clause("a b c", fts(ftsand(vec![ftsphrase("a"), ftsphrase("b"), ftsphrase("c")])));
}

#[test]
fn fts_2() {
    assert_clause(
        "a | b -c",
        fts(ftsor(vec![ftsphrase("a"), ftsand(vec![ftsphrase("b"), ftsnot(ftsphrase("c"))])])),
    );
}

#[test]
fn fts_3() {
    assert_clause(
        "(a | b) c",
        fts(ftsand(vec![ftsor(vec![ftsphrase("a"), ftsphrase("b")]), ftsphrase("c")])),
    );
}

#[test]
fn fts_4() {
    assert_clause(
        "-(a | b c) d | e",
        fts(ftsor(vec![
            ftsand(vec![
                ftsnot(ftsor(vec![
                    ftsphrase("a"),
                    ftsand(vec![ftsphrase("b"), ftsphrase("c")]),
                ])),
                ftsphrase("d"),
            ]),
            ftsphrase("e"),
        ])),
    );
}

#[test]
fn fts_5() {
    assert_clause("a", fts(ftsphrase("a")));
}

#[test]
fn inpath_1() {
    assert_clause("in:a", indir("a"));
}

#[test]
fn inpath_2() {
    assert_clause("in:a in:b in:c", and(vec![indir("a"), indir("b"), indir("c")]));
}

#[test]
fn inpath_3() {
    assert_clause("in:a | in:b in:c", or(vec![indir("a"), and(vec![indir("b"), indir("c")])]));
}

#[test]
fn inpath_4() {
    assert_clause("(in:a | in:b) in:c", and(vec![or(vec![indir("a"), indir("b")]), indir("c")]));
}

#[test]
fn inpath_5() {
    assert_clause(
        "-(in:a | -in:b) in:c",
        and(vec![not(or(vec![indir("a"), not(indir("b"))])), indir("c")]),
    );
}

#[test]
fn inpath_6() {
    assert_clause("(((in:a in:b))) in:c", and(vec![indir("a"), indir("b"), indir("c")]));
}

#[test]
fn convert_common_1() {
    assert_clause(
        "a b in:c",
        and(vec![fts(ftsand(vec![ftsphrase("a"), ftsphrase("b")])), indir("c")]),
    );
}

#[test]
fn convert_common_2() {
    assert_clause(
        "a | b -in:c",
        or(vec![fts(ftsphrase("a")), and(vec![fts(ftsphrase("b")), not(indir("c"))])]),
    );
}

#[test]
fn convert_common_3() {
    assert_clause(
        "a -(b e in:1) | -d e in:0",
        or(vec![
            and(vec![
                fts(ftsphrase("a")),
                not(and(vec![fts(ftsand(vec![ftsphrase("b"), ftsphrase("e")])), indir("1")])),
            ]),
            and(vec![
                fts(ftsand(vec![ftsnot(ftsphrase("d")), ftsphrase("e")])),
                indir("0"),
            ]),
        ]),
    );
}

#[test]
fn other_keys_map_to_their_clauses() {
    let cases: Vec<(&str, fn(String) -> WhereClause)> = vec![
        ("ext", WhereClause::HasExt),
        ("inpath", WhereClause::InPath),
        ("children", WhereClause::ChildrenOf),
        ("leading", WhereClause::LeadingPath),
    ];
    for (key, make) in cases {
        let expr = Expr::KeyValue(key.to_string(), "v".to_string());
        assert_eq!(generate_clause(&expr).unwrap(), make("v".to_string()));
    }
}

#[test]
fn unknown_key_is_reported() {
    let expr = Expr::KeyValue("size".to_string(), "3".to_string());
    let err = generate_clause(&expr).unwrap_err();
    assert_eq!(err, CompileError::UnknownKey("size".to_string()));
}

#[test]
fn combine_and_splices_one_level() {
    let a = FTSPart::Phrase("a".to_string());
    let b = FTSPart::Phrase("b".to_string());
    let c = FTSPart::Phrase("c".to_string());
    let combined = FTSPart::combine_and(vec![FTSPart::And(vec![a, b]), c]);
    assert_eq!(
        combined,
        FTSPart::And(vec![
            FTSPart::Phrase("a".to_string()),
            FTSPart::Phrase("b".to_string()),
            FTSPart::Phrase("c".to_string()),
        ]),
    );
}

#[test]
fn combine_or_unwraps_a_single_part() {
    let combined = FTSPart::combine_or(vec![FTSPart::Phrase("only".to_string())]);
    assert_eq!(combined, FTSPart::Phrase("only".to_string()));
}
