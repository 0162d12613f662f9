use tagrepo::query::convert::generate_clause;
use tagrepo::query::convert::FTSPart;
use tagrepo::query::convert::WhereClause;
use tagrepo::query::parser::parse;

fn assert_sql(query: &str, expected: &str) {
    let expr = parse(query).unwrap();
    let clause = generate_clause(&expr).unwrap();
    let sql_clause = clause.to_sql_subclause(true);
    assert_eq!(sql_clause, expected);
}

#[test]
fn convert_fts_1() {
    assert_sql("a b", r#"tq.tag_query = '(tags:"a" AND tags:"b")'"#)
}

#[test]
fn convert_fts_2() {
    assert_sql("-(a b)", r#"tq.tag_query = '(meta_tags:"all" NOT (tags:"a" AND tags:"b"))'"#)
}

#[test]
fn convert_fts_3() {
    assert_sql("'mc''donalds' b", r#"tq.tag_query = '(tags:"mc''donalds" AND tags:"b")'"#)
}

#[test]
fn indir_1() {
    assert_sql("in:asd", r#"i.path LIKE 'asd/%' ESCAPE '\'"#)
}

#[test]
fn indir_2() {
    assert_sql(r#"in:'c:\program files\'"#, r#"i.path LIKE 'c:/program files/%' ESCAPE '\'"#)
}

#[test]
fn indir_3() {
    assert_sql(
        r#"in:'path''/wi''th/q""uotes/'"#,
        r#"i.path LIKE 'path''/wi''th/q""uotes/%' ESCAPE '\'"#,
    )
}

#[test]
fn indir_4() {
    assert_sql(r#"-in:asd"#, r#"NOT (i.path LIKE 'asd/%' ESCAPE '\')"#)
}

#[test]
fn indir_5() {
    assert_sql(
        r#"in:a -in:b"#,
        r#"(i.path LIKE 'a/%' ESCAPE '\' AND NOT (i.path LIKE 'b/%' ESCAPE '\'))"#,
    )
}

#[test]
fn to_sql_common_1() {
    assert_sql(
        r#"kick -snare in:'Drum Collection\'"#,
        r#"(i.id IN (SELECT id FROM tag_query('(tags:"kick" NOT tags:"snare")')) AND i.path LIKE 'Drum Collection/%' ESCAPE '\')"#,
    )
}

#[test]
fn has_ext_sql() {
    let clause = WhereClause::HasExt("wav".to_string());
    assert_eq!(clause.to_sql_subclause(false), r#"extname(i.path) LIKE 'wav' ESCAPE '\'"#);
}

#[test]
fn in_path_sql() {
    let clause = WhereClause::InPath("abc".to_string());
    assert_eq!(clause.to_sql_subclause(false), r#"i.path LIKE '%abc%' ESCAPE '\'"#);
}

#[test]
fn children_of_sql() {
    let clause = WhereClause::ChildrenOf("a".to_string());
    assert_eq!(
        clause.to_sql_subclause(false),
        r#"i.path LIKE 'a/%' ESCAPE '\' AND NOT i.path LIKE 'a/%/%' ESCAPE '\'"#,
    );
}

#[test]
fn leading_path_sql() {
    let clause = WhereClause::LeadingPath("a".to_string());
    assert_eq!(clause.to_sql_subclause(false), r#"i.path LIKE 'a%' ESCAPE '\'"#);
}

#[test]
fn negated_fts_clause_stays_one_lookup() {
    let clause = WhereClause::Not(Box::new(WhereClause::FTS(FTSPart::Phrase("a".to_string()))));
    assert_eq!(
        clause.to_sql_subclause(false),
        r#"i.id IN ( SELECT id FROM tag_query('(meta_tags:"all" NOT tags:"a")') )"#,
    );
    assert_eq!(
        clause.to_sql_subclause(true),
        r#"tq.tag_query = '(meta_tags:"all" NOT tags:"a")'"#,
    );
}
