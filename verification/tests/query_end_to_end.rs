use tagrepo::query::parser::ParseError;
use tagrepo::query::to_sql;
use tagrepo::query::InvalidQueryError;

#[test]
fn mod_common_1() {
    assert_eq!(to_sql("a b c").unwrap(), r#"tq.tag_query = '(tags:"a" AND tags:"b" AND tags:"c")'"#);
}

#[test]
fn mod_common_2() {
    assert_eq!(
        to_sql("a -b in:samples/").unwrap(),
        r#"(i.id IN (SELECT id FROM tag_query('(tags:"a" NOT tags:"b")')) AND i.path LIKE 'samples/%' ESCAPE '\')"#,
    );
}

#[test]
fn mod_common_3() {
    assert_eq!(
        to_sql("   a    - b   in:samples/    ").unwrap(),
        r#"(i.id IN (SELECT id FROM tag_query('(tags:"a" NOT tags:"b")')) AND i.path LIKE 'samples/%' ESCAPE '\')"#,
    );
}

#[test]
fn empty() {
    assert_eq!(to_sql("").unwrap(), r#"true"#);
}

#[test]
fn blank_is_true() {
    assert_eq!(to_sql(" \t\n ").unwrap(), "true");
}

#[test]
fn all_negative_group_is_anchored() {
    assert_eq!(to_sql("-b -c").unwrap(), r#"tq.tag_query = '(meta_tags:"all" NOT tags:"b" NOT tags:"c")'"#);
}

#[test]
fn drum_collection_scenario() {
    assert_eq!(
        to_sql(r#"kick -snare in:'Drum Collection\'"#).unwrap(),
        r#"(i.id IN (SELECT id FROM tag_query('(tags:"kick" NOT tags:"snare")')) AND i.path LIKE 'Drum Collection/%' ESCAPE '\')"#,
    );
}

#[test]
fn stray_paren_is_rejected_whole() {
    let err = to_sql("a b )").unwrap_err();
    match err {
        InvalidQueryError::Parse(ParseError::InputNotFullyConsumed(rem, _)) => {
            assert_eq!(rem, ")");
        },
        other => panic!("expected unconsumed input, got {:?}", other),
    }
}

#[test]
fn unmatchable_input_is_a_syntax_error() {
    let err = to_sql("(a").unwrap_err();
    match err {
        InvalidQueryError::Parse(ParseError::Syntax(rem)) => {
            assert_eq!(rem, "(a");
        },
        other => panic!("expected a syntax error, got {:?}", other),
    }
}

#[test]
fn quoted_phrase_cannot_break_out() {
    assert_eq!(
        to_sql(r#"'it''s "fine"'"#).unwrap(),
        r#"tq.tag_query = 'tags:"it''s ""fine"""'"#,
    );
}
