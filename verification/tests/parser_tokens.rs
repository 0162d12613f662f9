use tagrepo::query::parser::p_key_val;
use tagrepo::query::parser::p_literal;
use tagrepo::query::parser::p_string;
use tagrepo::query::parser::p_tag;
use tagrepo::query::parser::Expr;

fn chars(text: &str) -> Vec<char> {
    text.chars().collect()
}

#[test]
fn test_string() {
    fn assert_parse(text: &str, expected: &str) {
        let s = chars(text);
        let (content, _) = p_string(&s, 0).unwrap();
        assert_eq!(content, expected);
    }
    fn assert_parse_fails(text: &str) {
        let s = chars(text);
        assert!(p_string(&s, 0).is_none());
    }

    // double quoted
    assert_parse(r#""aaa""sss""#, r#"aaa"sss"#);
    assert_parse(r#""aaaa' ' ''bbbb""cccc""#, r#"aaaa' ' ''bbbb"cccc"#);
    assert_parse(r#""aaa""""#, r#"aaa""#);
    assert_parse(r#""""""#, r#"""#);

    // single quoted
    assert_parse(r#"'aaa''sss'"#, r#"aaa'sss"#);
    assert_parse(r#"'aaaa' ' ''bbbb""cccc""#, r#"aaaa"#);
    assert_parse(r#"'aaa""''"'"#, r#"aaa""'""#);

    // fail cases
    assert_parse_fails(r#""aaa'"#);
}

#[test]
fn test_key_value() {
    fn assert_parse(text: &str, expected: (&str, &str)) {
        let s = chars(text);
        let (e, _) = p_key_val(&s, 0).unwrap();
        if let Expr::KeyValue(key, val) = e {
            assert_eq!(expected.0, key);
            assert_eq!(expected.1, val);
        } else {
            unreachable!();
        }
    }
    fn assert_parse_fails(text: &str) {
        let s = chars(text);
        assert!(p_key_val(&s, 0).is_none());
    }

    assert_parse(r#"in:src/"#, ("in", "src/"));
    assert_parse(r#"in:"D:/Audio Samples/""#, ("in", "D:/Audio Samples/"));
    assert_parse(
        r#"in:"quote in path for some reason""""#,
        ("in", "quote in path for some reason\""),
    );
    assert_parse_fails(r#""spaced key":hello"#);
}

#[test]
fn test_literal() {
    fn assert_parse(text: &str, expected: &str) {
        let s = chars(text);
        let (name, _) = p_literal(&s, 0).unwrap();
        assert_eq!(name, expected);
    }
    fn assert_parse_fails(text: &str) {
        let s = chars(text);
        assert!(p_literal(&s, 0).is_none());
    }
    assert_parse("a", "a");
    assert_parse("abc", "abc");
    assert_parse("a:sd qwe", "a:sd");
    assert_parse(":sd qwe", ":sd");
    assert_parse("m'lady", "m'lady");
    assert_parse_fails("'mlady");
}

#[test]
fn test_tag() {
    fn assert_parse(text: &str, expected: &str) {
        let s = chars(text);
        let (e, _) = p_tag(&s, 0).unwrap();
        if let Expr::Tag(name) = e {
            assert_eq!(name, expected);
        } else {
            unreachable!();
        }
    }
    fn assert_parse_fails(text: &str) {
        let s = chars(text);
        assert!(p_tag(&s, 0).is_none());
    }
    assert_parse("a", "a");
    assert_parse("abc", "abc");
    assert_parse("mc'donalds", "mc'donalds");
    assert_parse("'tag with spaces'", "tag with spaces");
    assert_parse_fails("'mlady");
}
