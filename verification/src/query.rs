//! The tag-query compiler: parsing, clause generation and SQL rendering.
//!
//! The entry point is [`to_sql`]: it turns a query string such as
//! `kick drum -snare (clap | fx) in:Drums/` into a SQL boolean expression
//! over a full-text index and an items table, or reports why the query is
//! invalid.

pub mod convert;
pub mod parser;

use vstd::prelude::*;

verus! {

/// The characters `str::trim` removes: the Unicode white-space set.
pub open spec fn is_trim_space(c: char) -> bool {
    c == '\u{0009}' || c == '\u{000A}' || c == '\u{000B}' || c == '\u{000C}' || c == '\u{000D}'
        || c == ' ' || c == '\u{0085}' || c == '\u{00A0}' || c == '\u{1680}' || (('\u{2000}'
        as u32) <= (c as u32) && (c as u32) <= ('\u{200A}' as u32)) || c == '\u{2028}' || c
        == '\u{2029}' || c == '\u{202F}' || c == '\u{205F}' || c == '\u{3000}'
}

/// A string is blank when every character of it is white space.
pub open spec fn is_blank_text(s: Seq<char>) -> bool {
    forall|k: int| 0 <= k < s.len() ==> is_trim_space(#[trigger] s[k])
}

/// Whether every character of the string is white space.
fn is_blank(s: &str) -> (r: bool)
    ensures
        r == is_blank_text(s@),
{
    let n: usize = s.unicode_len();
    let mut i: usize = 0;
    while i < n
        invariant
            n == s@.len(),
            i <= n,
            forall|k: int| 0 <= k < i ==> is_trim_space(#[trigger] s@[k]),
        decreases n - i,
    {
        let c = s.get_char(i);
        let u = c as u32;
        let ws = c == '\u{0009}' || c == '\u{000A}' || c == '\u{000B}' || c == '\u{000C}' || c
            == '\u{000D}' || c == ' ' || c == '\u{0085}' || c == '\u{00A0}' || c == '\u{1680}'
            || (('\u{2000}' as u32) <= u && u <= ('\u{200A}' as u32)) || c == '\u{2028}' || c
            == '\u{2029}' || c == '\u{202F}' || c == '\u{205F}' || c == '\u{3000}';
        if !ws {
            return false;
        }
        i = i + 1;
    }
    true
}

/// What compiling a whole query string yields.
pub enum SqlOutcome {
    /// The SQL boolean expression for the query.
    Sql(Seq<char>),
    /// The grammar failed to match; carries the unmatched input.
    ParseSyntax(Seq<char>),
    /// Trailing characters were left unparsed; carries them and the partial
    /// tree.
    ParseUnconsumed(Seq<char>, parser::ExprModel),
    /// A `key:value` predicate with a key outside the whitelist.
    UnknownKey(Seq<char>),
}

/// Compiling a query string: a blank query filters nothing and compiles to
/// the always-true expression; anything else is parsed, compiled and
/// rendered from the root.
pub open spec fn spec_to_sql(q: Seq<char>) -> SqlOutcome {
    if is_blank_text(q) {
        SqlOutcome::Sql("true"@)
    } else {
        match parser::spec_parse(q) {
            parser::ParseOutcome::Parsed(e) => match convert::spec_generate(e) {
                Ok(c) => SqlOutcome::Sql(convert::spec_sql_render(c, true)),
                Err(k) => SqlOutcome::UnknownKey(k),
            },
            parser::ParseOutcome::Syntax(rem) => SqlOutcome::ParseSyntax(rem),
            parser::ParseOutcome::Unconsumed(rem, e) => SqlOutcome::ParseUnconsumed(rem, e),
        }
    }
}

/// The error `to_sql` reports for an invalid search query, wrapping the
/// parse or compile failure without exposing grammar internals.
#[derive(Debug, PartialEq, Eq)]
pub enum InvalidQueryError {
    Parse(parser::ParseError),
    Compile(convert::CompileError),
}

/// Compile a query string into a SQL boolean expression over the `items`
/// table and the `tag_query` full-text index, meant to be spliced into
/// `SELECT ... WHERE <result>`. A blank query compiles to `true`; a query
/// that does not parse, or that uses an unknown `key:value` key, is
/// rejected whole — no partial SQL is ever returned.
pub fn to_sql(query: &str) -> (r: Result<String, InvalidQueryError>)
    ensures
        match r {
            Ok(sql) => spec_to_sql(query@) == SqlOutcome::Sql(sql@),
            Err(err) => match err {
                InvalidQueryError::Parse(pe) => match pe {
                    parser::ParseError::Syntax(rem) => spec_to_sql(query@)
                        == SqlOutcome::ParseSyntax(rem@),
                    parser::ParseError::InputNotFullyConsumed(rem, e) => spec_to_sql(query@)
                        == SqlOutcome::ParseUnconsumed(rem@, e.model()),
                },
                InvalidQueryError::Compile(ce) => match ce {
                    convert::CompileError::UnknownKey(k) => spec_to_sql(query@)
                        == SqlOutcome::UnknownKey(k@),
                },
            },
        },
{
    if is_blank(query) {
        Ok(String::from_str("true"))
    } else {
        match parser::parse(query) {
            Ok(expr) => match convert::generate_clause(&expr) {
                Ok(clause) => Ok(clause.to_sql_clause()),
                Err(ce) => Err(InvalidQueryError::Compile(ce)),
            },
            Err(pe) => Err(InvalidQueryError::Parse(pe)),
        }
    }
}

} // verus!
