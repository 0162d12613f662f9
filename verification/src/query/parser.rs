//! Parser for the tag-query language.
//!
//! Grammar, lowest precedence first:
//!
//! ```text
//! query       = ws* or_terms ws*                    (must consume all input)
//! or_terms    = and_terms (ws+ "|" ws+ and_terms)*  (flattened into Or)
//! and_terms   = factor (ws* factor)*                (flattened into And)
//! factor      = "-" ws* unsigned_factor | unsigned_factor
//! unsigned_factor = parens | key_val | tag
//! parens      = "(" ws* or_terms ws* ")"
//! key_val     = "in" ":" (string | literal)
//! tag         = string | literal
//! string      = quoted with ' or ", the quote doubled to stand for itself
//! literal     = one char outside {", ', space, -, (, )} then chars outside
//!               {space, (, )}; the whole literal must not be exactly "|"
//! ```

use vstd::prelude::*;

use crate::text::chars_range_to_string;
use crate::text::push_char;

verus! {

/// Abstract syntax of a parsed query.
#[derive(Debug, PartialEq, Eq)]
pub enum Expr {
    /// Conjunction; never empty, never directly contains another `And`.
    And(Vec<Expr>),
    /// Disjunction; never empty, never directly contains another `Or`.
    Or(Vec<Expr>),
    /// Negation of one sub-expression.
    Not(Box<Expr>),
    /// A bare term matched against an item's tags.
    Tag(String),
    /// A structural predicate `key:value`.
    KeyValue(String, String),
}

/// The mathematical shape of an `Expr`: the same tree over sequences.
pub enum ExprModel {
    And(Seq<ExprModel>),
    Or(Seq<ExprModel>),
    Not(Box<ExprModel>),
    Tag(Seq<char>),
    KeyValue(Seq<char>, Seq<char>),
}

impl Expr {
    /// The mathematical value of this expression tree.
    pub open spec fn model(self) -> ExprModel
        decreases self,
    {
        match self {
            Expr::And(children) => ExprModel::And(models(children@)),
            Expr::Or(children) => ExprModel::Or(models(children@)),
            Expr::Not(child) => ExprModel::Not(Box::new((*child).model())),
            Expr::Tag(name) => ExprModel::Tag(name@),
            Expr::KeyValue(key, value) => ExprModel::KeyValue(key@, value@),
        }
    }
}

/// The mathematical values of a sequence of expression trees, in order.
pub open spec fn models(exprs: Seq<Expr>) -> Seq<ExprModel>
    decreases exprs,
{
    if exprs.len() == 0 {
        Seq::empty()
    } else {
        seq![exprs[0].model()] + models(exprs.skip(1))
    }
}

/// The whitespace the grammar skips between tokens.
pub open spec fn is_space(c: char) -> bool {
    c == ' ' || c == '\t'
}

/// Position after skipping any run of whitespace starting at `i`.
pub open spec fn spec_space0(s: Seq<char>, i: int) -> int
    decreases s.len() - i,
{
    if 0 <= i < s.len() && is_space(s[i]) {
        spec_space0(s, i + 1)
    } else {
        i
    }
}

pub proof fn lemma_space0_bounds(s: Seq<char>, i: int)
    requires
        0 <= i <= s.len(),
    ensures
        i <= spec_space0(s, i) <= s.len(),
        forall|k: int| i <= k < spec_space0(s, i) ==> is_space(#[trigger] s[k]),
        spec_space0(s, i) < s.len() ==> !is_space(s[spec_space0(s, i)]),
    decreases s.len() - i,
{
    if 0 <= i < s.len() && is_space(s[i]) {
        lemma_space0_bounds(s, i + 1);
    }
}

/// A character allowed to start a literal.
pub open spec fn lit_first_ok(c: char) -> bool {
    c != '"' && c != '\'' && c != ' ' && c != '-' && c != '(' && c != ')'
}

/// A character allowed inside a literal after the first.
pub open spec fn lit_rest_ok(c: char) -> bool {
    c != ' ' && c != '(' && c != ')'
}

/// End position of a literal's interior run starting at `i`.
pub open spec fn spec_lit_end(s: Seq<char>, i: int) -> int
    decreases s.len() - i,
{
    if 0 <= i < s.len() && lit_rest_ok(s[i]) {
        spec_lit_end(s, i + 1)
    } else {
        i
    }
}

pub proof fn lemma_lit_end_bounds(s: Seq<char>, i: int)
    requires
        0 <= i <= s.len(),
    ensures
        i <= spec_lit_end(s, i) <= s.len(),
    decreases s.len() - i,
{
    if 0 <= i < s.len() && lit_rest_ok(s[i]) {
        lemma_lit_end_bounds(s, i + 1);
    }
}

/// A literal token: its text and the position after it, or `None` when no
/// literal starts at `i`. A literal that spells an operator (`|`, `(`, `)`)
/// is rejected.
pub open spec fn spec_literal(s: Seq<char>, i: int) -> Option<(Seq<char>, int)> {
    if 0 <= i < s.len() && lit_first_ok(s[i]) {
        let j = spec_lit_end(s, i + 1);
        if i < j <= s.len() {
            let name = s.subrange(i, j);
            if name == seq!['|'] || name == seq!['('] || name == seq![')'] {
                None
            } else {
                Some((name, j))
            }
        } else {
            None
        }
    } else {
        None
    }
}

/// The interior of a quoted string from `i` on: the content read (a doubled
/// quote stands for one quote) and the position after the closing quote, or
/// `None` when the string never closes.
pub open spec fn spec_string_body(s: Seq<char>, i: int, q: char) -> Option<(Seq<char>, int)>
    decreases s.len() - i,
{
    if i < 0 || i >= s.len() {
        None
    } else if s[i] != q {
        match spec_string_body(s, i + 1, q) {
            Some(cr) => Some((seq![s[i]] + cr.0, cr.1)),
            None => None,
        }
    } else if i + 1 < s.len() && s[i + 1] == q {
        match spec_string_body(s, i + 2, q) {
            Some(cr) => Some((seq![q] + cr.0, cr.1)),
            None => None,
        }
    } else {
        Some((Seq::empty(), i + 1))
    }
}

/// A quoted string token starting at `i`: its unescaped content and the
/// position after the closing quote.
pub open spec fn spec_string(s: Seq<char>, i: int) -> Option<(Seq<char>, int)> {
    if 0 <= i < s.len() && (s[i] == '\'' || s[i] == '"') {
        spec_string_body(s, i + 1, s[i])
    } else {
        None
    }
}

/// A string if one starts here, otherwise a literal.
pub open spec fn spec_string_or_literal(s: Seq<char>, i: int) -> Option<(Seq<char>, int)> {
    match spec_string(s, i) {
        Some(r) => Some(r),
        None => spec_literal(s, i),
    }
}

/// A tag term.
pub open spec fn spec_tag(s: Seq<char>, i: int) -> Option<(ExprModel, int)> {
    match spec_string_or_literal(s, i) {
        Some((name, j)) => Some((ExprModel::Tag(name), j)),
        None => None,
    }
}

/// A `key:value` term; the only key the grammar accepts is `in`.
pub open spec fn spec_key_val(s: Seq<char>, i: int) -> Option<(ExprModel, int)> {
    if 0 <= i && i + 3 <= s.len() && s[i] == 'i' && s[i + 1] == 'n' && s[i + 2] == ':' {
        match spec_string_or_literal(s, i + 3) {
            Some((value, j)) => Some((ExprModel::KeyValue(seq!['i', 'n'], value), j)),
            None => None,
        }
    } else {
        None
    }
}

/// A parenthesised group `( ws* or_terms ws* )`.
pub open spec fn spec_parens(s: Seq<char>, i: int) -> Option<(ExprModel, int)>
    decreases s.len() - i, 0int,
{
    if 0 <= i < s.len() && s[i] == '(' {
        let j = spec_space0(s, i + 1);
        if i < j <= s.len() {
            match spec_or_terms(s, j) {
                Some((e, k)) => {
                    let m = spec_space0(s, k);
                    if 0 <= m < s.len() && s[m] == ')' {
                        Some((e, m + 1))
                    } else {
                        None
                    }
                },
                None => None,
            }
        } else {
            None
        }
    } else {
        None
    }
}

/// A single positive term: a group, a key-value, or a tag, tried in that
/// order.
pub open spec fn spec_unsigned_factor(s: Seq<char>, i: int) -> Option<(ExprModel, int)>
    decreases s.len() - i, 1int,
{
    match spec_parens(s, i) {
        Some(r) => Some(r),
        None => match spec_key_val(s, i) {
            Some(r) => Some(r),
            None => spec_tag(s, i),
        },
    }
}

/// A term with an optional leading negation `- ws*`.
pub open spec fn spec_factor(s: Seq<char>, i: int) -> Option<(ExprModel, int)>
    decreases s.len() - i, 2int,
{
    if 0 <= i < s.len() && s[i] == '-' {
        let j = spec_space0(s, i + 1);
        if i < j <= s.len() {
            match spec_unsigned_factor(s, j) {
                Some((e, k)) => Some((ExprModel::Not(Box::new(e)), k)),
                None => spec_unsigned_factor(s, i),
            }
        } else {
            spec_unsigned_factor(s, i)
        }
    } else {
        spec_unsigned_factor(s, i)
    }
}

/// Zero or more further `ws* factor` terms: the terms collected and the
/// position after the last one (further input is left untouched, including
/// the whitespace before the first term that failed to parse).
pub open spec fn spec_and_fold(s: Seq<char>, i: int) -> (Seq<ExprModel>, int)
    decreases s.len() - i, 3int,
{
    if 0 <= i <= s.len() {
        let j = spec_space0(s, i);
        if i <= j <= s.len() {
            match spec_factor(s, j) {
                Some((e, k)) => if i < k <= s.len() {
                    let folded = spec_and_fold(s, k);
                    (seq![e] + folded.0, folded.1)
                } else {
                    (Seq::empty(), i)
                },
                None => (Seq::empty(), i),
            }
        } else {
            (Seq::empty(), i)
        }
    } else {
        (Seq::empty(), i)
    }
}

/// The immediate children an expression contributes when spliced into an
/// `And` group: its own children for an `And`, itself otherwise.
pub open spec fn and_splice(e: ExprModel) -> Seq<ExprModel> {
    match e {
        ExprModel::And(children) => children,
        _ => seq![e],
    }
}

/// Single-level `And` flattening of a collected term list.
pub open spec fn flatten_and(terms: Seq<ExprModel>) -> Seq<ExprModel>
    decreases terms.len(),
{
    if terms.len() == 0 {
        Seq::empty()
    } else {
        and_splice(terms[0]) + flatten_and(terms.skip(1))
    }
}

/// The immediate children an expression contributes when spliced into an
/// `Or` group.
pub open spec fn or_splice(e: ExprModel) -> Seq<ExprModel> {
    match e {
        ExprModel::Or(children) => children,
        _ => seq![e],
    }
}

/// Single-level `Or` flattening of a collected term list.
pub open spec fn flatten_or(terms: Seq<ExprModel>) -> Seq<ExprModel>
    decreases terms.len(),
{
    if terms.len() == 0 {
        Seq::empty()
    } else {
        or_splice(terms[0]) + flatten_or(terms.skip(1))
    }
}

/// One or more factors joined by (implicit) conjunction.
pub open spec fn spec_and_terms(s: Seq<char>, i: int) -> Option<(ExprModel, int)>
    decreases s.len() - i, 4int,
{
    match spec_factor(s, i) {
        Some((first, j)) => if i < j <= s.len() {
            let folded = spec_and_fold(s, j);
            if folded.0.len() == 0 {
                Some((first, j))
            } else {
                Some((ExprModel::And(flatten_and(seq![first] + folded.0)), folded.1))
            }
        } else {
            None
        },
        None => None,
    }
}

/// Zero or more further `ws+ "|" ws+ and_terms` alternatives.
pub open spec fn spec_or_fold(s: Seq<char>, i: int) -> (Seq<ExprModel>, int)
    decreases s.len() - i, 5int,
{
    if 0 <= i < s.len() && is_space(s[i]) {
        let j = spec_space0(s, i);
        if i < j < s.len() && s[j] == '|' && j + 1 < s.len() && is_space(s[j + 1]) {
            let m = spec_space0(s, j + 1);
            if i < m <= s.len() {
                match spec_and_terms(s, m) {
                    Some((e, k)) => if i < k <= s.len() {
                        let folded = spec_or_fold(s, k);
                        (seq![e] + folded.0, folded.1)
                    } else {
                        (Seq::empty(), i)
                    },
                    None => (Seq::empty(), i),
                }
            } else {
                (Seq::empty(), i)
            }
        } else {
            (Seq::empty(), i)
        }
    } else {
        (Seq::empty(), i)
    }
}

/// One or more conjunction groups joined by `|`.
pub open spec fn spec_or_terms(s: Seq<char>, i: int) -> Option<(ExprModel, int)>
    decreases s.len() - i, 6int,
{
    match spec_and_terms(s, i) {
        Some((first, j)) => if i < j <= s.len() {
            let folded = spec_or_fold(s, j);
            if folded.0.len() == 0 {
                Some((first, j))
            } else {
                Some((ExprModel::Or(flatten_or(seq![first] + folded.0)), folded.1))
            }
        } else {
            None
        },
        None => None,
    }
}

/// Outcome of parsing a whole query string.
pub enum ParseOutcome {
    /// The grammar matched and all input was consumed.
    Parsed(ExprModel),
    /// The grammar failed to match; carries the input from the first
    /// position it could not be matched at.
    Syntax(Seq<char>),
    /// A valid prefix matched but trailing characters remain; carries the
    /// remainder and the partial tree.
    Unconsumed(Seq<char>, ExprModel),
}

/// Parsing a whole query: skip outer whitespace, parse `or_terms`, and
/// demand that nothing but whitespace follows.
pub open spec fn spec_parse(s: Seq<char>) -> ParseOutcome {
    let i = spec_space0(s, 0);
    if 0 <= i <= s.len() {
        match spec_or_terms(s, i) {
            Some((e, j)) => {
                let k = spec_space0(s, j);
                if k == s.len() {
                    ParseOutcome::Parsed(e)
                } else {
                    ParseOutcome::Unconsumed(s.subrange(k, s.len() as int), e)
                }
            },
            None => ParseOutcome::Syntax(s.subrange(i, s.len() as int)),
        }
    } else {
        ParseOutcome::Syntax(s)
    }
}

/// Skip whitespace starting at `i`.
fn space0_at(s: &Vec<char>, i: usize) -> (j: usize)
    requires
        i <= s.len(),
    ensures
        j as int == spec_space0(s@, i as int),
        i <= j <= s.len(),
{
    let mut j: usize = i;
    while j < s.len() && (s[j] == ' ' || s[j] == '\t')
        invariant
            i <= j <= s.len(),
            spec_space0(s@, i as int) == spec_space0(s@, j as int),
        decreases s.len() - j,
    {
        j = j + 1;
    }
    j
}

/// Scan to the end of a literal's interior run starting at `i`.
fn lit_end_at(s: &Vec<char>, i: usize) -> (j: usize)
    requires
        i <= s.len(),
    ensures
        j as int == spec_lit_end(s@, i as int),
        i <= j <= s.len(),
{
    let mut j: usize = i;
    while j < s.len() && s[j] != ' ' && s[j] != '(' && s[j] != ')'
        invariant
            i <= j <= s.len(),
            spec_lit_end(s@, i as int) == spec_lit_end(s@, j as int),
        decreases s.len() - j,
    {
        j = j + 1;
    }
    j
}

/// Parse a quoted string token at `i`.
pub fn p_string(s: &Vec<char>, i: usize) -> (r: Option<(String, usize)>)
    requires
        i <= s.len(),
    ensures
        match r {
            Some((content, j)) => spec_string(s@, i as int) == Some((content@, j as int)) && i
                < j <= s.len(),
            None => spec_string(s@, i as int) is None,
        },
{
    if i >= s.len() || (s[i] != '\'' && s[i] != '"') {
        return None;
    }
    let q = s[i];
    let mut acc = String::new();
    let mut cur: usize = i + 1;
    loop
        invariant
            i < s.len(),
            q == s@[i as int],
            i + 1 <= cur <= s.len(),
            spec_string(s@, i as int) == spec_string_body(s@, i + 1, q),
            match spec_string_body(s@, cur as int, q) {
                Some(cr) => spec_string_body(s@, i + 1, q) == Some((acc@ + cr.0, cr.1)),
                None => spec_string_body(s@, i + 1, q) is None,
            },
        decreases s.len() - cur,
    {
        if cur >= s.len() {
            return None;
        }
        let c = s[cur];
        if c != q {
            push_char(&mut acc, c);
            proof {
                let t = s@;
                match spec_string_body(t, cur + 1, q) {
                    Some(cr) => {
                        assert(spec_string_body(t, cur as int, q) == Some(
                            (seq![t[cur as int]] + cr.0, cr.1),
                        ));
                        assert(acc@ + cr.0 =~= (acc@.drop_last() + seq![t[cur as int]]) + cr.0);
                        assert(acc@.drop_last().push(t[cur as int]) =~= acc@.drop_last() + seq![
                            t[cur as int],
                        ]);
                    },
                    None => {},
                }
            }
            cur = cur + 1;
        } else if cur + 1 < s.len() && s[cur + 1] == q {
            push_char(&mut acc, q);
            proof {
                let t = s@;
                match spec_string_body(t, cur + 2, q) {
                    Some(cr) => {
                        assert(spec_string_body(t, cur as int, q) == Some(
                            (seq![q] + cr.0, cr.1),
                        ));
                        assert(acc@ + cr.0 =~= (acc@.drop_last() + seq![q]) + cr.0);
                        assert(acc@.drop_last().push(q) =~= acc@.drop_last() + seq![q]);
                    },
                    None => {},
                }
            }
            cur = cur + 2;
        } else {
            proof {
                assert(spec_string_body(s@, cur as int, q) == Some(
                    (Seq::<char>::empty(), cur + 1),
                ));
                assert(acc@ + Seq::<char>::empty() =~= acc@);
            }
            return Some((acc, cur + 1));
        }
    }
}

/// Parse a bare literal token at `i`.
pub fn p_literal(s: &Vec<char>, i: usize) -> (r: Option<(String, usize)>)
    requires
        i <= s.len(),
    ensures
        match r {
            Some((name, j)) => spec_literal(s@, i as int) == Some((name@, j as int)) && i < j
                <= s.len(),
            None => spec_literal(s@, i as int) is None,
        },
{
    if i >= s.len() {
        return None;
    }
    let c = s[i];
    if c == '"' || c == '\'' || c == ' ' || c == '-' || c == '(' || c == ')' {
        return None;
    }
    let j = lit_end_at(s, i + 1);
    proof {
        lemma_lit_end_bounds(s@, i + 1);
    }
    if j == i + 1 && c == '|' {
        proof {
            assert(s@.subrange(i as int, j as int) =~= seq!['|']);
        }
        return None;
    }
    let name = chars_range_to_string(s, i, j);
    proof {
        let nm = s@.subrange(i as int, j as int);
        assert(nm[0] == c);
        if nm == seq!['|'] {
            assert(nm.len() == 1 && nm[0] == '|');
        }
        if nm == seq!['('] {
            assert(nm[0] == '(');
        }
        if nm == seq![')'] {
            assert(nm[0] == ')');
        }
    }
    Some((name, j))
}

/// Parse a string if one starts at `i`, otherwise a literal.
pub fn p_string_or_literal(s: &Vec<char>, i: usize) -> (r: Option<(String, usize)>)
    requires
        i <= s.len(),
    ensures
        match r {
            Some((text, j)) => spec_string_or_literal(s@, i as int) == Some(
                (text@, j as int),
            ) && i < j <= s.len(),
            None => spec_string_or_literal(s@, i as int) is None,
        },
{
    match p_string(s, i) {
        Some(r) => Some(r),
        None => p_literal(s, i),
    }
}

/// Parse a tag term at `i`.
pub fn p_tag(s: &Vec<char>, i: usize) -> (r: Option<(Expr, usize)>)
    requires
        i <= s.len(),
    ensures
        match r {
            Some((e, j)) => spec_tag(s@, i as int) == Some((e.model(), j as int)) && i < j
                <= s.len(),
            None => spec_tag(s@, i as int) is None,
        },
{
    match p_string_or_literal(s, i) {
        Some((name, j)) => Some((Expr::Tag(name), j)),
        None => None,
    }
}

/// Parse a `key:value` term at `i`; `in` is the only accepted key.
pub fn p_key_val(s: &Vec<char>, i: usize) -> (r: Option<(Expr, usize)>)
    requires
        i <= s.len(),
    ensures
        match r {
            Some((e, j)) => spec_key_val(s@, i as int) == Some((e.model(), j as int)) && i < j
                <= s.len(),
            None => spec_key_val(s@, i as int) is None,
        },
{
    if s.len() >= 3 && i <= s.len() - 3 && s[i] == 'i' && s[i + 1] == 'n' && s[i + 2] == ':' {
        match p_string_or_literal(s, i + 3) {
            Some((value, j)) => {
                let key = String::from_str("in");
                proof {
                    reveal_strlit("in");
                    assert(key@ =~= seq!['i', 'n']);
                }
                Some((Expr::KeyValue(key, value), j))
            },
            None => None,
        }
    } else {
        None
    }
}

/// Parse a parenthesised group at `i`.
fn p_parens(s: &Vec<char>, i: usize) -> (r: Option<(Expr, usize)>)
    requires
        i <= s.len(),
    ensures
        match r {
            Some((e, j)) => spec_parens(s@, i as int) == Some((e.model(), j as int)) && i < j
                <= s.len(),
            None => spec_parens(s@, i as int) is None,
        },
    decreases s@.len() - i, 0int,
{
    if i >= s.len() || s[i] != '(' {
        return None;
    }
    let j = space0_at(s, i + 1);
    match p_or_terms(s, j) {
        Some((e, k)) => {
            let m = space0_at(s, k);
            if m < s.len() && s[m] == ')' {
                Some((e, m + 1))
            } else {
                None
            }
        },
        None => None,
    }
}

/// Parse a positive term at `i`: a group, a key-value, or a tag.
fn p_unsigned_factor(s: &Vec<char>, i: usize) -> (r: Option<(Expr, usize)>)
    requires
        i <= s.len(),
    ensures
        match r {
            Some((e, j)) => spec_unsigned_factor(s@, i as int) == Some(
                (e.model(), j as int),
            ) && i < j <= s.len(),
            None => spec_unsigned_factor(s@, i as int) is None,
        },
    decreases s@.len() - i, 1int,
{
    match p_parens(s, i) {
        Some(r) => Some(r),
        None => match p_key_val(s, i) {
            Some(r) => Some(r),
            None => p_tag(s, i),
        },
    }
}

/// Parse a term with an optional leading negation at `i`.
fn p_factor(s: &Vec<char>, i: usize) -> (r: Option<(Expr, usize)>)
    requires
        i <= s.len(),
    ensures
        match r {
            Some((e, j)) => spec_factor(s@, i as int) == Some((e.model(), j as int)) && i < j
                <= s.len(),
            None => spec_factor(s@, i as int) is None,
        },
    decreases s@.len() - i, 2int,
{
    if i < s.len() && s[i] == '-' {
        let j = space0_at(s, i + 1);
        match p_unsigned_factor(s, j) {
            Some((e, k)) => Some((Expr::Not(Box::new(e)), k)),
            None => p_unsigned_factor(s, i),
        }
    } else {
        p_unsigned_factor(s, i)
    }
}

pub proof fn lemma_models_len(exprs: Seq<Expr>)
    ensures
        models(exprs).len() == exprs.len(),
    decreases exprs.len(),
{
    if exprs.len() > 0 {
        lemma_models_len(exprs.skip(1));
    }
}

pub proof fn lemma_models_index(exprs: Seq<Expr>, i: int)
    requires
        0 <= i < exprs.len(),
    ensures
        models(exprs).len() == exprs.len(),
        models(exprs)[i] == exprs[i].model(),
    decreases i,
{
    lemma_models_len(exprs);
    lemma_models_len(exprs.skip(1));
    if i > 0 {
        lemma_models_index(exprs.skip(1), i - 1);
    }
}

pub proof fn lemma_models_concat(a: Seq<Expr>, b: Seq<Expr>)
    ensures
        models(a + b) == models(a) + models(b),
    decreases a.len(),
{
    if a.len() == 0 {
        assert(a + b =~= b);
        assert(models(a) + models(b) =~= models(b));
    } else {
        assert((a + b).skip(1) =~= a.skip(1) + b);
        assert((a + b)[0] == a[0]);
        lemma_models_concat(a.skip(1), b);
        assert(seq![a[0].model()] + (models(a.skip(1)) + models(b)) =~= (seq![a[0].model()]
            + models(a.skip(1))) + models(b));
    }
}

pub proof fn lemma_models_push(exprs: Seq<Expr>, e: Expr)
    ensures
        models(exprs.push(e)) == models(exprs).push(e.model()),
{
    assert(exprs.push(e) =~= exprs + seq![e]);
    lemma_models_concat(exprs, seq![e]);
    assert(seq![e].skip(1) =~= Seq::<Expr>::empty());
    assert(models(seq![e].skip(1)) == Seq::<ExprModel>::empty());
    assert(models(seq![e]) =~= seq![e.model()]);
    assert(models(exprs) + seq![e.model()] =~= models(exprs).push(e.model()));
}

/// Parse one or more factors joined by implicit conjunction, flattening
/// directly nested `And` groups one level.
fn p_and_terms(s: &Vec<char>, i: usize) -> (r: Option<(Expr, usize)>)
    requires
        i <= s.len(),
    ensures
        match r {
            Some((e, j)) => spec_and_terms(s@, i as int) == Some((e.model(), j as int)) && i
                < j <= s.len(),
            None => spec_and_terms(s@, i as int) is None,
        },
    decreases s@.len() - i, 4int,
{
    let (first_e, first_j) = match p_factor(s, i) {
        Some(fj) => fj,
        None => {
            return None;
        },
    };
    let ghost first_m = first_e.model();
    let mut terms: Vec<Expr> = Vec::new();
    terms.push(first_e);
    let mut cur: usize = first_j;
    let ghost mut extras: Seq<ExprModel> = Seq::empty();
    proof {
        assert(terms@.skip(1) =~= Seq::<Expr>::empty());
        assert(models(terms@.skip(1)) == Seq::<ExprModel>::empty());
        assert(models(terms@) =~= seq![first_m] + extras);
        assert(extras + spec_and_fold(s@, cur as int).0 =~= spec_and_fold(s@, cur as int).0);
    }
    loop
        invariant
            i < first_j <= cur <= s@.len(),
            i <= s@.len(),
            spec_factor(s@, i as int) == Some((first_m, first_j as int)),
            models(terms@) == seq![first_m] + extras,
            terms@.len() == 1 + extras.len(),
            spec_and_fold(s@, first_j as int) == (
                extras + spec_and_fold(s@, cur as int).0,
                spec_and_fold(s@, cur as int).1,
            ),
        ensures
            i < first_j <= cur <= s@.len(),
            models(terms@) == seq![first_m] + extras,
            terms@.len() == 1 + extras.len(),
            spec_and_fold(s@, first_j as int) == (extras, cur as int),
        decreases s@.len() - cur,
    {
        let j2 = space0_at(s, cur);
        match p_factor(s, j2) {
            Some((e, k)) => {
                proof {
                    let fold_k = spec_and_fold(s@, k as int);
                    assert(spec_and_fold(s@, cur as int) == (
                        seq![e.model()] + fold_k.0,
                        fold_k.1,
                    ));
                    assert(extras + (seq![e.model()] + fold_k.0) =~= extras.push(e.model())
                        + fold_k.0);
                    lemma_models_push(terms@, e);
                    assert((seq![first_m] + extras).push(e.model()) =~= seq![first_m]
                        + extras.push(e.model()));
                    lemma_models_len(terms@);
                    extras = extras.push(e.model());
                }
                terms.push(e);
                cur = k;
            },
            None => {
                proof {
                    assert(spec_and_fold(s@, cur as int) == (
                        Seq::<ExprModel>::empty(),
                        cur as int,
                    ));
                    assert(extras + Seq::<ExprModel>::empty() =~= extras);
                }
                break ;
            },
        }
    }
    proof {
        lemma_models_len(terms@);
    }
    if terms.len() == 1 {
        let ghost single = terms@;
        let e = terms.remove(0);
        proof {
            assert(extras.len() == 0);
            assert(extras =~= Seq::<ExprModel>::empty());
            assert(single[0] == e);
            assert(models(single) == seq![single[0].model()] + models(single.skip(1)));
            assert(e.model() == first_m);
        }
        return Some((e, first_j));
    }
    let ghost orig = terms@;
    let mut flat: Vec<Expr> = Vec::new();
    while terms.len() > 0
        invariant
            flatten_and(models(orig)) == models(flat@) + flatten_and(models(terms@)),
        decreases terms@.len(),
    {
        let ghost before = terms@;
        let t = terms.remove(0);
        proof {
            assert(terms@ =~= before.skip(1));
            assert(before[0] == t);
            assert(models(before) == seq![t.model()] + models(before.skip(1)));
            assert(models(before)[0] == t.model());
            assert(models(before).skip(1) =~= models(before.skip(1)));
            assert(flatten_and(models(before)) == and_splice(t.model()) + flatten_and(
                models(terms@),
            ));
        }
        match t {
            Expr::And(mut cs) => {
                proof {
                    lemma_models_concat(flat@, cs@);
                    assert((models(flat@) + models(cs@)) + flatten_and(models(terms@)) =~= models(
                        flat@,
                    ) + (models(cs@) + flatten_and(models(terms@))));
                }
                flat.append(&mut cs);
            },
            t2 => {
                proof {
                    assert(and_splice(t2.model()) =~= seq![t2.model()]);
                    lemma_models_push(flat@, t2);
                    assert(models(flat@).push(t2.model()) + flatten_and(models(terms@)) =~= models(
                        flat@,
                    ) + (seq![t2.model()] + flatten_and(models(terms@))));
                }
                flat.push(t2);
            },
        }
    }
    proof {
        assert(models(terms@) =~= Seq::<ExprModel>::empty());
        assert(flatten_and(Seq::<ExprModel>::empty()) == Seq::<ExprModel>::empty());
        assert(flatten_and(models(orig)) =~= models(flat@));
        assert(seq![first_m] + extras == models(orig));
    }
    Some((Expr::And(flat), cur))
}

/// Parse one or more conjunction groups joined by `|`, flattening directly
/// nested `Or` groups one level.
fn p_or_terms(s: &Vec<char>, i: usize) -> (r: Option<(Expr, usize)>)
    requires
        i <= s.len(),
    ensures
        match r {
            Some((e, j)) => spec_or_terms(s@, i as int) == Some((e.model(), j as int)) && i < j
                <= s.len(),
            None => spec_or_terms(s@, i as int) is None,
        },
    decreases s@.len() - i, 6int,
{
    let (first_e, first_j) = match p_and_terms(s, i) {
        Some(fj) => fj,
        None => {
            return None;
        },
    };
    let ghost first_m = first_e.model();
    let mut terms: Vec<Expr> = Vec::new();
    terms.push(first_e);
    let mut cur: usize = first_j;
    let ghost mut extras: Seq<ExprModel> = Seq::empty();
    proof {
        assert(terms@.skip(1) =~= Seq::<Expr>::empty());
        assert(models(terms@.skip(1)) == Seq::<ExprModel>::empty());
        assert(models(terms@) =~= seq![first_m] + extras);
        assert(extras + spec_or_fold(s@, cur as int).0 =~= spec_or_fold(s@, cur as int).0);
    }
    loop
        invariant
            i < first_j <= cur <= s@.len(),
            i <= s@.len(),
            spec_and_terms(s@, i as int) == Some((first_m, first_j as int)),
            models(terms@) == seq![first_m] + extras,
            terms@.len() == 1 + extras.len(),
            spec_or_fold(s@, first_j as int) == (
                extras + spec_or_fold(s@, cur as int).0,
                spec_or_fold(s@, cur as int).1,
            ),
        ensures
            i < first_j <= cur <= s@.len(),
            models(terms@) == seq![first_m] + extras,
            terms@.len() == 1 + extras.len(),
            spec_or_fold(s@, first_j as int) == (extras, cur as int),
        decreases s@.len() - cur,
    {
        if !(cur < s.len() && (s[cur] == ' ' || s[cur] == '\t')) {
            proof {
                assert(spec_or_fold(s@, cur as int) == (Seq::<ExprModel>::empty(), cur as int));
                assert(extras + Seq::<ExprModel>::empty() =~= extras);
            }
            break ;
        }
        let j2 = space0_at(s, cur);
        proof {
            lemma_space0_bounds(s@, cur + 1);
            assert(spec_space0(s@, cur as int) == spec_space0(s@, cur + 1));
            assert(cur < j2);
        }
        if !(j2 < s.len() && s[j2] == '|' && j2 + 1 < s.len() && (s[j2 + 1] == ' ' || s[j2 + 1]
            == '\t')) {
            proof {
                assert(spec_or_fold(s@, cur as int) == (Seq::<ExprModel>::empty(), cur as int));
                assert(extras + Seq::<ExprModel>::empty() =~= extras);
            }
            break ;
        }
        let m = space0_at(s, j2 + 1);
        proof {
            lemma_space0_bounds(s@, j2 + 2);
            assert(spec_space0(s@, j2 + 1) == spec_space0(s@, j2 + 2));
            assert(j2 + 1 < m);
        }
        match p_and_terms(s, m) {
            Some((e, k)) => {
                proof {
                    let fold_k = spec_or_fold(s@, k as int);
                    assert(spec_or_fold(s@, cur as int) == (
                        seq![e.model()] + fold_k.0,
                        fold_k.1,
                    ));
                    assert(extras + (seq![e.model()] + fold_k.0) =~= extras.push(e.model())
                        + fold_k.0);
                    lemma_models_push(terms@, e);
                    assert((seq![first_m] + extras).push(e.model()) =~= seq![first_m]
                        + extras.push(e.model()));
                    lemma_models_len(terms@);
                    extras = extras.push(e.model());
                }
                terms.push(e);
                cur = k;
            },
            None => {
                proof {
                    assert(spec_or_fold(s@, cur as int) == (
                        Seq::<ExprModel>::empty(),
                        cur as int,
                    ));
                    assert(extras + Seq::<ExprModel>::empty() =~= extras);
                }
                break ;
            },
        }
    }
    proof {
        lemma_models_len(terms@);
    }
    if terms.len() == 1 {
        let ghost single = terms@;
        let e = terms.remove(0);
        proof {
            assert(extras.len() == 0);
            assert(extras =~= Seq::<ExprModel>::empty());
            assert(single[0] == e);
            assert(models(single) == seq![single[0].model()] + models(single.skip(1)));
            assert(e.model() == first_m);
        }
        return Some((e, first_j));
    }
    let ghost orig = terms@;
    let mut flat: Vec<Expr> = Vec::new();
    while terms.len() > 0
        invariant
            flatten_or(models(orig)) == models(flat@) + flatten_or(models(terms@)),
        decreases terms@.len(),
    {
        let ghost before = terms@;
        let t = terms.remove(0);
        proof {
            assert(terms@ =~= before.skip(1));
            assert(before[0] == t);
            assert(models(before) == seq![t.model()] + models(before.skip(1)));
            assert(models(before)[0] == t.model());
            assert(models(before).skip(1) =~= models(before.skip(1)));
            assert(flatten_or(models(before)) == or_splice(t.model()) + flatten_or(
                models(terms@),
            ));
        }
        match t {
            Expr::Or(mut cs) => {
                proof {
                    lemma_models_concat(flat@, cs@);
                    assert((models(flat@) + models(cs@)) + flatten_or(models(terms@)) =~= models(
                        flat@,
                    ) + (models(cs@) + flatten_or(models(terms@))));
                }
                flat.append(&mut cs);
            },
            t2 => {
                proof {
                    assert(or_splice(t2.model()) =~= seq![t2.model()]);
                    lemma_models_push(flat@, t2);
                    assert(models(flat@).push(t2.model()) + flatten_or(models(terms@)) =~= models(
                        flat@,
                    ) + (seq![t2.model()] + flatten_or(models(terms@))));
                }
                flat.push(t2);
            },
        }
    }
    proof {
        assert(models(terms@) =~= Seq::<ExprModel>::empty());
        assert(flatten_or(Seq::<ExprModel>::empty()) == Seq::<ExprModel>::empty());
        assert(flatten_or(models(orig)) =~= models(flat@));
        assert(seq![first_m] + extras == models(orig));
    }
    Some((Expr::Or(flat), cur))
}

pub proof fn lemma_or_fold_end_bounds(s: Seq<char>, i: int)
    requires
        0 <= i <= s.len(),
    ensures
        i <= spec_or_fold(s, i).1 <= s.len(),
    decreases s.len() - i,
{
    if 0 <= i < s.len() && is_space(s[i]) {
        let j = spec_space0(s, i);
        if i < j < s.len() && s[j] == '|' && j + 1 < s.len() && is_space(s[j + 1]) {
            let m = spec_space0(s, j + 1);
            if i < m <= s.len() {
                match spec_and_terms(s, m) {
                    Some(ek) => {
                        if i < ek.1 <= s.len() {
                            lemma_or_fold_end_bounds(s, ek.1);
                        }
                    },
                    None => {},
                }
            }
        }
    }
}

pub proof fn lemma_or_terms_end_bounds(s: Seq<char>, i: int)
    requires
        0 <= i <= s.len(),
    ensures
        match spec_or_terms(s, i) {
            Some(ej) => i < ej.1 <= s.len(),
            None => true,
        },
{
    match spec_and_terms(s, i) {
        Some(fj) => {
            if i < fj.1 <= s.len() {
                lemma_or_fold_end_bounds(s, fj.1);
            }
        },
        None => {},
    }
}

/// Law: parsing consumes all of its input. Whenever a query parses
/// successfully, the grammar matched the whole string apart from outer
/// whitespace: nothing but whitespace follows the position where the parsed
/// expression ends.
pub proof fn lemma_parse_total_consumption(s: Seq<char>)
    ensures
        match spec_parse(s) {
            ParseOutcome::Parsed(e) => match spec_or_terms(s, spec_space0(s, 0)) {
                Some(ej) => e == ej.0 && forall|k: int|
                    ej.1 <= k < s.len() ==> is_space(#[trigger] s[k]),
                None => false,
            },
            _ => true,
        },
{
    lemma_space0_bounds(s, 0);
    let i = spec_space0(s, 0);
    if spec_parse(s) is Parsed {
        match spec_or_terms(s, i) {
            Some(ej) => {
                lemma_or_terms_end_bounds(s, i);
                lemma_space0_bounds(s, ej.1);
            },
            None => {},
        }
    }
}

/// How parsing a query can fail.
#[derive(Debug, PartialEq, Eq)]
pub enum ParseError {
    /// The grammar failed to match; holds the input from the first position
    /// it could not be matched at (after any leading whitespace).
    Syntax(String),
    /// A syntactically valid prefix parsed but trailing characters remain;
    /// holds the remaining text and the partial tree, for diagnostics.
    InputNotFullyConsumed(String, Expr),
}

/// Parse a whole query string into an expression tree. Outer whitespace is
/// skipped; anything else left unconsumed is an error.
pub fn parse(input: &str) -> (r: Result<Expr, ParseError>)
    ensures
        match r {
            Ok(e) => spec_parse(input@) == ParseOutcome::Parsed(e.model()),
            Err(err) => match err {
                ParseError::Syntax(rem) => spec_parse(input@) == ParseOutcome::Syntax(rem@),
                ParseError::InputNotFullyConsumed(rem, e) => spec_parse(input@)
                    == ParseOutcome::Unconsumed(rem@, e.model()),
            },
        },
{
    let s = crate::text::str_to_chars(input);
    let i = space0_at(&s, 0);
    match p_or_terms(&s, i) {
        Some((e, j)) => {
            let k = space0_at(&s, j);
            if k == s.len() {
                Ok(e)
            } else {
                let rem = chars_range_to_string(&s, k, s.len());
                Err(ParseError::InputNotFullyConsumed(rem, e))
            }
        },
        None => {
            let rem = chars_range_to_string(&s, i, s.len());
            Err(ParseError::Syntax(rem))
        },
    }
}

} // verus!
