//! Escaping helpers for the two embedding contexts the compiler renders into:
//! the full-text-search mini-query language and SQL `LIKE` patterns inside
//! single-quoted SQL string literals.

use vstd::prelude::*;

use crate::text::push_char;

verus! {

/// How one character is escaped for a full-text-search phrase: both kinds of
/// quote are doubled, every other character stands for itself.
pub open spec fn fts_escape_char(c: char) -> Seq<char> {
    if c == '\'' {
        seq!['\'', '\'']
    } else if c == '"' {
        seq!['"', '"']
    } else {
        seq![c]
    }
}

/// The full-text-search phrase escaping of a whole string.
pub open spec fn fts_escape(s: Seq<char>) -> Seq<char>
    decreases s.len(),
{
    if s.len() == 0 {
        Seq::empty()
    } else {
        fts_escape_char(s[0]) + fts_escape(s.skip(1))
    }
}

pub proof fn lemma_fts_escape_concat(a: Seq<char>, b: Seq<char>)
    ensures
        fts_escape(a + b) == fts_escape(a) + fts_escape(b),
    decreases a.len(),
{
    if a.len() == 0 {
        assert(a + b =~= b);
        assert(fts_escape(a) + fts_escape(b) =~= fts_escape(b));
    } else {
        assert((a + b).skip(1) =~= a.skip(1) + b);
        assert((a + b)[0] == a[0]);
        lemma_fts_escape_concat(a.skip(1), b);
        assert(fts_escape_char(a[0]) + (fts_escape(a.skip(1)) + fts_escape(b)) =~= (
        fts_escape_char(a[0]) + fts_escape(a.skip(1))) + fts_escape(b));
    }
}

/// How one character is escaped for a `LIKE` pattern embedded in a
/// single-quoted SQL string literal: the wildcards `%` and `_` and the chosen
/// escape character are prefixed with the escape character, and a single quote
/// is doubled (for the surrounding SQL literal).
pub open spec fn like_escape_char(c: char, e: char) -> Seq<char> {
    if c == '%' {
        seq![e, '%']
    } else if c == '_' {
        seq![e, '_']
    } else if c == '\'' {
        seq!['\'', '\'']
    } else if c == e {
        seq![e, e]
    } else {
        seq![c]
    }
}

/// The `LIKE`-pattern escaping of a whole string, as it stands inside the
/// single-quoted SQL literal.
pub open spec fn like_escape(s: Seq<char>, e: char) -> Seq<char>
    decreases s.len(),
{
    if s.len() == 0 {
        Seq::empty()
    } else {
        like_escape_char(s[0], e) + like_escape(s.skip(1), e)
    }
}

pub proof fn lemma_like_escape_concat(a: Seq<char>, b: Seq<char>, e: char)
    ensures
        like_escape(a + b, e) == like_escape(a, e) + like_escape(b, e),
    decreases a.len(),
{
    if a.len() == 0 {
        assert(a + b =~= b);
        assert(like_escape(a, e) + like_escape(b, e) =~= like_escape(b, e));
    } else {
        assert((a + b).skip(1) =~= a.skip(1) + b);
        assert((a + b)[0] == a[0]);
        lemma_like_escape_concat(a.skip(1), b, e);
        assert(like_escape_char(a[0], e) + (like_escape(a.skip(1), e) + like_escape(b, e)) =~= (
        like_escape_char(a[0], e) + like_escape(a.skip(1), e)) + like_escape(b, e));
    }
}

/// A string with every single quote doubled and all else kept: how the
/// content of a single-quoted SQL string literal is written out.
pub open spec fn squote_double(s: Seq<char>) -> Seq<char>
    decreases s.len(),
{
    if s.len() == 0 {
        Seq::empty()
    } else if s[0] == '\'' {
        seq!['\'', '\''] + squote_double(s.skip(1))
    } else {
        seq![s[0]] + squote_double(s.skip(1))
    }
}

pub proof fn lemma_squote_double_concat(a: Seq<char>, b: Seq<char>)
    ensures
        squote_double(a + b) == squote_double(a) + squote_double(b),
    decreases a.len(),
{
    if a.len() == 0 {
        assert(a + b =~= b);
        assert(squote_double(a) + squote_double(b) =~= squote_double(b));
    } else {
        assert((a + b).skip(1) =~= a.skip(1) + b);
        assert((a + b)[0] == a[0]);
        lemma_squote_double_concat(a.skip(1), b);
        if a[0] == '\'' {
            assert(seq!['\'', '\''] + (squote_double(a.skip(1)) + squote_double(b)) =~= (
            seq!['\'', '\''] + squote_double(a.skip(1))) + squote_double(b));
        } else {
            assert(seq![a[0]] + (squote_double(a.skip(1)) + squote_double(b)) =~= (seq![a[0]]
                + squote_double(a.skip(1))) + squote_double(b));
        }
    }
}

/// A non-empty sequence is its head followed by its tail.
pub proof fn lemma_head_tail(a: Seq<char>)
    requires
        a.len() > 0,
    ensures
        a =~= seq![a[0]] + a.skip(1),
{
}

/// Model of the full-text backend reading a double-quoted phrase: a doubled
/// `"` stands for one content `"`, any other character is content, and the
/// first undoubled `"` ends the phrase. Returns the content read and the rest
/// of the input after the closing quote, or `None` when the phrase never
/// closes.
pub open spec fn dq_scan(s: Seq<char>) -> Option<(Seq<char>, Seq<char>)>
    decreases s.len(),
{
    if s.len() == 0 {
        None
    } else if s[0] == '"' {
        if s.len() >= 2 && s[1] == '"' {
            match dq_scan(s.skip(2)) {
                Some(cr) => Some((seq!['"'] + cr.0, cr.1)),
                None => None,
            }
        } else {
            Some((Seq::empty(), s.skip(1)))
        }
    } else {
        match dq_scan(s.skip(1)) {
            Some(cr) => Some((seq![s[0]] + cr.0, cr.1)),
            None => None,
        }
    }
}

/// Law: a string escaped for a full-text phrase can never end the phrase
/// early. Reading a double-quoted phrase whose body is the escaped string
/// finds the closing quote exactly at the end, with nothing left over, and
/// the content read back is the original string with single quotes doubled.
pub proof fn lemma_fts_escape_round_trip(t: Seq<char>)
    ensures
        dq_scan(fts_escape(t).push('"')) == Some((squote_double(t), Seq::<char>::empty())),
    decreases t.len(),
{
    if t.len() == 0 {
        assert(fts_escape(t).push('"') =~= seq!['"']);
        assert(seq!['"'].skip(1) =~= Seq::<char>::empty());
        assert(dq_scan(seq!['"']) == Some((Seq::<char>::empty(), Seq::<char>::empty())));
    } else {
        let c = t[0];
        let rest = fts_escape(t.skip(1)).push('"');
        lemma_fts_escape_round_trip(t.skip(1));
        let s = fts_escape(t).push('"');
        if c == '"' {
            assert(s =~= seq!['"', '"'] + rest);
            assert(s.skip(2) =~= rest);
            assert(s[0] == '"' && s.len() >= 2 && s[1] == '"');
            assert(squote_double(t) =~= seq!['"'] + squote_double(t.skip(1)));
        } else if c == '\'' {
            assert(s =~= seq!['\'', '\''] + rest);
            assert(s.skip(1) =~= seq!['\''] + rest);
            assert(s.skip(1).skip(1) =~= rest);
            assert(dq_scan(s.skip(1)) == Some(
                (seq!['\''] + squote_double(t.skip(1)), Seq::<char>::empty()),
            ));
            assert(squote_double(t) =~= seq!['\''] + (seq!['\''] + squote_double(t.skip(1))));
        } else {
            assert(s =~= seq![c] + rest);
            assert(s.skip(1) =~= rest);
            assert(squote_double(t) =~= seq![c] + squote_double(t.skip(1)));
        }
    }
}

/// The effective `LIKE` pattern the database evaluates, after the surrounding
/// SQL string literal has been read back (so doubled single quotes have
/// collapsed to one).
pub open spec fn like_pattern_char(c: char, e: char) -> Seq<char> {
    if c == '%' {
        seq![e, '%']
    } else if c == '_' {
        seq![e, '_']
    } else if c == '\'' {
        seq!['\'']
    } else if c == e {
        seq![e, e]
    } else {
        seq![c]
    }
}

pub open spec fn like_pattern(s: Seq<char>, e: char) -> Seq<char>
    decreases s.len(),
{
    if s.len() == 0 {
        Seq::empty()
    } else {
        like_pattern_char(s[0], e) + like_pattern(s.skip(1), e)
    }
}

/// What the escaped text stands for: reading the single-quoted SQL literal
/// back (undoubling `''`) yields exactly the effective `LIKE` pattern.
pub proof fn lemma_like_escape_is_doubled_pattern(t: Seq<char>, e: char)
    requires
        e != '\'',
    ensures
        like_escape(t, e) == squote_double(like_pattern(t, e)),
    decreases t.len(),
{
    if t.len() == 0 {
    } else {
        let c = t[0];
        lemma_like_escape_is_doubled_pattern(t.skip(1), e);
        lemma_squote_double_concat(like_pattern_char(c, e), like_pattern(t.skip(1), e));
        assert(squote_double(like_pattern_char(c, e)) =~= like_escape_char(c, e)) by {
            reveal_with_fuel(squote_double, 3);
            if c == '\'' {
                assert(seq!['\''].skip(1) =~= Seq::<char>::empty());
                assert(squote_double(seq!['\'']) =~= seq!['\'', '\'']);
            } else if c == '%' || c == '_' || c == e {
                let x = like_pattern_char(c, e)[1];
                assert(like_pattern_char(c, e) =~= seq![e, x]);
                assert(seq![e, x].skip(1) =~= seq![x]);
                assert(seq![x].skip(1) =~= Seq::<char>::empty());
                assert(x != '\'');
                assert(squote_double(seq![x]) =~= seq![x]);
                assert(squote_double(seq![e, x]) =~= seq![e] + seq![x]);
                assert(seq![e] + seq![x] =~= seq![e, x]);
            } else {
                assert(seq![c].skip(1) =~= Seq::<char>::empty());
                assert(squote_double(seq![c]) =~= seq![c]);
            }
        }
    }
}

/// Semantics of SQL `LIKE ... ESCAPE e`: the escape character makes the next
/// pattern character match literally, `%` matches any (possibly empty)
/// sequence, `_` matches any single character, and every other pattern
/// character matches itself. A pattern ending in a lone escape character
/// matches nothing.
pub open spec fn like_match(p: Seq<char>, e: char, t: Seq<char>) -> bool
    decreases p.len(),
{
    if p.len() == 0 {
        t.len() == 0
    } else if p[0] == e {
        p.len() >= 2 && t.len() > 0 && t[0] == p[1] && like_match(p.skip(2), e, t.skip(1))
    } else if p[0] == '%' {
        exists|k: int| 0 <= k <= t.len() && like_match(p.skip(1), e, #[trigger] t.skip(k))
    } else if p[0] == '_' {
        t.len() > 0 && like_match(p.skip(1), e, t.skip(1))
    } else {
        t.len() > 0 && t[0] == p[0] && like_match(p.skip(1), e, t.skip(1))
    }
}

/// Law: a `LIKE` match against the escaped pattern for `t`, with the same
/// escape character, accepts exactly the literal string `t` and nothing else
/// (no wildcard expansion). Does not hold when the single quote itself is
/// chosen as the escape character.
pub proof fn lemma_like_pattern_exact(t: Seq<char>, e: char, cand: Seq<char>)
    requires
        e != '\'',
    ensures
        like_match(like_pattern(t, e), e, cand) <==> cand == t,
    decreases t.len(),
{
    let p = like_pattern(t, e);
    if t.len() == 0 {
        assert(p.len() == 0);
        if cand.len() == 0 {
            assert(cand =~= t);
        }
    } else {
        let c = t[0];
        let pc = like_pattern_char(c, e);
        let prest = like_pattern(t.skip(1), e);
        assert(p == pc + prest);
        if cand.len() > 0 {
            lemma_like_pattern_exact(t.skip(1), e, cand.skip(1));
        }
        if c == '%' || c == '_' || c == e {
            // escaped form [e, c]: the escape branch of the match applies
            assert(pc =~= seq![e, c]);
            assert(p[0] == e && p.len() >= 2 && p[1] == c);
            assert(p.skip(2) =~= prest);
            if like_match(p, e, cand) {
                assert(cand.len() > 0 && cand[0] == c && cand.skip(1) == t.skip(1));
                lemma_head_tail(cand);
                lemma_head_tail(t);
                assert(cand =~= t);
            } else {
                if cand == t {
                    assert(cand.len() > 0 && cand[0] == c);
                    assert(cand.skip(1) == t.skip(1));
                }
            }
        } else {
            // literal form [c] with c neither wildcard nor escape character
            assert(pc =~= seq![c]);
            assert(p[0] == c);
            assert(p[0] != e && p[0] != '%' && p[0] != '_');
            assert(p.skip(1) =~= prest);
            if like_match(p, e, cand) {
                assert(cand.len() > 0 && cand[0] == c && cand.skip(1) == t.skip(1));
                lemma_head_tail(cand);
                lemma_head_tail(t);
                assert(cand =~= t);
            } else {
                if cand == t {
                    assert(cand.len() > 0 && cand[0] == c);
                    assert(cand.skip(1) == t.skip(1));
                }
            }
        }
    }
}

/// Escape a string for use inside a full-text-search phrase. Every quote
/// character (both `'` and `"`) is doubled; all other characters are kept.
pub fn escape_fts5_string(text: &str) -> (r: String)
    ensures
        r@ == fts_escape(text@),
{
    let n: usize = text.unicode_len();
    let mut r = String::new();
    let mut i: usize = 0;
    while i < n
        invariant
            n == text@.len(),
            i <= n,
            r@ == fts_escape(text@.take(i as int)),
        decreases n - i,
    {
        let c = text.get_char(i);
        if c == '\'' {
            r.append("''");
            proof {
                reveal_strlit("''");
            }
        } else if c == '"' {
            r.append("\"\"");
            proof {
                reveal_strlit("\"\"");
            }
        } else {
            push_char(&mut r, c);
        }
        proof {
            let t = text@;
            assert(t.take(i + 1) =~= t.take(i as int) + seq![t[i as int]]);
            lemma_fts_escape_concat(t.take(i as int), seq![t[i as int]]);
            assert(seq![t[i as int]].skip(1) =~= Seq::<char>::empty());
            assert(fts_escape(seq![t[i as int]].skip(1)) == Seq::<char>::empty());
            assert(fts_escape(seq![t[i as int]]) =~= fts_escape_char(t[i as int]));
            assert(r@ =~= fts_escape(t.take(i as int)) + fts_escape_char(t[i as int]));
        }
        i = i + 1;
    }
    proof {
        assert(text@.take(n as int) =~= text@);
    }
    r
}

/// Escape a string for use in a `LIKE` pattern held in a single-quoted SQL
/// string literal, together with `ESCAPE '<escape_char>'`. Wildcards and the
/// escape character itself are prefixed with the escape character; single
/// quotes are doubled.
pub fn escape_like_pattern(text: &str, escape_char: char) -> (r: String)
    ensures
        r@ == like_escape(text@, escape_char),
{
    let n: usize = text.unicode_len();
    let mut r = String::new();
    let mut i: usize = 0;
    while i < n
        invariant
            n == text@.len(),
            i <= n,
            r@ == like_escape(text@.take(i as int), escape_char),
        decreases n - i,
    {
        let c = text.get_char(i);
        if c == '%' {
            push_char(&mut r, escape_char);
            push_char(&mut r, '%');
        } else if c == '_' {
            push_char(&mut r, escape_char);
            push_char(&mut r, '_');
        } else if c == '\'' {
            r.append("''");
            proof {
                reveal_strlit("''");
            }
        } else if c == escape_char {
            push_char(&mut r, escape_char);
            push_char(&mut r, escape_char);
        } else {
            push_char(&mut r, c);
        }
        proof {
            let t = text@;
            let e = escape_char;
            assert(t.take(i + 1) =~= t.take(i as int) + seq![t[i as int]]);
            lemma_like_escape_concat(t.take(i as int), seq![t[i as int]], e);
            assert(seq![t[i as int]].skip(1) =~= Seq::<char>::empty());
            assert(like_escape(seq![t[i as int]].skip(1), e) == Seq::<char>::empty());
            assert(like_escape(seq![t[i as int]], e) =~= like_escape_char(t[i as int], e));
            assert(r@ =~= like_escape(t.take(i as int), e) + like_escape_char(t[i as int], e));
        }
        i = i + 1;
    }
    proof {
        assert(text@.take(n as int) =~= text@);
    }
    r
}

} // verus!
