//! Plain data types of the tagged-file repository, and small SQL helpers.

use vstd::multiset::Multiset;
use vstd::prelude::*;

verus! {

/// One indexed file: its row id, its forward-slash relative path, its tags,
/// and the sentinel meta tags present on every row.
#[derive(Debug, Clone)]
pub struct Item {
    pub id: i64,
    pub path: String,
    pub tags: Vec<String>,
    pub meta_tags: String,
}

/// One tag of the index, with the column it was found in and how many items
/// carry it.
#[derive(Debug, Clone)]
pub struct Tag {
    pub name: String,
    pub column: String,
    pub count: i64,
}

/// `count` SQL placeholders separated by commas: `?,?,...,?`.
pub open spec fn spec_repeat_vars(count: int) -> Seq<char>
    decreases count,
{
    if count <= 1 {
        "?"@
    } else {
        "?,"@ + spec_repeat_vars(count - 1)
    }
}

/// A comma-separated run of `count` SQL placeholders, for building `IN`
/// lists. At least one placeholder must be asked for.
pub fn repeat_vars(count: usize) -> (r: String)
    requires
        count >= 1,
    ensures
        r@ == spec_repeat_vars(count as int),
{
    let mut r = String::new();
    let mut i: usize = count;
    while i > 1
        invariant
            1 <= i <= count,
            spec_repeat_vars(count as int) == r@ + spec_repeat_vars(i as int),
        decreases i,
    {
        let ghost before = r@;
        r.append("?,");
        proof {
            assert(spec_repeat_vars(i as int) == "?,"@ + spec_repeat_vars(i - 1));
            assert(before + ("?,"@ + spec_repeat_vars(i - 1)) =~= (before + "?,"@)
                + spec_repeat_vars(i - 1));
        }
        i = i - 1;
    }
    r.append("?");
    proof {
        assert(spec_repeat_vars(1) == "?"@);
    }
    r
}

/// Lexicographic order on character sequences, by code point; a prefix
/// comes before every longer sequence it starts.
pub open spec fn lex_le(a: Seq<char>, b: Seq<char>) -> bool
    decreases a.len(),
{
    if a.len() == 0 {
        true
    } else if b.len() == 0 {
        false
    } else if a[0] == b[0] {
        lex_le(a.skip(1), b.skip(1))
    } else {
        (a[0] as u32) < (b[0] as u32)
    }
}

/// Whether `a` comes at or before `b` in lexicographic order.
fn lex_le_exec(a: &str, b: &str) -> (r: bool)
    ensures
        r == lex_le(a@, b@),
{
    let n: usize = a.unicode_len();
    let m: usize = b.unicode_len();
    let mut i: usize = 0;
    proof {
        assert(a@.skip(0) =~= a@);
        assert(b@.skip(0) =~= b@);
    }
    loop
        invariant
            n == a@.len(),
            m == b@.len(),
            i <= n && i <= m,
            lex_le(a@, b@) == lex_le(a@.skip(i as int), b@.skip(i as int)),
        decreases n - i,
    {
        if i >= n {
            proof {
                assert(a@.skip(i as int).len() == 0);
            }
            return true;
        }
        if i >= m {
            proof {
                assert(b@.skip(i as int).len() == 0);
                assert(a@.skip(i as int).len() > 0);
            }
            return false;
        }
        let ca = a.get_char(i);
        let cb = b.get_char(i);
        if ca != cb {
            proof {
                assert(a@.skip(i as int)[0] == ca && b@.skip(i as int)[0] == cb);
            }
            return (ca as u32) < (cb as u32);
        }
        proof {
            assert(a@.skip(i as int)[0] == b@.skip(i as int)[0]);
            assert(a@.skip(i as int).skip(1) =~= a@.skip(i + 1));
            assert(b@.skip(i as int).skip(1) =~= b@.skip(i + 1));
        }
        i = i + 1;
    }
}

/// A word inserted into a sorted word list: it goes in front of the first
/// word it does not come after.
pub open spec fn spec_insert_sorted(words: Seq<Seq<char>>, x: Seq<char>) -> Seq<Seq<char>>
    decreases words.len(),
{
    if words.len() == 0 {
        seq![x]
    } else if lex_le(words[0], x) {
        seq![words[0]] + spec_insert_sorted(words.skip(1), x)
    } else {
        seq![x] + words
    }
}

/// A word list sorted by inserting each word, in order, into the sorted
/// list of the words before it.
pub open spec fn spec_sort_tags(words: Seq<Seq<char>>) -> Seq<Seq<char>>
    decreases words.len(),
{
    if words.len() == 0 {
        Seq::empty()
    } else {
        spec_insert_sorted(spec_sort_tags(words.drop_last()), words.last())
    }
}

/// Whether each word comes at or before the next: the list is in
/// lexicographic order.
pub open spec fn tags_sorted(words: Seq<Seq<char>>) -> bool {
    forall|k: int| 0 <= k < words.len() - 1 ==> lex_le(#[trigger] words[k], words[k + 1])
}

/// The lexicographic order is total: of any two words, one comes at or
/// before the other.
pub proof fn lemma_lex_le_total(a: Seq<char>, b: Seq<char>)
    ensures
        lex_le(a, b) || lex_le(b, a),
    decreases a.len(),
{
    if a.len() == 0 {
        assert(lex_le(a, b));
    } else if b.len() == 0 {
        assert(lex_le(b, a));
    } else if a[0] == b[0] {
        lemma_lex_le_total(a.skip(1), b.skip(1));
    } else {
        vstd::utf8::char_u32_cast(a[0], a[0] as u32);
        vstd::utf8::char_u32_cast(b[0], b[0] as u32);
        assert((a[0] as u32) != (b[0] as u32));
    }
}

pub proof fn lemma_insert_sorted_props(words: Seq<Seq<char>>, x: Seq<char>)
    requires
        tags_sorted(words),
    ensures
        tags_sorted(spec_insert_sorted(words, x)),
        spec_insert_sorted(words, x).to_multiset() == words.to_multiset().insert(x),
    decreases words.len(),
{
    broadcast use vstd::seq_lib::group_to_multiset_ensures;
    broadcast use vstd::multiset::group_multiset_axioms;

    let r = spec_insert_sorted(words, x);
    if words.len() == 0 {
        assert(seq![x] =~= Seq::<Seq<char>>::empty().push(x));
        assert(r.to_multiset() =~= words.to_multiset().insert(x));
    } else if lex_le(words[0], x) {
        assert forall|k: int| 0 <= k < words.skip(1).len() - 1 implies lex_le(
            #[trigger] words.skip(1)[k],
            words.skip(1)[k + 1],
        ) by {
            assert(words.skip(1)[k] == words[k + 1]);
            assert(words.skip(1)[k + 1] == words[k + 2]);
        }
        lemma_insert_sorted_props(words.skip(1), x);
        let rec = spec_insert_sorted(words.skip(1), x);
        vstd::seq_lib::lemma_multiset_commutative(seq![words[0]], rec);
        assert(words =~= seq![words[0]] + words.skip(1));
        vstd::seq_lib::lemma_multiset_commutative(seq![words[0]], words.skip(1));
        assert(seq![words[0]] =~= Seq::<Seq<char>>::empty().push(words[0]));
        assert(Seq::<Seq<char>>::empty().push(words[0]).to_multiset() =~= Seq::<Seq<
            char,
        >>::empty().to_multiset().insert(words[0]));
        assert(Seq::<Seq<char>>::empty().to_multiset() =~= Multiset::<Seq<char>>::empty());
        assert(r =~= seq![words[0]] + rec);
        assert(r.to_multiset() == seq![words[0]].to_multiset().add(rec.to_multiset()));
        assert(words.to_multiset() == seq![words[0]].to_multiset().add(
            words.skip(1).to_multiset(),
        ));
        assert(rec.to_multiset() == words.skip(1).to_multiset().insert(x));
        assert(r.to_multiset() =~= words.to_multiset().insert(x));
        if words.skip(1).len() == 0 {
            assert(rec =~= seq![x]);
            assert(lex_le(words[0], rec[0]));
        } else if lex_le(words.skip(1)[0], x) {
            assert(rec[0] == words.skip(1)[0]);
            assert(words.skip(1)[0] == words[1]);
            assert(lex_le(words[0], rec[0]));
        } else {
            assert(rec[0] == x);
            assert(lex_le(words[0], rec[0]));
        }
        assert forall|k: int| 0 <= k < r.len() - 1 implies lex_le(
            #[trigger] r[k],
            r[k + 1],
        ) by {
            if k == 0 {
                assert(r[0] == words[0] && r[1] == rec[0]);
            } else {
                assert(r[k] == rec[k - 1]);
                assert(r[k + 1] == rec[k]);
                assert(lex_le(rec[k - 1], rec[k]));
            }
        }
    } else {
        lemma_lex_le_total(words[0], x);
        vstd::seq_lib::lemma_multiset_commutative(seq![x], words);
        assert(seq![x] =~= Seq::<Seq<char>>::empty().push(x));
        assert(Seq::<Seq<char>>::empty().push(x).to_multiset() =~= Seq::<Seq<
            char,
        >>::empty().to_multiset().insert(x));
        assert(Seq::<Seq<char>>::empty().to_multiset() =~= Multiset::<Seq<char>>::empty());
        assert(r =~= seq![x] + words);
        assert(r.to_multiset() == seq![x].to_multiset().add(words.to_multiset()));
        assert(r.to_multiset() =~= words.to_multiset().insert(x));
        assert forall|k: int| 0 <= k < r.len() - 1 implies lex_le(
            #[trigger] r[k],
            r[k + 1],
        ) by {
            if k == 0 {
                assert(r[0] == x && r[1] == words[0]);
            } else {
                assert(r[k] == words[k - 1]);
                assert(r[k + 1] == words[k]);
                assert(lex_le(words[k - 1], words[k]));
            }
        }
    }
}

/// Law: the sorted tag list holds exactly the given words — the multiset of
/// words is kept — and stands in lexicographic order.
pub proof fn lemma_sort_tags_is_sorted_permutation(words: Seq<Seq<char>>)
    ensures
        tags_sorted(spec_sort_tags(words)),
        spec_sort_tags(words).to_multiset() == words.to_multiset(),
    decreases words.len(),
{
    broadcast use vstd::seq_lib::group_to_multiset_ensures;

    if words.len() > 0 {
        lemma_sort_tags_is_sorted_permutation(words.drop_last());
        lemma_insert_sorted_props(spec_sort_tags(words.drop_last()), words.last());
        assert(words =~= words.drop_last().push(words.last()));
        assert(spec_sort_tags(words).to_multiset() =~= words.to_multiset());
    }
}

/// The views of a vector of strings.
pub open spec fn tag_views(strs: Seq<String>) -> Seq<Seq<char>> {
    Seq::new(strs.len(), |i: int| strs[i]@)
}

/// The views of a vector of string slices.
pub open spec fn slice_views(strs: Seq<&str>) -> Seq<Seq<char>> {
    Seq::new(strs.len(), |i: int| strs[i]@)
}

/// End of the word starting at `i`: the position of the next white space,
/// or the end of the text.
pub open spec fn word_end(s: Seq<char>, i: int) -> int
    decreases s.len() - i,
{
    if 0 <= i < s.len() && !crate::query::is_trim_space(s[i]) {
        word_end(s, i + 1)
    } else {
        i
    }
}

/// The white-space-separated words of the text from position `i` on.
pub open spec fn words_from(s: Seq<char>, i: int) -> Seq<Seq<char>>
    decreases s.len() - i,
{
    if 0 <= i < s.len() {
        let j = word_end(s, i);
        if i <= j < s.len() {
            let piece = s.subrange(i, j);
            let rest = words_from(s, j + 1);
            if piece.len() == 0 {
                rest
            } else {
                seq![piece] + rest
            }
        } else if i <= j && j == s.len() {
            let piece = s.subrange(i, j);
            if piece.len() == 0 {
                Seq::empty()
            } else {
                seq![piece]
            }
        } else {
            Seq::empty()
        }
    } else {
        Seq::empty()
    }
}

/// The white-space-separated words of a text.
pub open spec fn spec_words(s: Seq<char>) -> Seq<Seq<char>> {
    words_from(s, 0)
}

/// Whether the character is white space.
fn is_ws_char(c: char) -> (r: bool)
    ensures
        r == crate::query::is_trim_space(c),
{
    let u = c as u32;
    c == '\u{0009}' || c == '\u{000A}' || c == '\u{000B}' || c == '\u{000C}' || c
        == '\u{000D}' || c == ' ' || c == '\u{0085}' || c == '\u{00A0}' || c == '\u{1680}'
        || (('\u{2000}' as u32) <= u && u <= ('\u{200A}' as u32)) || c == '\u{2028}' || c
        == '\u{2029}' || c == '\u{202F}' || c == '\u{205F}' || c == '\u{3000}'
}

/// The white-space-separated words of the text, in order.
fn split_words(text: &str) -> (r: Vec<String>)
    ensures
        tag_views(r@) == spec_words(text@),
{
    let s = crate::text::str_to_chars(text);
    let mut r: Vec<String> = Vec::new();
    let mut i: usize = 0;
    proof {
        assert(tag_views(r@) =~= Seq::<Seq<char>>::empty());
        assert(Seq::<Seq<char>>::empty() + words_from(s@, 0) =~= words_from(s@, 0));
    }
    while i < s.len()
        invariant
            s@ == text@,
            i <= s@.len() + 1,
            words_from(s@, 0) == tag_views(r@) + words_from(s@, i as int),
        decreases s@.len() + 1 - i,
    {
        let mut j: usize = i;
        while j < s.len() && !is_ws_char(s[j])
            invariant
                i <= j <= s@.len(),
                word_end(s@, i as int) == word_end(s@, j as int),
            decreases s@.len() - j,
        {
            j = j + 1;
        }
        let ghost old_r = r@;
        if j > i {
            let piece = crate::text::chars_range_to_string(&s, i, j);
            r.push(piece);
        }
        proof {
            let piece = s@.subrange(i as int, j as int);
            if j > i {
                assert(tag_views(r@) =~= tag_views(old_r).push(piece));
            }
            if piece.len() == 0 {
                assert(words_from(s@, i as int) == words_from(s@, j + 1));
                assert(tag_views(r@) + words_from(s@, j + 1) =~= tag_views(old_r) + words_from(
                    s@,
                    i as int,
                ));
            } else {
                if (j as int) < s@.len() {
                    assert(words_from(s@, i as int) == seq![piece] + words_from(s@, j + 1));
                } else {
                    assert(words_from(s@, i as int) =~= seq![piece]);
                    assert(words_from(s@, j + 1) =~= Seq::<Seq<char>>::empty());
                }
                assert(tag_views(old_r).push(piece) + words_from(s@, j + 1) =~= tag_views(
                    old_r,
                ) + (seq![piece] + words_from(s@, j + 1)));
                assert(seq![piece] + words_from(s@, j + 1) =~= words_from(s@, i as int));
            }
        }
        if j < s.len() {
            i = j + 1;
        } else {
            proof {
                assert(words_from(s@, j as int) =~= Seq::<Seq<char>>::empty());
                assert(words_from(s@, j + 1) =~= Seq::<Seq<char>>::empty());
            }
            i = j;
        }
    }
    proof {
        assert(words_from(s@, i as int) =~= Seq::<Seq<char>>::empty());
        assert(tag_views(r@) + Seq::<Seq<char>>::empty() =~= tag_views(r@));
    }
    r
}

/// Insert a word into an already sorted list, keeping it sorted.
fn insert_tag_sorted(list: &mut Vec<String>, x: String)
    ensures
        tag_views(final(list)@) == spec_insert_sorted(tag_views(old(list)@), x@),
{
    let ghost full = tag_views(list@);
    let mut i: usize = 0;
    proof {
        assert(full.take(0) =~= Seq::<Seq<char>>::empty());
        assert(Seq::<Seq<char>>::empty() + spec_insert_sorted(full.skip(0), x@)
            =~= spec_insert_sorted(full.skip(0), x@));
        assert(full.skip(0) =~= full);
    }
    while i < list.len() && lex_le_exec(list[i].as_str(), x.as_str())
        invariant
            i <= list@.len(),
            list == old(list),
            full == tag_views(list@),
            spec_insert_sorted(full, x@) == full.take(i as int) + spec_insert_sorted(
                full.skip(i as int),
                x@,
            ),
        decreases list@.len() - i,
    {
        proof {
            assert(full.skip(i as int)[0] == list@[i as int]@);
            assert(lex_le(full.skip(i as int)[0], x@));
            assert(full.skip(i as int).skip(1) =~= full.skip(i + 1));
            assert(spec_insert_sorted(full.skip(i as int), x@) == seq![full[i as int]]
                + spec_insert_sorted(full.skip(i + 1), x@));
            assert(full.take(i as int) + (seq![full[i as int]] + spec_insert_sorted(
                full.skip(i + 1),
                x@,
            )) =~= full.take(i + 1) + spec_insert_sorted(full.skip(i + 1), x@));
        }
        i = i + 1;
    }
    proof {
        if i < list@.len() {
            assert(full.skip(i as int)[0] == list@[i as int]@);
            assert(spec_insert_sorted(full.skip(i as int), x@) == seq![x@] + full.skip(
                i as int,
            ));
        } else {
            assert(full.skip(i as int).len() == 0);
            assert(spec_insert_sorted(full.skip(i as int), x@) =~= seq![x@]);
            assert(seq![x@] + full.skip(i as int) =~= seq![x@]);
        }
        assert(spec_insert_sorted(full, x@) == full.take(i as int) + (seq![x@] + full.skip(
            i as int,
        )));
    }
    let ghost before = list@;
    list.insert(i, x);
    proof {
        assert(tag_views(list@) =~= full.take(i as int) + (seq![x@] + full.skip(i as int)));
    }
}

/// Sort a list of tags into lexicographic order.
fn sort_tags(tags: Vec<String>) -> (r: Vec<String>)
    ensures
        tag_views(r@) == spec_sort_tags(tag_views(tags@)),
{
    let ghost words = tag_views(tags@);
    let mut r: Vec<String> = Vec::new();
    let mut k: usize = 0;
    proof {
        assert(words.take(0) =~= Seq::<Seq<char>>::empty());
        assert(tag_views(r@) =~= spec_sort_tags(words.take(0)));
    }
    while k < tags.len()
        invariant
            k <= tags@.len(),
            words == tag_views(tags@),
            tag_views(r@) == spec_sort_tags(words.take(k as int)),
        decreases tags@.len() - k,
    {
        let ghost taken = words.take(k as int);
        let x = tags[k].clone();
        proof {
            assert(x@ == words[k as int]);
            assert(words.take(k + 1).drop_last() =~= taken);
            assert(words.take(k + 1).last() == words[k as int]);
            assert(words.take(k + 1).len() > 0);
        }
        insert_tag_sorted(&mut r, x);
        k = k + 1;
    }
    proof {
        assert(words.take(tags@.len() as int) =~= words);
    }
    r
}

/// A value that can be read as a list of tags.
pub trait IntoTags: Sized {
    /// The tag words this value stands for, in their given order.
    spec fn tag_words(self) -> Seq<Seq<char>>;

    /// The tags as a list sorted into lexicographic order.
    fn into_tags(self) -> (r: Vec<String>)
        ensures
            tag_views(r@) == spec_sort_tags(self.tag_words()),
    ;
}

impl IntoTags for String {
    open spec fn tag_words(self) -> Seq<Seq<char>> {
        spec_words(self@)
    }

    fn into_tags(self) -> (r: Vec<String>) {
        sort_tags(split_words(self.as_str()))
    }
}

impl<'a> IntoTags for &'a str {
    open spec fn tag_words(self) -> Seq<Seq<char>> {
        spec_words(self@)
    }

    fn into_tags(self) -> (r: Vec<String>) {
        sort_tags(split_words(self))
    }
}

impl IntoTags for Vec<String> {
    open spec fn tag_words(self) -> Seq<Seq<char>> {
        tag_views(self@)
    }

    fn into_tags(self) -> (r: Vec<String>) {
        sort_tags(self)
    }
}

impl<'a> IntoTags for &'a Vec<String> {
    open spec fn tag_words(self) -> Seq<Seq<char>> {
        tag_views(self@)
    }

    fn into_tags(self) -> (r: Vec<String>) {
        let mut owned: Vec<String> = Vec::new();
        let mut i: usize = 0;
        while i < self.len()
            invariant
                i <= self@.len(),
                tag_views(owned@) == tag_views(self@).take(i as int),
            decreases self@.len() - i,
        {
            let s = self[i].clone();
            proof {
                assert(tag_views(owned@.push(s)) =~= tag_views(owned@).push(s@));
                assert(tag_views(self@).take(i + 1) =~= tag_views(self@).take(i as int).push(
                    tag_views(self@)[i as int],
                ));
            }
            owned.push(s);
            i = i + 1;
        }
        proof {
            assert(tag_views(self@).take(self@.len() as int) =~= tag_views(self@));
        }
        sort_tags(owned)
    }
}

impl<'a> IntoTags for Vec<&'a str> {
    open spec fn tag_words(self) -> Seq<Seq<char>> {
        slice_views(self@)
    }

    fn into_tags(self) -> (r: Vec<String>) {
        let mut owned: Vec<String> = Vec::new();
        let mut i: usize = 0;
        while i < self.len()
            invariant
                i <= self@.len(),
                tag_views(owned@) == slice_views(self@).take(i as int),
            decreases self@.len() - i,
        {
            let s = String::from_str(self[i]);
            proof {
                assert(tag_views(owned@.push(s)) =~= tag_views(owned@).push(s@));
                assert(slice_views(self@).take(i + 1) =~= slice_views(self@).take(
                    i as int,
                ).push(slice_views(self@)[i as int]));
            }
            owned.push(s);
            i = i + 1;
        }
        proof {
            assert(slice_views(self@).take(self@.len() as int) =~= slice_views(self@));
        }
        sort_tags(owned)
    }
}

impl<'a, 'b> IntoTags for &'a Vec<&'b str> {
    open spec fn tag_words(self) -> Seq<Seq<char>> {
        slice_views(self@)
    }

    fn into_tags(self) -> (r: Vec<String>) {
        let mut owned: Vec<String> = Vec::new();
        let mut i: usize = 0;
        while i < self.len()
            invariant
                i <= self@.len(),
                tag_views(owned@) == slice_views(self@).take(i as int),
            decreases self@.len() - i,
        {
            let s = String::from_str(self[i]);
            proof {
                assert(tag_views(owned@.push(s)) =~= tag_views(owned@).push(s@));
                assert(slice_views(self@).take(i + 1) =~= slice_views(self@).take(
                    i as int,
                ).push(slice_views(self@)[i as int]));
            }
            owned.push(s);
            i = i + 1;
        }
        proof {
            assert(slice_views(self@).take(self@.len() as int) =~= slice_views(self@));
        }
        sort_tags(owned)
    }
}

} // verus!
