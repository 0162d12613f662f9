//! Building a folder tree from a flat list of directory paths.

use vstd::prelude::*;

verus! {

/// A folder and its sub-folders, each child keyed by its directory name.
/// Children are kept in the order their names were first seen, each name at
/// most once.
#[derive(Debug, PartialEq, Eq)]
pub struct FolderBuf {
    children: Vec<(String, FolderBuf)>,
}

/// The mathematical shape of a folder tree.
pub struct FolderModel {
    pub children: Seq<(Seq<char>, FolderModel)>,
}

impl FolderBuf {
    /// The mathematical value of this folder tree.
    pub closed spec fn model(self) -> FolderModel
        decreases self,
    {
        FolderModel { children: child_models(self.children@) }
    }
}

/// The mathematical values of a list of named children, in order.
pub open spec fn child_models(cs: Seq<(String, FolderBuf)>) -> Seq<(Seq<char>, FolderModel)>
    decreases cs,
{
    if cs.len() == 0 {
        Seq::empty()
    } else {
        seq![(cs[0].0@, cs[0].1.model())] + child_models(cs.skip(1))
    }
}

pub proof fn lemma_child_models_len(cs: Seq<(String, FolderBuf)>)
    ensures
        child_models(cs).len() == cs.len(),
    decreases cs.len(),
{
    if cs.len() > 0 {
        lemma_child_models_len(cs.skip(1));
    }
}

pub proof fn lemma_child_models_index(cs: Seq<(String, FolderBuf)>, i: int)
    requires
        0 <= i < cs.len(),
    ensures
        child_models(cs).len() == cs.len(),
        child_models(cs)[i] == (cs[i].0@, cs[i].1.model()),
    decreases i,
{
    lemma_child_models_len(cs);
    lemma_child_models_len(cs.skip(1));
    if i > 0 {
        lemma_child_models_index(cs.skip(1), i - 1);
    }
}

/// The empty folder.
pub open spec fn empty_folder() -> FolderModel {
    FolderModel { children: Seq::empty() }
}

/// End of the path segment starting at `i`: the position of the next slash,
/// or the end of the path.
pub open spec fn seg_end(s: Seq<char>, i: int) -> int
    decreases s.len() - i,
{
    if 0 <= i < s.len() && s[i] != '/' {
        seg_end(s, i + 1)
    } else {
        i
    }
}

/// The components of the path from position `i` on: the text between
/// slashes, empty pieces dropped.
pub open spec fn components_from(s: Seq<char>, i: int) -> Seq<Seq<char>>
    decreases s.len() - i,
{
    if 0 <= i < s.len() {
        let j = seg_end(s, i);
        if i <= j < s.len() {
            let piece = s.subrange(i, j);
            let rest = components_from(s, j + 1);
            if piece.len() == 0 {
                rest
            } else {
                seq![piece] + rest
            }
        } else if i <= j && j == s.len() {
            let piece = s.subrange(i, j);
            if piece.len() == 0 {
                Seq::empty()
            } else {
                seq![piece]
            }
        } else {
            Seq::empty()
        }
    } else {
        Seq::empty()
    }
}

/// The slash-separated components of a path.
pub open spec fn spec_components(path: Seq<char>) -> Seq<Seq<char>> {
    components_from(path, 0)
}

/// The position of the first child with this name, or `-1` when no child
/// has it.
pub open spec fn find_child(cs: Seq<(Seq<char>, FolderModel)>, name: Seq<char>) -> int
    decreases cs.len(),
{
    if cs.len() == 0 {
        -1
    } else if cs[0].0 == name {
        0
    } else {
        let r = find_child(cs.skip(1), name);
        if r < 0 {
            -1
        } else {
            r + 1
        }
    }
}

pub proof fn lemma_find_child(cs: Seq<(Seq<char>, FolderModel)>, name: Seq<char>)
    ensures
        find_child(cs, name) < cs.len(),
        find_child(cs, name) >= 0 ==> cs[find_child(cs, name)].0 == name,
        find_child(cs, name) >= 0 ==> forall|k: int|
            0 <= k < find_child(cs, name) ==> cs[k].0 != name,
        find_child(cs, name) < 0 ==> forall|k: int| 0 <= k < cs.len() ==> cs[k].0 != name,
    decreases cs.len(),
{
    if cs.len() > 0 && cs[0].0 != name {
        lemma_find_child(cs.skip(1), name);
        let r = find_child(cs.skip(1), name);
        if r >= 0 {
            assert forall|k: int| 0 <= k < r + 1 implies cs[k].0 != name by {
                if k > 0 {
                    assert(cs.skip(1)[k - 1] == cs[k]);
                }
            }
        } else {
            assert forall|k: int| 0 <= k < cs.len() implies cs[k].0 != name by {
                if k > 0 {
                    assert(cs.skip(1)[k - 1] == cs[k]);
                }
            }
        }
    }
}

/// A path's components inserted into a folder tree: each component steps
/// into the child of that name, created at the end of the child list when
/// missing.
pub open spec fn spec_insert(f: FolderModel, comps: Seq<Seq<char>>) -> FolderModel
    decreases comps.len(),
{
    if comps.len() == 0 {
        f
    } else {
        let name = comps[0];
        let idx = find_child(f.children, name);
        if 0 <= idx < f.children.len() {
            FolderModel {
                children: f.children.update(
                    idx,
                    (name, spec_insert(f.children[idx].1, comps.skip(1))),
                ),
            }
        } else {
            FolderModel {
                children: f.children.push((name, spec_insert(empty_folder(), comps.skip(1)))),
            }
        }
    }
}

/// All the paths inserted into the tree, first to last.
pub open spec fn spec_insert_all(f: FolderModel, paths: Seq<Seq<char>>) -> FolderModel
    decreases paths.len(),
{
    if paths.len() == 0 {
        f
    } else {
        spec_insert_all(spec_insert(f, spec_components(paths[0])), paths.skip(1))
    }
}

/// The folder tree of a list of paths.
pub open spec fn spec_tree_of(paths: Seq<Seq<char>>) -> FolderModel {
    spec_insert_all(empty_folder(), paths)
}

/// The views of a vector of strings.
pub open spec fn string_views(strs: Seq<String>) -> Seq<Seq<char>> {
    Seq::new(strs.len(), |i: int| strs[i]@)
}

/// Why building a folder tree can fail. Paths handed over as strings are
/// always well formed, so building never does fail; the variant is kept for
/// callers that report it.
#[derive(Debug, PartialEq, Eq)]
pub enum PathTreeError {
    /// A path that could not be read as text.
    MalformedPath(String),
}

pub proof fn lemma_child_models_update(cs: Seq<(String, FolderBuf)>, i: int, p: (String, FolderBuf))
    requires
        0 <= i < cs.len(),
    ensures
        child_models(cs.update(i, p)) == child_models(cs).update(i, (p.0@, p.1.model())),
    decreases i,
{
    lemma_child_models_len(cs);
    lemma_child_models_len(cs.update(i, p));
    if i == 0 {
        assert(cs.update(0, p)[0] == p);
        assert(cs.update(0, p).skip(1) =~= cs.skip(1));
        assert(child_models(cs.update(0, p)) =~= child_models(cs).update(
            0,
            (p.0@, p.1.model()),
        ));
    } else {
        assert(cs.update(i, p)[0] == cs[0]);
        assert(cs.update(i, p).skip(1) =~= cs.skip(1).update(i - 1, p));
        lemma_child_models_update(cs.skip(1), i - 1, p);
        assert(child_models(cs.update(i, p)) =~= child_models(cs).update(
            i,
            (p.0@, p.1.model()),
        ));
    }
}

pub proof fn lemma_child_models_push(cs: Seq<(String, FolderBuf)>, p: (String, FolderBuf))
    ensures
        child_models(cs.push(p)) == child_models(cs).push((p.0@, p.1.model())),
    decreases cs.len(),
{
    if cs.len() == 0 {
        assert(cs.push(p)[0] == p);
        assert(cs.push(p).skip(1) =~= Seq::<(String, FolderBuf)>::empty());
        assert(child_models(cs.push(p).skip(1)) == Seq::<(Seq<char>, FolderModel)>::empty());
        assert(child_models(cs.push(p)) =~= child_models(cs).push((p.0@, p.1.model())));
    } else {
        assert(cs.push(p)[0] == cs[0]);
        assert(cs.push(p).skip(1) =~= cs.skip(1).push(p));
        lemma_child_models_push(cs.skip(1), p);
        assert(child_models(cs.push(p)) =~= child_models(cs).push((p.0@, p.1.model())));
    }
}

/// The slash-separated components of a path, empty pieces dropped.
fn split_components(path: &str) -> (r: Vec<String>)
    ensures
        string_views(r@) == spec_components(path@),
{
    let s = crate::text::str_to_chars(path);
    let mut r: Vec<String> = Vec::new();
    let mut i: usize = 0;
    proof {
        assert(string_views(r@) =~= Seq::<Seq<char>>::empty());
        assert(Seq::<Seq<char>>::empty() + components_from(s@, 0) =~= components_from(s@, 0));
    }
    while i < s.len()
        invariant
            s@ == path@,
            i <= s@.len() + 1,
            components_from(s@, 0) == string_views(r@) + components_from(s@, i as int),
        decreases s@.len() + 1 - i,
    {
        let mut j: usize = i;
        while j < s.len() && s[j] != '/'
            invariant
                i <= j <= s.len(),
                seg_end(s@, i as int) == seg_end(s@, j as int),
            decreases s@.len() - j,
        {
            j = j + 1;
        }
        let ghost old_r = r@;
        if j > i {
            let piece = crate::text::chars_range_to_string(&s, i, j);
            r.push(piece);
        }
        proof {
            let piece = s@.subrange(i as int, j as int);
            if j > i {
                assert(string_views(r@) =~= string_views(old_r).push(piece));
            }
            if piece.len() == 0 {
                assert(components_from(s@, i as int) == components_from(s@, j + 1));
                assert(string_views(r@) + components_from(s@, j + 1) =~= string_views(old_r)
                    + components_from(s@, i as int));
            } else {
                if (j as int) < s@.len() {
                    assert(components_from(s@, i as int) == seq![piece] + components_from(
                        s@,
                        j + 1,
                    ));
                } else {
                    assert(components_from(s@, i as int) =~= seq![piece]);
                    assert(components_from(s@, j + 1) =~= Seq::<Seq<char>>::empty());
                }
                assert(string_views(old_r).push(piece) + components_from(s@, j + 1)
                    =~= string_views(old_r) + (seq![piece] + components_from(s@, j + 1)));
                assert(seq![piece] + components_from(s@, j + 1) =~= components_from(
                    s@,
                    i as int,
                ));
            }
        }
        if j < s.len() {
            i = j + 1;
        } else {
            proof {
                assert(components_from(s@, j as int) =~= Seq::<Seq<char>>::empty());
                assert(components_from(s@, j + 1) =~= Seq::<Seq<char>>::empty());
            }
            i = j;
        }
    }
    proof {
        assert(components_from(s@, i as int) =~= Seq::<Seq<char>>::empty());
        assert(string_views(r@) + Seq::<Seq<char>>::empty() =~= string_views(r@));
    }
    r
}

impl FolderBuf {
    /// A new folder with no children.
    pub fn new() -> (r: FolderBuf)
        ensures
            r.model() == empty_folder(),
    {
        let r = FolderBuf { children: Vec::new() };
        proof {
            assert(r.model().children =~= Seq::<(Seq<char>, FolderModel)>::empty());
        }
        r
    }

    /// How many children this folder has.
    pub fn child_count(&self) -> (r: usize)
        ensures
            r as int == self.model().children.len(),
    {
        proof {
            lemma_child_models_len(self.children@);
        }
        self.children.len()
    }

    /// The name of the child at this position.
    pub fn child_name(&self, i: usize) -> (r: &String)
        requires
            i < self.model().children.len(),
        ensures
            r@ == self.model().children[i as int].0,
    {
        proof {
            lemma_child_models_len(self.children@);
            lemma_child_models_index(self.children@, i as int);
        }
        &self.children[i].0
    }

    /// The child folder at this position.
    pub fn child_at(&self, i: usize) -> (r: &FolderBuf)
        requires
            i < self.model().children.len(),
        ensures
            r.model() == self.model().children[i as int].1,
    {
        proof {
            lemma_child_models_len(self.children@);
            lemma_child_models_index(self.children@, i as int);
        }
        &self.children[i].1
    }

    /// Insert the components `comps[from..]` into this tree, stepping into
    /// or creating one child per component.
    fn insert_components(&mut self, comps: &Vec<String>, from: usize)
        requires
            from <= comps@.len(),
        ensures
            final(self).model() == spec_insert(
                old(self).model(),
                string_views(comps@).skip(from as int),
            ),
        decreases comps@.len() - from,
    {
        proof {
            lemma_child_models_len(self.children@);
        }
        if from == comps.len() {
            proof {
                assert(string_views(comps@).skip(from as int) =~= Seq::<Seq<char>>::empty());
            }
            return ;
        }
        let ghost rest = string_views(comps@).skip(from as int);
        proof {
            assert(rest[0] == comps@[from as int]@);
            assert(rest.skip(1) =~= string_views(comps@).skip(from + 1));
        }
        let name = &comps[from];
        let n = self.children.len();
        let mut i: usize = 0;
        while i < n && !self.children[i].0.eq(name)
            invariant
                n == self.children@.len(),
                i <= n,
                self == old(self),
                from < comps@.len(),
                name == &comps@[from as int],
                forall|k: int| 0 <= k < i ==> #[trigger] self.children@[k].0@ != name@,
            decreases n - i,
        {
            i = i + 1;
        }
        let ghost cm = old(self).model().children;
        proof {
            assert forall|k: int| 0 <= k < cm.len() implies #[trigger] cm[k] == (
                self.children@[k].0@,
                self.children@[k].1.model(),
            ) by {
                lemma_child_models_index(self.children@, k);
            }
            lemma_find_child(cm, name@);
        }
        if i < n {
            proof {
                assert(cm[i as int].0 == name@);
                assert(find_child(cm, name@) == i as int);
            }
            let ghost before = self.children@;
            let mut pair = self.children.remove(i);
            pair.1.insert_components(comps, from + 1);
            let ghost new_pair = pair;
            self.children.insert(i, pair);
            proof {
                assert(self.children@ =~= before.update(i as int, new_pair));
                lemma_child_models_update(before, i as int, new_pair);
                assert((new_pair.0@, new_pair.1.model()) == (
                    name@,
                    spec_insert(cm[i as int].1, rest.skip(1)),
                ));
                assert(self.model().children =~= spec_insert(old(self).model(), rest).children);
                assert(self.model() == spec_insert(old(self).model(), rest));
            }
        } else {
            proof {
                assert(find_child(cm, name@) < 0) by {
                    if find_child(cm, name@) >= 0 {
                        assert(cm[find_child(cm, name@)].0 == name@);
                    }
                }
            }
            let ghost before = self.children@;
            let mut child = FolderBuf::new();
            child.insert_components(comps, from + 1);
            let owned_name = name.clone();
            let ghost new_pair = (owned_name, child);
            self.children.push((owned_name, child));
            proof {
                lemma_child_models_push(before, new_pair);
                assert((new_pair.0@, new_pair.1.model()) == (
                    name@,
                    spec_insert(empty_folder(), rest.skip(1)),
                ));
                assert(self.model().children =~= spec_insert(old(self).model(), rest).children);
                assert(self.model() == spec_insert(old(self).model(), rest));
            }
        }
    }
}

/// Construct a folder tree from a list of slash-separated directory paths,
/// inserted in the given order.
pub fn from_ordered_paths(paths: &Vec<String>) -> (r: Result<FolderBuf, PathTreeError>)
    ensures
        match r {
            Ok(tree) => tree.model() == spec_tree_of(string_views(paths@)),
            Err(_) => false,
        },
{
    let ghost all = string_views(paths@);
    let mut root = FolderBuf::new();
    let mut idx: usize = 0;
    proof {
        assert(all.skip(0) =~= all);
    }
    while idx < paths.len()
        invariant
            idx <= paths@.len(),
            all == string_views(paths@),
            spec_insert_all(root.model(), all.skip(idx as int)) == spec_tree_of(all),
        decreases paths@.len() - idx,
    {
        let comps = split_components(paths[idx].as_str());
        proof {
            assert(all.skip(idx as int)[0] == paths@[idx as int]@);
            assert(all.skip(idx as int).len() > 0);
            assert(all.skip(idx as int).skip(1) =~= all.skip(idx + 1));
        }
        let ghost prev = root.model();
        root.insert_components(&comps, 0);
        proof {
            assert(string_views(comps@).skip(0) =~= string_views(comps@));
            assert(root.model() == spec_insert(prev, spec_components(paths@[idx as int]@)));
            assert(spec_insert_all(prev, all.skip(idx as int)) == spec_insert_all(
                root.model(),
                all.skip(idx + 1),
            ));
        }
        idx = idx + 1;
    }
    proof {
        assert(all.skip(paths@.len() as int) =~= Seq::<Seq<char>>::empty());
    }
    Ok(root)
}

} // verus!
