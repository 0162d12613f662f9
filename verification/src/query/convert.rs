//! Compilation of a parsed query into SQL.
//!
//! The expression tree is first turned into a `WhereClause`, an intermediate
//! form that separates full-text-searchable sub-expressions (`FTSPart`) from
//! structural path predicates, merging the full-text members of each group
//! into a single node. The two renderers then turn a `FTSPart` into the
//! full-text mini-query string and a `WhereClause` into a SQL boolean
//! expression.

use vstd::prelude::*;

use crate::query::parser::Expr;
use crate::query::parser::ExprModel;
use crate::text::push_char;

verus! {

/// A compiled boolean filter: one full-text node per group plus structural
/// predicates over the item's path.
#[derive(Debug, PartialEq, Eq)]
pub enum WhereClause {
    /// A full-text-search sub-query.
    FTS(FTSPart),
    /// The item lies (anywhere) below this directory.
    InDir(String),
    /// The item's file extension matches.
    HasExt(String),
    /// The item's path contains this text.
    InPath(String),
    /// The item is a direct child of this directory.
    ChildrenOf(String),
    /// The item's path starts with this text.
    LeadingPath(String),
    And(Vec<WhereClause>),
    Or(Vec<WhereClause>),
    Not(Box<WhereClause>),
}

/// A full-text-search sub-query over tag phrases.
#[derive(Debug, PartialEq, Eq)]
pub enum FTSPart {
    /// One tag phrase.
    Phrase(String),
    And(Vec<FTSPart>),
    Or(Vec<FTSPart>),
    Not(Box<FTSPart>),
}

/// The mathematical shape of an `FTSPart`.
pub enum FtsModel {
    Phrase(Seq<char>),
    And(Seq<FtsModel>),
    Or(Seq<FtsModel>),
    Not(Box<FtsModel>),
}

/// The mathematical shape of a `WhereClause`.
pub enum ClauseModel {
    Fts(FtsModel),
    InDir(Seq<char>),
    HasExt(Seq<char>),
    InPath(Seq<char>),
    ChildrenOf(Seq<char>),
    LeadingPath(Seq<char>),
    And(Seq<ClauseModel>),
    Or(Seq<ClauseModel>),
    Not(Box<ClauseModel>),
}

impl FTSPart {
    /// The mathematical value of this full-text tree.
    pub open spec fn model(self) -> FtsModel
        decreases self,
    {
        match self {
            FTSPart::Phrase(name) => FtsModel::Phrase(name@),
            FTSPart::And(children) => FtsModel::And(fts_models(children@)),
            FTSPart::Or(children) => FtsModel::Or(fts_models(children@)),
            FTSPart::Not(child) => FtsModel::Not(Box::new((*child).model())),
        }
    }
}

/// The mathematical values of a sequence of full-text trees, in order.
pub open spec fn fts_models(parts: Seq<FTSPart>) -> Seq<FtsModel>
    decreases parts,
{
    if parts.len() == 0 {
        Seq::empty()
    } else {
        seq![parts[0].model()] + fts_models(parts.skip(1))
    }
}

impl WhereClause {
    /// The mathematical value of this clause tree.
    pub open spec fn model(self) -> ClauseModel
        decreases self,
    {
        match self {
            WhereClause::FTS(part) => ClauseModel::Fts(part.model()),
            WhereClause::InDir(path) => ClauseModel::InDir(path@),
            WhereClause::HasExt(ext) => ClauseModel::HasExt(ext@),
            WhereClause::InPath(path) => ClauseModel::InPath(path@),
            WhereClause::ChildrenOf(path) => ClauseModel::ChildrenOf(path@),
            WhereClause::LeadingPath(path) => ClauseModel::LeadingPath(path@),
            WhereClause::And(children) => ClauseModel::And(clause_models(children@)),
            WhereClause::Or(children) => ClauseModel::Or(clause_models(children@)),
            WhereClause::Not(child) => ClauseModel::Not(Box::new((*child).model())),
        }
    }
}

/// The mathematical values of a sequence of clause trees, in order.
pub open spec fn clause_models(clauses: Seq<WhereClause>) -> Seq<ClauseModel>
    decreases clauses,
{
    if clauses.len() == 0 {
        Seq::empty()
    } else {
        seq![clauses[0].model()] + clause_models(clauses.skip(1))
    }
}

pub proof fn lemma_fts_models_len(parts: Seq<FTSPart>)
    ensures
        fts_models(parts).len() == parts.len(),
    decreases parts.len(),
{
    if parts.len() > 0 {
        lemma_fts_models_len(parts.skip(1));
    }
}

pub proof fn lemma_fts_models_index(parts: Seq<FTSPart>, i: int)
    requires
        0 <= i < parts.len(),
    ensures
        fts_models(parts).len() == parts.len(),
        fts_models(parts)[i] == parts[i].model(),
    decreases i,
{
    lemma_fts_models_len(parts);
    lemma_fts_models_len(parts.skip(1));
    if i > 0 {
        lemma_fts_models_index(parts.skip(1), i - 1);
    }
}

pub proof fn lemma_fts_models_concat(a: Seq<FTSPart>, b: Seq<FTSPart>)
    ensures
        fts_models(a + b) == fts_models(a) + fts_models(b),
    decreases a.len(),
{
    if a.len() == 0 {
        assert(a + b =~= b);
        assert(fts_models(a) + fts_models(b) =~= fts_models(b));
    } else {
        assert((a + b).skip(1) =~= a.skip(1) + b);
        assert((a + b)[0] == a[0]);
        lemma_fts_models_concat(a.skip(1), b);
        assert(seq![a[0].model()] + (fts_models(a.skip(1)) + fts_models(b)) =~= (seq![
            a[0].model(),
        ] + fts_models(a.skip(1))) + fts_models(b));
    }
}

pub proof fn lemma_fts_models_push(parts: Seq<FTSPart>, p: FTSPart)
    ensures
        fts_models(parts.push(p)) == fts_models(parts).push(p.model()),
{
    assert(parts.push(p) =~= parts + seq![p]);
    lemma_fts_models_concat(parts, seq![p]);
    assert(seq![p].skip(1) =~= Seq::<FTSPart>::empty());
    assert(fts_models(seq![p].skip(1)) == Seq::<FtsModel>::empty());
    assert(fts_models(seq![p]) =~= seq![p.model()]);
    assert(fts_models(parts) + seq![p.model()] =~= fts_models(parts).push(p.model()));
}

pub proof fn lemma_clause_models_len(clauses: Seq<WhereClause>)
    ensures
        clause_models(clauses).len() == clauses.len(),
    decreases clauses.len(),
{
    if clauses.len() > 0 {
        lemma_clause_models_len(clauses.skip(1));
    }
}

pub proof fn lemma_clause_models_concat(a: Seq<WhereClause>, b: Seq<WhereClause>)
    ensures
        clause_models(a + b) == clause_models(a) + clause_models(b),
    decreases a.len(),
{
    if a.len() == 0 {
        assert(a + b =~= b);
        assert(clause_models(a) + clause_models(b) =~= clause_models(b));
    } else {
        assert((a + b).skip(1) =~= a.skip(1) + b);
        assert((a + b)[0] == a[0]);
        lemma_clause_models_concat(a.skip(1), b);
        assert(seq![a[0].model()] + (clause_models(a.skip(1)) + clause_models(b)) =~= (seq![
            a[0].model(),
        ] + clause_models(a.skip(1))) + clause_models(b));
    }
}

pub proof fn lemma_clause_models_push(clauses: Seq<WhereClause>, c: WhereClause)
    ensures
        clause_models(clauses.push(c)) == clause_models(clauses).push(c.model()),
{
    assert(clauses.push(c) =~= clauses + seq![c]);
    lemma_clause_models_concat(clauses, seq![c]);
    assert(seq![c].skip(1) =~= Seq::<WhereClause>::empty());
    assert(clause_models(seq![c].skip(1)) == Seq::<ClauseModel>::empty());
    assert(clause_models(seq![c]) =~= seq![c.model()]);
    assert(clause_models(clauses) + seq![c.model()] =~= clause_models(clauses).push(c.model()));
}

/// The immediate children a full-text node contributes when spliced into an
/// `And` group: its own children for an `And`, itself otherwise.
pub open spec fn fts_and_splice(p: FtsModel) -> Seq<FtsModel> {
    match p {
        FtsModel::And(children) => children,
        _ => seq![p],
    }
}

/// Single-level `And` flattening of a list of full-text nodes.
pub open spec fn fts_flatten_and(parts: Seq<FtsModel>) -> Seq<FtsModel>
    decreases parts.len(),
{
    if parts.len() == 0 {
        Seq::empty()
    } else {
        fts_and_splice(parts[0]) + fts_flatten_and(parts.skip(1))
    }
}

/// The immediate children a full-text node contributes when spliced into an
/// `Or` group.
pub open spec fn fts_or_splice(p: FtsModel) -> Seq<FtsModel> {
    match p {
        FtsModel::Or(children) => children,
        _ => seq![p],
    }
}

/// Single-level `Or` flattening of a list of full-text nodes.
pub open spec fn fts_flatten_or(parts: Seq<FtsModel>) -> Seq<FtsModel>
    decreases parts.len(),
{
    if parts.len() == 0 {
        Seq::empty()
    } else {
        fts_or_splice(parts[0]) + fts_flatten_or(parts.skip(1))
    }
}

/// Combining a non-empty group of full-text nodes into one `And` node: a
/// single node is returned unwrapped, a longer list is flattened one level.
pub open spec fn spec_combine_and(parts: Seq<FtsModel>) -> FtsModel {
    if parts.len() == 1 {
        parts[0]
    } else {
        FtsModel::And(fts_flatten_and(parts))
    }
}

/// Combining a non-empty group of full-text nodes into one `Or` node.
pub open spec fn spec_combine_or(parts: Seq<FtsModel>) -> FtsModel {
    if parts.len() == 1 {
        parts[0]
    } else {
        FtsModel::Or(fts_flatten_or(parts))
    }
}

impl FTSPart {
    /// Merge a non-empty group of full-text nodes into a single `And` node,
    /// splicing in the children of any node that is itself an `And` (one
    /// level only); a single node is returned unwrapped.
    pub fn combine_and(parts: Vec<FTSPart>) -> (r: FTSPart)
        requires
            parts@.len() >= 1,
        ensures
            r.model() == spec_combine_and(fts_models(parts@)),
    {
        proof {
            lemma_fts_models_len(parts@);
        }
        let mut parts = parts;
        if parts.len() == 1 {
            let ghost single = parts@;
            let p = parts.remove(0);
            proof {
                assert(single[0] == p);
                assert(fts_models(single)[0] == single[0].model());
            }
            return p;
        }
        let ghost orig = parts@;
        let mut group: Vec<FTSPart> = Vec::new();
        while parts.len() > 0
            invariant
                fts_flatten_and(fts_models(orig)) == fts_models(group@) + fts_flatten_and(
                    fts_models(parts@),
                ),
            decreases parts@.len(),
        {
            let ghost before = parts@;
            let p = parts.remove(0);
            proof {
                assert(parts@ =~= before.skip(1));
                assert(before[0] == p);
                assert(fts_models(before) == seq![p.model()] + fts_models(before.skip(1)));
                assert(fts_models(before)[0] == p.model());
                assert(fts_models(before).skip(1) =~= fts_models(before.skip(1)));
                assert(fts_flatten_and(fts_models(before)) == fts_and_splice(p.model())
                    + fts_flatten_and(fts_models(parts@)));
            }
            match p {
                FTSPart::And(mut subparts) => {
                    proof {
                        lemma_fts_models_concat(group@, subparts@);
                        assert((fts_models(group@) + fts_models(subparts@)) + fts_flatten_and(
                            fts_models(parts@),
                        ) =~= fts_models(group@) + (fts_models(subparts@) + fts_flatten_and(
                            fts_models(parts@),
                        )));
                    }
                    group.append(&mut subparts);
                },
                p2 => {
                    proof {
                        assert(fts_and_splice(p2.model()) =~= seq![p2.model()]);
                        lemma_fts_models_push(group@, p2);
                        assert(fts_models(group@).push(p2.model()) + fts_flatten_and(
                            fts_models(parts@),
                        ) =~= fts_models(group@) + (seq![p2.model()] + fts_flatten_and(
                            fts_models(parts@),
                        )));
                    }
                    group.push(p2);
                },
            }
        }
        proof {
            assert(fts_models(parts@) =~= Seq::<FtsModel>::empty());
            assert(fts_flatten_and(Seq::<FtsModel>::empty()) == Seq::<FtsModel>::empty());
            assert(fts_flatten_and(fts_models(orig)) =~= fts_models(group@));
        }
        FTSPart::And(group)
    }

    /// Merge a non-empty group of full-text nodes into a single `Or` node,
    /// splicing in the children of any node that is itself an `Or` (one
    /// level only); a single node is returned unwrapped.
    pub fn combine_or(parts: Vec<FTSPart>) -> (r: FTSPart)
        requires
            parts@.len() >= 1,
        ensures
            r.model() == spec_combine_or(fts_models(parts@)),
    {
        proof {
            lemma_fts_models_len(parts@);
        }
        let mut parts = parts;
        if parts.len() == 1 {
            let ghost single = parts@;
            let p = parts.remove(0);
            proof {
                assert(single[0] == p);
                assert(fts_models(single)[0] == single[0].model());
            }
            return p;
        }
        let ghost orig = parts@;
        let mut group: Vec<FTSPart> = Vec::new();
        while parts.len() > 0
            invariant
                fts_flatten_or(fts_models(orig)) == fts_models(group@) + fts_flatten_or(
                    fts_models(parts@),
                ),
            decreases parts@.len(),
        {
            let ghost before = parts@;
            let p = parts.remove(0);
            proof {
                assert(parts@ =~= before.skip(1));
                assert(before[0] == p);
                assert(fts_models(before) == seq![p.model()] + fts_models(before.skip(1)));
                assert(fts_models(before)[0] == p.model());
                assert(fts_models(before).skip(1) =~= fts_models(before.skip(1)));
                assert(fts_flatten_or(fts_models(before)) == fts_or_splice(p.model())
                    + fts_flatten_or(fts_models(parts@)));
            }
            match p {
                FTSPart::Or(mut subparts) => {
                    proof {
                        lemma_fts_models_concat(group@, subparts@);
                        assert((fts_models(group@) + fts_models(subparts@)) + fts_flatten_or(
                            fts_models(parts@),
                        ) =~= fts_models(group@) + (fts_models(subparts@) + fts_flatten_or(
                            fts_models(parts@),
                        )));
                    }
                    group.append(&mut subparts);
                },
                p2 => {
                    proof {
                        assert(fts_or_splice(p2.model()) =~= seq![p2.model()]);
                        lemma_fts_models_push(group@, p2);
                        assert(fts_models(group@).push(p2.model()) + fts_flatten_or(
                            fts_models(parts@),
                        ) =~= fts_models(group@) + (seq![p2.model()] + fts_flatten_or(
                            fts_models(parts@),
                        )));
                    }
                    group.push(p2);
                },
            }
        }
        proof {
            assert(fts_models(parts@) =~= Seq::<FtsModel>::empty());
            assert(fts_flatten_or(Seq::<FtsModel>::empty()) == Seq::<FtsModel>::empty());
            assert(fts_flatten_or(fts_models(orig)) =~= fts_models(group@));
        }
        FTSPart::Or(group)
    }
}

/// Law: combining flattens one level and only one level. An `And` group
/// standing in the combined list is spliced in place, and the nodes around
/// it and inside it are kept unchanged: `combine_and` of `[And([a, b]), c]`
/// is exactly `And([a, b, c])`, whatever `a` and `b` themselves contain —
/// the splice never recurses into them. (When `c` is itself an `And` group
/// it is spliced as well, so that case is left out here.)
pub proof fn lemma_combine_and_flattens(a: FtsModel, b: FtsModel, c: FtsModel)
    requires
        !(c is And),
    ensures
        spec_combine_and(seq![FtsModel::And(seq![a, b]), c]) == FtsModel::And(seq![a, b, c]),
{
    let parts = seq![FtsModel::And(seq![a, b]), c];
    assert(parts.skip(1) =~= seq![c]);
    assert(seq![c].skip(1) =~= Seq::<FtsModel>::empty());
    assert(fts_flatten_and(Seq::<FtsModel>::empty()) == Seq::<FtsModel>::empty());
    assert(fts_and_splice(c) =~= seq![c]);
    assert(fts_flatten_and(seq![c]) =~= seq![c]);
    assert(fts_flatten_and(parts) =~= seq![a, b] + seq![c]);
    assert(seq![a, b] + seq![c] =~= seq![a, b, c]);
}

/// What the clause generator produces for one expression: a compiled clause,
/// or the key of a `key:value` predicate that lies outside the whitelist.
pub open spec fn spec_generate(e: ExprModel) -> Result<ClauseModel, Seq<char>>
    decreases e,
{
    match e {
        ExprModel::And(children) => match spec_generate_list(children) {
            Ok(parts) => {
                if parts.0.len() == 0 {
                    if parts.1.len() == 1 {
                        Ok(parts.1[0])
                    } else {
                        Ok(ClauseModel::And(parts.1))
                    }
                } else {
                    let all = seq![ClauseModel::Fts(spec_combine_and(parts.0))] + parts.1;
                    if all.len() == 1 {
                        Ok(all[0])
                    } else {
                        Ok(ClauseModel::And(all))
                    }
                }
            },
            Err(k) => Err(k),
        },
        ExprModel::Or(children) => match spec_generate_list(children) {
            Ok(parts) => {
                if parts.0.len() == 0 {
                    if parts.1.len() == 1 {
                        Ok(parts.1[0])
                    } else {
                        Ok(ClauseModel::Or(parts.1))
                    }
                } else {
                    let all = seq![ClauseModel::Fts(spec_combine_or(parts.0))] + parts.1;
                    if all.len() == 1 {
                        Ok(all[0])
                    } else {
                        Ok(ClauseModel::Or(all))
                    }
                }
            },
            Err(k) => Err(k),
        },
        ExprModel::Not(child) => match spec_generate(*child) {
            Ok(c) => match c {
                ClauseModel::Fts(p) => Ok(ClauseModel::Fts(FtsModel::Not(Box::new(p)))),
                other => Ok(ClauseModel::Not(Box::new(other))),
            },
            Err(k) => Err(k),
        },
        ExprModel::Tag(name) => Ok(ClauseModel::Fts(FtsModel::Phrase(name))),
        ExprModel::KeyValue(key, value) => {
            if key == "in"@ {
                Ok(ClauseModel::InDir(value))
            } else if key == "ext"@ {
                Ok(ClauseModel::HasExt(value))
            } else if key == "inpath"@ {
                Ok(ClauseModel::InPath(value))
            } else if key == "children"@ {
                Ok(ClauseModel::ChildrenOf(value))
            } else if key == "leading"@ {
                Ok(ClauseModel::LeadingPath(value))
            } else {
                Err(key)
            }
        },
    }
}

/// The clauses for a list of expressions, partitioned into the full-text
/// parts and the structural clauses, each in their original order; or the
/// first unknown key met.
pub open spec fn spec_generate_list(es: Seq<ExprModel>) -> Result<
    (Seq<FtsModel>, Seq<ClauseModel>),
    Seq<char>,
>
    decreases es,
{
    if es.len() == 0 {
        Ok((Seq::empty(), Seq::empty()))
    } else {
        match spec_generate(es[0]) {
            Ok(c) => match spec_generate_list(es.skip(1)) {
                Ok(rest) => match c {
                    ClauseModel::Fts(p) => Ok((seq![p] + rest.0, rest.1)),
                    other => Ok((rest.0, seq![other] + rest.1)),
                },
                Err(k) => Err(k),
            },
            Err(k) => Err(k),
        }
    }
}

/// How compiling a parsed query can fail.
#[derive(Debug, PartialEq, Eq)]
pub enum CompileError {
    /// A `key:value` predicate whose key is outside the whitelist reached
    /// the clause generator.
    UnknownKey(String),
}

/// Compile an expression tree into a `WhereClause`.
///
/// Every `And`/`Or` group has its full-text members merged into one combined
/// full-text node, placed first among the group's structural clauses; a
/// group that reduces to a single clause is returned unwrapped. A negation
/// of a full-text clause is kept inside the full-text sublanguage. The
/// groups the parser produces are never empty; an empty group compiles to an
/// empty `And`/`Or` clause.
pub fn generate_clause(root: &Expr) -> (r: Result<WhereClause, CompileError>)
    ensures
        match r {
            Ok(c) => spec_generate(root.model()) == Ok::<ClauseModel, Seq<char>>(c.model()),
            Err(e) => match e {
                CompileError::UnknownKey(k) => spec_generate(root.model()) == Err::<
                    ClauseModel,
                    Seq<char>,
                >(k@),
            },
        },
    decreases *root,
{
    match root {
        Expr::And(children) => {
            let ghost all = crate::query::parser::models(children@);
            proof {
                crate::query::parser::lemma_models_len(children@);
                assert(all.skip(0) =~= all);
            }
            let mut fts_parts: Vec<FTSPart> = Vec::new();
            let mut sql_clauses: Vec<WhereClause> = Vec::new();
            let mut idx: usize = 0;
            while idx < children.len()
                invariant
                    idx <= children@.len(),
                    root is And,
                    root->And_0 == *children,
                    all == crate::query::parser::models(children@),
                    all.len() == children@.len(),
                    match spec_generate_list(all.skip(idx as int)) {
                        Ok(rest) => spec_generate_list(all) == Ok::<
                            (Seq<FtsModel>, Seq<ClauseModel>),
                            Seq<char>,
                        >((
                            fts_models(fts_parts@) + rest.0,
                            clause_models(sql_clauses@) + rest.1,
                        )),
                        Err(k) => spec_generate_list(all) == Err::<
                            (Seq<FtsModel>, Seq<ClauseModel>),
                            Seq<char>,
                        >(k),
                    },
                decreases children@.len() - idx,
            {
                proof {
                    crate::query::parser::lemma_models_index(children@, idx as int);
                    assert(all.skip(idx as int) =~= seq![all[idx as int]] + all.skip(idx + 1));
                    assert((seq![all[idx as int]] + all.skip(idx + 1))[0] == all[idx as int]);
                    assert((seq![all[idx as int]] + all.skip(idx + 1)).skip(1) =~= all.skip(
                        idx + 1,
                    ));
                    assert(decreases_to!(*root => *children));
                    assert(decreases_to!(*children => children@[idx as int]));
                    assert(decreases_to!(*root => children@[idx as int]));
                }
                match generate_clause(&children[idx]) {
                    Ok(clause) => match clause {
                        WhereClause::FTS(part) => {
                            proof {
                                lemma_fts_models_push(fts_parts@, part);
                                match spec_generate_list(all.skip(idx + 1)) {
                                    Ok(rest) => {
                                        assert(fts_models(fts_parts@) + (seq![part.model()]
                                            + rest.0) =~= fts_models(fts_parts@).push(
                                            part.model(),
                                        ) + rest.0);
                                    },
                                    Err(_) => {},
                                }
                            }
                            fts_parts.push(part);
                        },
                        other => {
                            proof {
                                lemma_clause_models_push(sql_clauses@, other);
                                match spec_generate_list(all.skip(idx + 1)) {
                                    Ok(rest) => {
                                        assert(clause_models(sql_clauses@) + (seq![other.model()]
                                            + rest.1) =~= clause_models(sql_clauses@).push(
                                            other.model(),
                                        ) + rest.1);
                                    },
                                    Err(_) => {},
                                }
                            }
                            sql_clauses.push(other);
                        },
                    },
                    Err(e) => {
                        proof {
                            assert(spec_generate_list(all.skip(idx as int)) is Err);
                            assert(spec_generate_list(all) is Err);
                        }
                        return Err(e);
                    },
                }
                idx = idx + 1;
            }
            proof {
                assert(all.skip(children@.len() as int) =~= Seq::<ExprModel>::empty());
                assert(spec_generate_list(Seq::<ExprModel>::empty()) == Ok::<
                    (Seq<FtsModel>, Seq<ClauseModel>),
                    Seq<char>,
                >((Seq::empty(), Seq::empty())));
                assert(fts_models(fts_parts@) + Seq::<FtsModel>::empty() =~= fts_models(
                    fts_parts@,
                ));
                assert(clause_models(sql_clauses@) + Seq::<ClauseModel>::empty() =~= clause_models(
                    sql_clauses@,
                ));
                lemma_fts_models_len(fts_parts@);
                lemma_clause_models_len(sql_clauses@);
            }
            if fts_parts.len() == 0 {
                if sql_clauses.len() == 1 {
                    let ghost single = sql_clauses@;
                    let c = sql_clauses.remove(0);
                    proof {
                        assert(single[0] == c);
                        assert(clause_models(single)[0] == single[0].model());
                    }
                    Ok(c)
                } else {
                    Ok(WhereClause::And(sql_clauses))
                }
            } else {
                let combined = FTSPart::combine_and(fts_parts);
                let combined_clause = WhereClause::FTS(combined);
                let ghost sqls_before = sql_clauses@;
                let ghost cc = combined_clause;
                sql_clauses.insert(0, combined_clause);
                proof {
                    assert(sql_clauses@ =~= seq![cc] + sqls_before);
                    lemma_clause_models_concat(seq![cc], sqls_before);
                    assert(seq![cc].skip(1) =~= Seq::<WhereClause>::empty());
                    assert(clause_models(seq![cc].skip(1)) == Seq::<ClauseModel>::empty());
                    assert(clause_models(seq![cc]) =~= seq![cc.model()]);
                    assert(clause_models(sql_clauses@) =~= seq![cc.model()] + clause_models(
                        sqls_before,
                    ));
                    lemma_clause_models_len(sql_clauses@);
                }
                if sql_clauses.len() == 1 {
                    let ghost single = sql_clauses@;
                    let c = sql_clauses.remove(0);
                    proof {
                        assert(single[0] == c);
                        assert(clause_models(single)[0] == single[0].model());
                        assert(clause_models(single) =~= seq![c.model()]);
                    }
                    Ok(c)
                } else {
                    Ok(WhereClause::And(sql_clauses))
                }
            }
        },
        Expr::Or(children) => {
            let ghost all = crate::query::parser::models(children@);
            proof {
                crate::query::parser::lemma_models_len(children@);
                assert(all.skip(0) =~= all);
            }
            let mut fts_parts: Vec<FTSPart> = Vec::new();
            let mut sql_clauses: Vec<WhereClause> = Vec::new();
            let mut idx: usize = 0;
            while idx < children.len()
                invariant
                    idx <= children@.len(),
                    root is Or,
                    root->Or_0 == *children,
                    all == crate::query::parser::models(children@),
                    all.len() == children@.len(),
                    match spec_generate_list(all.skip(idx as int)) {
                        Ok(rest) => spec_generate_list(all) == Ok::<
                            (Seq<FtsModel>, Seq<ClauseModel>),
                            Seq<char>,
                        >((
                            fts_models(fts_parts@) + rest.0,
                            clause_models(sql_clauses@) + rest.1,
                        )),
                        Err(k) => spec_generate_list(all) == Err::<
                            (Seq<FtsModel>, Seq<ClauseModel>),
                            Seq<char>,
                        >(k),
                    },
                decreases children@.len() - idx,
            {
                proof {
                    crate::query::parser::lemma_models_index(children@, idx as int);
                    assert(all.skip(idx as int) =~= seq![all[idx as int]] + all.skip(idx + 1));
                    assert((seq![all[idx as int]] + all.skip(idx + 1))[0] == all[idx as int]);
                    assert((seq![all[idx as int]] + all.skip(idx + 1)).skip(1) =~= all.skip(
                        idx + 1,
                    ));
                    assert(decreases_to!(*root => *children));
                    assert(decreases_to!(*children => children@[idx as int]));
                    assert(decreases_to!(*root => children@[idx as int]));
                }
                match generate_clause(&children[idx]) {
                    Ok(clause) => match clause {
                        WhereClause::FTS(part) => {
                            proof {
                                lemma_fts_models_push(fts_parts@, part);
                                match spec_generate_list(all.skip(idx + 1)) {
                                    Ok(rest) => {
                                        assert(fts_models(fts_parts@) + (seq![part.model()]
                                            + rest.0) =~= fts_models(fts_parts@).push(
                                            part.model(),
                                        ) + rest.0);
                                    },
                                    Err(_) => {},
                                }
                            }
                            fts_parts.push(part);
                        },
                        other => {
                            proof {
                                lemma_clause_models_push(sql_clauses@, other);
                                match spec_generate_list(all.skip(idx + 1)) {
                                    Ok(rest) => {
                                        assert(clause_models(sql_clauses@) + (seq![other.model()]
                                            + rest.1) =~= clause_models(sql_clauses@).push(
                                            other.model(),
                                        ) + rest.1);
                                    },
                                    Err(_) => {},
                                }
                            }
                            sql_clauses.push(other);
                        },
                    },
                    Err(e) => {
                        proof {
                            assert(spec_generate_list(all.skip(idx as int)) is Err);
                            assert(spec_generate_list(all) is Err);
                        }
                        return Err(e);
                    },
                }
                idx = idx + 1;
            }
            proof {
                assert(all.skip(children@.len() as int) =~= Seq::<ExprModel>::empty());
                assert(spec_generate_list(Seq::<ExprModel>::empty()) == Ok::<
                    (Seq<FtsModel>, Seq<ClauseModel>),
                    Seq<char>,
                >((Seq::empty(), Seq::empty())));
                assert(fts_models(fts_parts@) + Seq::<FtsModel>::empty() =~= fts_models(
                    fts_parts@,
                ));
                assert(clause_models(sql_clauses@) + Seq::<ClauseModel>::empty() =~= clause_models(
                    sql_clauses@,
                ));
                lemma_fts_models_len(fts_parts@);
                lemma_clause_models_len(sql_clauses@);
            }
            if fts_parts.len() == 0 {
                if sql_clauses.len() == 1 {
                    let ghost single = sql_clauses@;
                    let c = sql_clauses.remove(0);
                    proof {
                        assert(single[0] == c);
                        assert(clause_models(single)[0] == single[0].model());
                    }
                    Ok(c)
                } else {
                    Ok(WhereClause::Or(sql_clauses))
                }
            } else {
                let combined = FTSPart::combine_or(fts_parts);
                let combined_clause = WhereClause::FTS(combined);
                let ghost sqls_before = sql_clauses@;
                let ghost cc = combined_clause;
                sql_clauses.insert(0, combined_clause);
                proof {
                    assert(sql_clauses@ =~= seq![cc] + sqls_before);
                    lemma_clause_models_concat(seq![cc], sqls_before);
                    assert(seq![cc].skip(1) =~= Seq::<WhereClause>::empty());
                    assert(clause_models(seq![cc].skip(1)) == Seq::<ClauseModel>::empty());
                    assert(clause_models(seq![cc]) =~= seq![cc.model()]);
                    assert(clause_models(sql_clauses@) =~= seq![cc.model()] + clause_models(
                        sqls_before,
                    ));
                    lemma_clause_models_len(sql_clauses@);
                }
                if sql_clauses.len() == 1 {
                    let ghost single = sql_clauses@;
                    let c = sql_clauses.remove(0);
                    proof {
                        assert(single[0] == c);
                        assert(clause_models(single)[0] == single[0].model());
                        assert(clause_models(single) =~= seq![c.model()]);
                    }
                    Ok(c)
                } else {
                    Ok(WhereClause::Or(sql_clauses))
                }
            }
        },
        Expr::Not(child) => {
            match generate_clause(&**child) {
                Ok(clause) => match clause {
                    WhereClause::FTS(part) => Ok(
                        WhereClause::FTS(FTSPart::Not(Box::new(part))),
                    ),
                    other => Ok(WhereClause::Not(Box::new(other))),
                },
                Err(e) => Err(e),
            }
        },
        Expr::Tag(name) => Ok(WhereClause::FTS(FTSPart::Phrase(name.clone()))),
        Expr::KeyValue(key, value) => {
            let k_in = String::from_str("in");
            let k_ext = String::from_str("ext");
            let k_inpath = String::from_str("inpath");
            let k_children = String::from_str("children");
            let k_leading = String::from_str("leading");
            if key.eq(&k_in) {
                Ok(WhereClause::InDir(value.clone()))
            } else if key.eq(&k_ext) {
                Ok(WhereClause::HasExt(value.clone()))
            } else if key.eq(&k_inpath) {
                Ok(WhereClause::InPath(value.clone()))
            } else if key.eq(&k_children) {
                Ok(WhereClause::ChildrenOf(value.clone()))
            } else if key.eq(&k_leading) {
                Ok(WhereClause::LeadingPath(value.clone()))
            } else {
                Err(CompileError::UnknownKey(key.clone()))
            }
        },
    }
}

/// Strings joined with a separator between neighbours.
pub open spec fn join_with(strs: Seq<Seq<char>>, sep: Seq<char>) -> Seq<char>
    decreases strs.len(),
{
    if strs.len() == 0 {
        Seq::empty()
    } else if strs.len() == 1 {
        strs[0]
    } else {
        strs[0] + sep + join_with(strs.skip(1), sep)
    }
}

/// Strings each preceded by a prefix.
pub open spec fn prefix_each(strs: Seq<Seq<char>>, pre: Seq<char>) -> Seq<char>
    decreases strs.len(),
{
    if strs.len() == 0 {
        Seq::empty()
    } else {
        pre + strs[0] + prefix_each(strs.skip(1), pre)
    }
}

/// The views of a vector of strings.
pub open spec fn views_of(strs: Seq<String>) -> Seq<Seq<char>> {
    Seq::new(strs.len(), |i: int| strs[i]@)
}

pub proof fn lemma_join_with_push(strs: Seq<Seq<char>>, x: Seq<char>, sep: Seq<char>)
    ensures
        join_with(strs.push(x), sep) == if strs.len() == 0 {
            x
        } else {
            join_with(strs, sep) + sep + x
        },
    decreases strs.len(),
{
    if strs.len() == 0 {
        assert(strs.push(x).len() == 1);
        assert(strs.push(x)[0] == x);
    } else {
        assert(strs.push(x)[0] == strs[0]);
        assert(strs.push(x).skip(1) =~= strs.skip(1).push(x));
        lemma_join_with_push(strs.skip(1), x, sep);
        if strs.len() == 1 {
            assert(strs.skip(1).len() == 0);
            assert(join_with(strs.push(x), sep) == strs[0] + sep + x);
        } else {
            assert(strs[0] + sep + (join_with(strs.skip(1), sep) + sep + x) =~= (strs[0] + sep
                + join_with(strs.skip(1), sep)) + sep + x);
        }
    }
}

pub proof fn lemma_prefix_each_push(strs: Seq<Seq<char>>, x: Seq<char>, pre: Seq<char>)
    ensures
        prefix_each(strs.push(x), pre) == prefix_each(strs, pre) + pre + x,
    decreases strs.len(),
{
    if strs.len() == 0 {
        assert(strs.push(x)[0] == x);
        assert(strs.push(x).skip(1) =~= Seq::<Seq<char>>::empty());
        assert(prefix_each(strs.push(x).skip(1), pre) == Seq::<char>::empty());
        assert(prefix_each(strs, pre) == Seq::<char>::empty());
        assert(prefix_each(strs.push(x), pre) =~= prefix_each(strs, pre) + pre + x);
    } else {
        assert(strs.push(x)[0] == strs[0]);
        assert(strs.push(x).skip(1) =~= strs.skip(1).push(x));
        lemma_prefix_each_push(strs.skip(1), x, pre);
        assert(pre + strs[0] + (prefix_each(strs.skip(1), pre) + pre + x) =~= (pre + strs[0]
            + prefix_each(strs.skip(1), pre)) + pre + x);
    }
}

/// The rendered full-text strings of every node in the list, in order.
pub open spec fn fts_render_list(parts: Seq<FtsModel>) -> Seq<Seq<char>>
    decreases parts,
{
    if parts.len() == 0 {
        Seq::empty()
    } else {
        seq![spec_fts_render(parts[0])] + fts_render_list(parts.skip(1))
    }
}

/// The rendered strings of the positive (non-negated) nodes, in order.
pub open spec fn fts_render_pos(parts: Seq<FtsModel>) -> Seq<Seq<char>>
    decreases parts,
{
    if parts.len() == 0 {
        Seq::empty()
    } else if parts[0] is Not {
        fts_render_pos(parts.skip(1))
    } else {
        seq![spec_fts_render(parts[0])] + fts_render_pos(parts.skip(1))
    }
}

/// The rendered strings of what the negated nodes negate, in order.
pub open spec fn fts_render_neg(parts: Seq<FtsModel>) -> Seq<Seq<char>>
    decreases parts,
{
    if parts.len() == 0 {
        Seq::empty()
    } else {
        match parts[0] {
            FtsModel::Not(inner) => seq![spec_fts_render(*inner)] + fts_render_neg(
                parts.skip(1),
            ),
            _ => fts_render_neg(parts.skip(1)),
        }
    }
}

/// The full-text mini-query string for a full-text node.
///
/// An `And` group with both positive and negated members renders the
/// positives first, joined by `AND`, then each negated member after a `NOT`;
/// a group of negated members only hangs its `NOT`s from the always-true
/// anchor term, since the mini-query language has no free-standing negation.
pub open spec fn spec_fts_render(p: FtsModel) -> Seq<char>
    decreases p,
{
    match p {
        FtsModel::Phrase(name) => "tags:\""@ + crate::sql::fts_escape(name) + "\""@,
        FtsModel::And(parts) => {
            let pos = fts_render_pos(parts);
            let neg = fts_render_neg(parts);
            if pos.len() > 0 && neg.len() > 0 {
                "("@ + join_with(pos, " AND "@) + prefix_each(neg, " NOT "@) + ")"@
            } else if pos.len() > 0 {
                "("@ + join_with(pos, " AND "@) + ")"@
            } else {
                "("@ + "meta_tags:\"all\""@ + prefix_each(neg, " NOT "@) + ")"@
            }
        },
        FtsModel::Or(parts) => "("@ + join_with(fts_render_list(parts), " OR "@) + ")"@,
        FtsModel::Not(inner) => "("@ + "meta_tags:\"all\""@ + " NOT "@ + spec_fts_render(*inner)
            + ")"@,
    }
}

/// A path with backslashes turned into forward slashes, the separator the
/// stored paths use.
pub open spec fn norm_slash(path: Seq<char>) -> Seq<char> {
    Seq::new(path.len(), |i: int| if path[i] == '\\' { '/' } else { path[i] })
}

/// The `LIKE` pattern for everything under a directory: the normalized,
/// escaped path with a trailing slash ensured.
pub open spec fn dir_pattern(path: Seq<char>) -> Seq<char> {
    let ep = crate::sql::like_escape(norm_slash(path), '\\');
    if ep.len() > 0 && ep[ep.len() - 1] == '/' {
        ep
    } else {
        ep.push('/')
    }
}

/// The SQL boolean expression for a clause. The one full-text clause at the
/// root of a statement becomes an equality against the query table's column;
/// any other full-text clause becomes a correlated sub-query membership
/// test. A negated full-text clause stays inside one full-text lookup,
/// anchored the same way as in the full-text renderer.
pub open spec fn spec_sql_render(c: ClauseModel, is_root: bool) -> Seq<char>
    decreases c,
{
    match c {
        ClauseModel::Fts(p) => if is_root {
            "tq.tag_query = '"@ + spec_fts_render(p) + "'"@
        } else {
            "i.id IN (SELECT id FROM tag_query('"@ + spec_fts_render(p) + "'))"@
        },
        ClauseModel::InDir(path) => "i.path LIKE '"@ + dir_pattern(path) + "%' ESCAPE '\\'"@,
        ClauseModel::HasExt(ext) => "extname(i.path) LIKE '"@ + crate::sql::like_escape(
            ext,
            '\\',
        ) + "' ESCAPE '\\'"@,
        ClauseModel::InPath(path) => "i.path LIKE '%"@ + crate::sql::like_escape(path, '\\')
            + "%' ESCAPE '\\'"@,
        ClauseModel::ChildrenOf(path) => "i.path LIKE '"@ + dir_pattern(path)
            + "%' ESCAPE '\\' AND NOT i.path LIKE '"@ + dir_pattern(path) + "%/%' ESCAPE '\\'"@,
        ClauseModel::LeadingPath(path) => "i.path LIKE '"@ + crate::sql::like_escape(
            norm_slash(path),
            '\\',
        ) + "%' ESCAPE '\\'"@,
        ClauseModel::And(children) => "("@ + join_with(sql_render_list(children), " AND "@)
            + ")"@,
        ClauseModel::Or(children) => "("@ + join_with(sql_render_list(children), " OR "@) + ")"@,
        ClauseModel::Not(inner) => match *inner {
            ClauseModel::Fts(p) => {
                let q = "("@ + "meta_tags:\"all\""@ + " NOT "@ + spec_fts_render(p) + ")"@;
                if is_root {
                    "tq.tag_query = '"@ + q + "'"@
                } else {
                    "i.id IN ( SELECT id FROM tag_query('"@ + q + "') )"@
                }
            },
            other => "NOT ("@ + spec_sql_render(other, false) + ")"@,
        },
    }
}

/// The rendered SQL of every clause in the list, as sub-clauses, in order.
pub open spec fn sql_render_list(clauses: Seq<ClauseModel>) -> Seq<Seq<char>>
    decreases clauses,
{
    if clauses.len() == 0 {
        Seq::empty()
    } else {
        seq![spec_sql_render(clauses[0], false)] + sql_render_list(clauses.skip(1))
    }
}

/// Turn backslashes into forward slashes, the separator stored paths use.
pub fn convert_from_os_path(path: &str) -> (r: String)
    ensures
        r@ == norm_slash(path@),
{
    let n: usize = path.unicode_len();
    let mut r = String::new();
    let mut i: usize = 0;
    while i < n
        invariant
            n == path@.len(),
            i <= n,
            r@ =~= norm_slash(path@).subrange(0, i as int),
        decreases n - i,
    {
        let c = path.get_char(i);
        if c == '\\' {
            push_char(&mut r, '/');
        } else {
            push_char(&mut r, c);
        }
        proof {
            assert(norm_slash(path@).subrange(0, i + 1) =~= norm_slash(path@).subrange(
                0,
                i as int,
            ).push(norm_slash(path@)[i as int]));
        }
        i = i + 1;
    }
    proof {
        assert(norm_slash(path@).subrange(0, n as int) =~= norm_slash(path@));
    }
    r
}

/// Join rendered strings with a separator between neighbours.
fn join_strings(strs: &Vec<String>, sep: &str) -> (r: String)
    ensures
        r@ == join_with(views_of(strs@), sep@),
{
    let mut r = String::new();
    let mut i: usize = 0;
    while i < strs.len()
        invariant
            i <= strs@.len(),
            r@ == join_with(views_of(strs@).take(i as int), sep@),
        decreases strs@.len() - i,
    {
        proof {
            let vs = views_of(strs@);
            assert(vs.take(i + 1) =~= vs.take(i as int).push(vs[i as int]));
            lemma_join_with_push(vs.take(i as int), vs[i as int], sep@);
        }
        if i > 0 {
            r.append(sep);
        }
        r.append(strs[i].as_str());
        i = i + 1;
    }
    proof {
        assert(views_of(strs@).take(strs@.len() as int) =~= views_of(strs@));
    }
    r
}

/// Prefix each rendered string and concatenate.
fn prefix_join(strs: &Vec<String>, pre: &str) -> (r: String)
    ensures
        r@ == prefix_each(views_of(strs@), pre@),
{
    let mut r = String::new();
    let mut i: usize = 0;
    while i < strs.len()
        invariant
            i <= strs@.len(),
            r@ == prefix_each(views_of(strs@).take(i as int), pre@),
        decreases strs@.len() - i,
    {
        proof {
            let vs = views_of(strs@);
            assert(vs.take(i + 1) =~= vs.take(i as int).push(vs[i as int]));
            lemma_prefix_each_push(vs.take(i as int), vs[i as int], pre@);
        }
        r.append(pre);
        r.append(strs[i].as_str());
        i = i + 1;
    }
    proof {
        assert(views_of(strs@).take(strs@.len() as int) =~= views_of(strs@));
    }
    r
}

/// The `LIKE` pattern for everything under a directory.
fn dir_pattern_exec(path: &str) -> (r: String)
    ensures
        r@ == dir_pattern(path@),
{
    let normed = convert_from_os_path(path);
    let mut ep = crate::sql::escape_like_pattern(normed.as_str(), '\\');
    let n: usize = ep.unicode_len();
    if n == 0 || ep.as_str().get_char(n - 1) != '/' {
        push_char(&mut ep, '/');
    }
    ep
}

impl FTSPart {
    /// Render this node as a full-text mini-query string.
    pub fn to_fts_query(&self) -> (r: String)
        ensures
            r@ == spec_fts_render(self.model()),
        decreases *self,
    {
        match self {
            FTSPart::Phrase(name) => {
                let mut r = String::from_str("tags:\"");
                let escaped = crate::sql::escape_fts5_string(name.as_str());
                r.append(escaped.as_str());
                r.append("\"");
                r
            },
            FTSPart::And(parts) => {
                let ghost m = fts_models(parts@);
                proof {
                    lemma_fts_models_len(parts@);
                    assert(m.skip(0) =~= m);
                    assert(views_of(Seq::<String>::empty()) =~= Seq::<Seq<char>>::empty());
                }
                let mut pos: Vec<String> = Vec::new();
                let mut neg: Vec<String> = Vec::new();
                let mut idx: usize = 0;
                while idx < parts.len()
                    invariant
                        idx <= parts@.len(),
                        self is And,
                        self->And_0 == *parts,
                        m == fts_models(parts@),
                        m.len() == parts@.len(),
                        fts_render_pos(m) == views_of(pos@) + fts_render_pos(
                            m.skip(idx as int),
                        ),
                        fts_render_neg(m) == views_of(neg@) + fts_render_neg(
                            m.skip(idx as int),
                        ),
                    decreases parts@.len() - idx,
                {
                    proof {
                        lemma_fts_models_index(parts@, idx as int);
                        assert(m.skip(idx as int) =~= seq![m[idx as int]] + m.skip(idx + 1));
                        assert((seq![m[idx as int]] + m.skip(idx + 1))[0] == m[idx as int]);
                        assert((seq![m[idx as int]] + m.skip(idx + 1)).skip(1) =~= m.skip(
                            idx + 1,
                        ));
                        assert(decreases_to!(*self => *parts));
                        assert(decreases_to!(*parts => parts@[idx as int]));
                        assert(decreases_to!(*self => parts@[idx as int]));
                    }
                    match &parts[idx] {
                        FTSPart::Not(inner) => {
                            proof {
                                assert(parts@[idx as int] is Not);
                                assert(parts@[idx as int]->Not_0 == *inner);
                                assert(decreases_to!(parts@[idx as int] => **inner));
                            }
                            let rendered = (&**inner).to_fts_query();
                            proof {
                                let vs = views_of(neg@);
                                assert(views_of(neg@.push(rendered)) =~= vs.push(rendered@));
                                assert(vs + (seq![rendered@] + fts_render_neg(m.skip(idx + 1)))
                                    =~= vs.push(rendered@) + fts_render_neg(m.skip(idx + 1)));
                            }
                            neg.push(rendered);
                        },
                        p => {
                            proof {
                                assert(!(parts@[idx as int] is Not));
                            }
                            let rendered = p.to_fts_query();
                            proof {
                                let vs = views_of(pos@);
                                assert(views_of(pos@.push(rendered)) =~= vs.push(rendered@));
                                assert(vs + (seq![rendered@] + fts_render_pos(m.skip(idx + 1)))
                                    =~= vs.push(rendered@) + fts_render_pos(m.skip(idx + 1)));
                            }
                            pos.push(rendered);
                        },
                    }
                    idx = idx + 1;
                }
                proof {
                    assert(m.skip(parts@.len() as int) =~= Seq::<FtsModel>::empty());
                    assert(fts_render_pos(Seq::<FtsModel>::empty()) == Seq::<Seq<char>>::empty());
                    assert(fts_render_neg(Seq::<FtsModel>::empty()) == Seq::<Seq<char>>::empty());
                    assert(views_of(pos@) + Seq::<Seq<char>>::empty() =~= views_of(pos@));
                    assert(views_of(neg@) + Seq::<Seq<char>>::empty() =~= views_of(neg@));
                }
                let mut r = String::from_str("(");
                if pos.len() > 0 && neg.len() > 0 {
                    let joined = join_strings(&pos, " AND ");
                    r.append(joined.as_str());
                    let negated = prefix_join(&neg, " NOT ");
                    r.append(negated.as_str());
                } else if pos.len() > 0 {
                    let joined = join_strings(&pos, " AND ");
                    r.append(joined.as_str());
                } else {
                    r.append("meta_tags:\"all\"");
                    let negated = prefix_join(&neg, " NOT ");
                    r.append(negated.as_str());
                }
                r.append(")");
                r
            },
            FTSPart::Or(parts) => {
                let ghost m = fts_models(parts@);
                proof {
                    lemma_fts_models_len(parts@);
                    assert(m.skip(0) =~= m);
                    assert(views_of(Seq::<String>::empty()) =~= Seq::<Seq<char>>::empty());
                }
                let mut strs: Vec<String> = Vec::new();
                let mut idx: usize = 0;
                while idx < parts.len()
                    invariant
                        idx <= parts@.len(),
                        self is Or,
                        self->Or_0 == *parts,
                        m == fts_models(parts@),
                        m.len() == parts@.len(),
                        fts_render_list(m) == views_of(strs@) + fts_render_list(
                            m.skip(idx as int),
                        ),
                    decreases parts@.len() - idx,
                {
                    proof {
                        lemma_fts_models_index(parts@, idx as int);
                        assert(m.skip(idx as int) =~= seq![m[idx as int]] + m.skip(idx + 1));
                        assert((seq![m[idx as int]] + m.skip(idx + 1))[0] == m[idx as int]);
                        assert((seq![m[idx as int]] + m.skip(idx + 1)).skip(1) =~= m.skip(
                            idx + 1,
                        ));
                        assert(decreases_to!(*self => *parts));
                        assert(decreases_to!(*parts => parts@[idx as int]));
                        assert(decreases_to!(*self => parts@[idx as int]));
                    }
                    let rendered = (&parts[idx]).to_fts_query();
                    proof {
                        let vs = views_of(strs@);
                        assert(views_of(strs@.push(rendered)) =~= vs.push(rendered@));
                        assert(vs + (seq![rendered@] + fts_render_list(m.skip(idx + 1))) =~= vs.push(
                            rendered@,
                        ) + fts_render_list(m.skip(idx + 1)));
                    }
                    strs.push(rendered);
                    idx = idx + 1;
                }
                proof {
                    assert(m.skip(parts@.len() as int) =~= Seq::<FtsModel>::empty());
                    assert(fts_render_list(Seq::<FtsModel>::empty())
                        == Seq::<Seq<char>>::empty());
                    assert(views_of(strs@) + Seq::<Seq<char>>::empty() =~= views_of(strs@));
                }
                let mut r = String::from_str("(");
                let joined = join_strings(&strs, " OR ");
                r.append(joined.as_str());
                r.append(")");
                r
            },
            FTSPart::Not(inner) => {
                proof {
                    assert(decreases_to!(*self => **inner));
                }
                let mut r = String::from_str("(");
                r.append("meta_tags:\"all\"");
                r.append(" NOT ");
                let rendered = (&**inner).to_fts_query();
                r.append(rendered.as_str());
                r.append(")");
                r
            },
        }
    }
}

impl WhereClause {
    /// Render this clause as the root of a statement's boolean expression.
    pub fn to_sql_clause(&self) -> (r: String)
        ensures
            r@ == spec_sql_render(self.model(), true),
    {
        self.to_sql_subclause(true)
    }

    /// Render this clause as a SQL boolean expression. `is_root` holds for
    /// the single outermost clause only, where a full-text clause may join
    /// against the query table directly.
    pub fn to_sql_subclause(&self, is_root: bool) -> (r: String)
        ensures
            r@ == spec_sql_render(self.model(), is_root),
        decreases *self,
    {
        match self {
            WhereClause::FTS(part) => {
                let q = part.to_fts_query();
                if is_root {
                    let mut r = String::from_str("tq.tag_query = '");
                    r.append(q.as_str());
                    r.append("'");
                    r
                } else {
                    let mut r = String::from_str("i.id IN (SELECT id FROM tag_query('");
                    r.append(q.as_str());
                    r.append("'))");
                    r
                }
            },
            WhereClause::InDir(path) => {
                let pat = dir_pattern_exec(path.as_str());
                let mut r = String::from_str("i.path LIKE '");
                r.append(pat.as_str());
                r.append("%' ESCAPE '\\'");
                r
            },
            WhereClause::HasExt(ext) => {
                let escaped = crate::sql::escape_like_pattern(ext.as_str(), '\\');
                let mut r = String::from_str("extname(i.path) LIKE '");
                r.append(escaped.as_str());
                r.append("' ESCAPE '\\'");
                r
            },
            WhereClause::InPath(path) => {
                let escaped = crate::sql::escape_like_pattern(path.as_str(), '\\');
                let mut r = String::from_str("i.path LIKE '%");
                r.append(escaped.as_str());
                r.append("%' ESCAPE '\\'");
                r
            },
            WhereClause::ChildrenOf(path) => {
                let pat = dir_pattern_exec(path.as_str());
                let mut r = String::from_str("i.path LIKE '");
                r.append(pat.as_str());
                r.append("%' ESCAPE '\\' AND NOT i.path LIKE '");
                r.append(pat.as_str());
                r.append("%/%' ESCAPE '\\'");
                r
            },
            WhereClause::LeadingPath(path) => {
                let normed = convert_from_os_path(path.as_str());
                let escaped = crate::sql::escape_like_pattern(normed.as_str(), '\\');
                let mut r = String::from_str("i.path LIKE '");
                r.append(escaped.as_str());
                r.append("%' ESCAPE '\\'");
                r
            },
            WhereClause::And(children) => {
                let strs = WhereClause::render_all(self, children);
                let mut r = String::from_str("(");
                let joined = join_strings(&strs, " AND ");
                r.append(joined.as_str());
                r.append(")");
                r
            },
            WhereClause::Or(children) => {
                let strs = WhereClause::render_all(self, children);
                let mut r = String::from_str("(");
                let joined = join_strings(&strs, " OR ");
                r.append(joined.as_str());
                r.append(")");
                r
            },
            WhereClause::Not(inner) => {
                match &**inner {
                    WhereClause::FTS(part) => {
                        let fts = part.to_fts_query();
                        let mut q = String::from_str("(");
                        q.append("meta_tags:\"all\"");
                        q.append(" NOT ");
                        q.append(fts.as_str());
                        q.append(")");
                        proof {
                            assert(self.model() == ClauseModel::Not(
                                Box::new((**inner).model()),
                            ));
                            assert((**inner).model() == ClauseModel::Fts(part.model()));
                            assert(q@ == "("@ + "meta_tags:\"all\""@ + " NOT "@
                                + spec_fts_render(part.model()) + ")"@);
                        }
                        if is_root {
                            let mut r = String::from_str("tq.tag_query = '");
                            r.append(q.as_str());
                            r.append("'");
                            r
                        } else {
                            let mut r = String::from_str("i.id IN ( SELECT id FROM tag_query('");
                            r.append(q.as_str());
                            r.append("') )");
                            r
                        }
                    },
                    other => {
                        let sub = other.to_sql_subclause(false);
                        let mut r = String::from_str("NOT (");
                        r.append(sub.as_str());
                        r.append(")");
                        r
                    },
                }
            },
        }
    }

    /// Render each clause of a group as a non-root sub-clause, in order.
    /// `whole` is the group clause itself, of which `children` is the child
    /// vector; it is passed along to bound the recursion.
    fn render_all<'a>(whole: &WhereClause, children: &'a Vec<WhereClause>) -> (r: Vec<String>)
        requires
            whole is And || whole is Or,
            (whole is And ==> whole->And_0 == *children) && (whole is Or ==> whole->Or_0
                == *children),
        ensures
            views_of(r@) == sql_render_list(clause_models(children@)),
        decreases *whole, 0int,
    {
        let ghost m = clause_models(children@);
        proof {
            lemma_clause_models_len(children@);
            assert(m.skip(0) =~= m);
            assert(views_of(Seq::<String>::empty()) =~= Seq::<Seq<char>>::empty());
        }
        let mut strs: Vec<String> = Vec::new();
        let mut idx: usize = 0;
        while idx < children.len()
            invariant
                idx <= children@.len(),
                whole is And || whole is Or,
                (whole is And ==> whole->And_0 == *children) && (whole is Or ==> whole->Or_0
                    == *children),
                m == clause_models(children@),
                m.len() == children@.len(),
                sql_render_list(m) == views_of(strs@) + sql_render_list(m.skip(idx as int)),
            decreases children@.len() - idx,
        {
            proof {
                lemma_clause_models_index(children@, idx as int);
                assert(m.skip(idx as int) =~= seq![m[idx as int]] + m.skip(idx + 1));
                assert((seq![m[idx as int]] + m.skip(idx + 1))[0] == m[idx as int]);
                assert((seq![m[idx as int]] + m.skip(idx + 1)).skip(1) =~= m.skip(idx + 1));
                assert(decreases_to!(*whole => *children));
                assert(decreases_to!(*children => children@[idx as int]));
                assert(decreases_to!(*whole => children@[idx as int]));
            }
            let rendered = (&children[idx]).to_sql_subclause(false);
            proof {
                let vs = views_of(strs@);
                assert(views_of(strs@.push(rendered)) =~= vs.push(rendered@));
                assert(vs + (seq![rendered@] + sql_render_list(m.skip(idx + 1))) =~= vs.push(
                    rendered@,
                ) + sql_render_list(m.skip(idx + 1)));
            }
            strs.push(rendered);
            idx = idx + 1;
        }
        proof {
            assert(m.skip(children@.len() as int) =~= Seq::<ClauseModel>::empty());
            assert(sql_render_list(Seq::<ClauseModel>::empty()) == Seq::<Seq<char>>::empty());
            assert(views_of(strs@) + Seq::<Seq<char>>::empty() =~= views_of(strs@));
        }
        strs
    }
}

pub proof fn lemma_clause_models_index(clauses: Seq<WhereClause>, i: int)
    requires
        0 <= i < clauses.len(),
    ensures
        clause_models(clauses).len() == clauses.len(),
        clause_models(clauses)[i] == clauses[i].model(),
    decreases i,
{
    lemma_clause_models_len(clauses);
    lemma_clause_models_len(clauses.skip(1));
    if i > 0 {
        lemma_clause_models_index(clauses.skip(1), i - 1);
    }
}

} // verus!
