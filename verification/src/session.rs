//! The viewer session: the branch list, the commit index, the parsed graph
//! lines, the selection and display state, and the per-snapshot descendant
//! cache with its invalidation rules.

use vstd::prelude::*;

use crate::color::is_all_hex;
use crate::color::spec_all_hex;
use crate::commit::Commit;
use crate::parse::parse_graph_line;
use crate::parse::parses_to;
use crate::parse::is_blank_line;
use crate::parse::spec_is_blank;
use crate::parse::spec_nonblank_from;
use crate::parse::GraphLine;
use crate::text::contains_str;
use crate::text::count_lines;
use crate::text::spec_contains_seq;
use crate::text::spec_line_count;
use crate::text::spec_starts_with;
use crate::text::spec_tokens;
use crate::text::split_tokens;
use crate::text::starts_with_str;
use crate::text::str_eq;

verus! {

/// One branch of the repository.
#[derive(Debug, Clone)]
pub struct Branch {
    /// Branch name; remote-tracking names carry their remote namespace.
    pub name: String,
    /// Full identifier of the commit the branch points at.
    pub commit_id: String,
    /// Whether this is the checked-out head; never true for a remote branch.
    pub is_head: bool,
    /// Whether this is a remote-tracking branch.
    pub is_remote: bool,
}

/// Plain branch data handed in by the repository reader on a reload.
#[derive(Debug, Clone)]
pub struct BranchInfo {
    /// Branch name.
    pub name: String,
    /// Full identifier of the commit the branch points at.
    pub commit_id: String,
    /// Whether this is the checked-out head.
    pub is_head: bool,
}

/// One ancestry question to put to the version-control tool: is
/// `ancestor_id` a topological ancestor of `descendant_id`?
#[derive(Debug, Clone)]
pub struct AncestryQuery {
    /// Name of the candidate branch under test.
    pub candidate: String,
    /// Tip of the base branch.
    pub ancestor_id: String,
    /// Tip of the candidate branch.
    pub descendant_id: String,
}

/// One memoized descendant set.
#[derive(Debug)]
pub struct DescendantEntry {
    /// The base branch the set was computed for.
    pub base: String,
    /// Names of the local branches found to descend from it.
    pub descendants: Vec<String>,
}

/// The mathematical model of a branch.
pub open spec fn branch_model(b: Branch) -> (Seq<char>, Seq<char>, bool, bool) {
    (b.name@, b.commit_id@, b.is_head, b.is_remote)
}

/// The mathematical model of the descendant cache: base name to stored set.
pub open spec fn cache_model(entries: Seq<DescendantEntry>) -> Seq<(Seq<char>, Seq<Seq<char>>)> {
    Seq::new(entries.len(), |i: int| (entries[i].base@, entries[i].descendants.deep_view()))
}

/// First entry of `m` with key `base`, if any.
pub open spec fn model_lookup(m: Seq<(Seq<char>, Seq<Seq<char>>)>, base: Seq<char>) -> Option<
    Seq<Seq<char>>,
>
    decreases m.len(),
{
    if m.len() == 0 {
        None
    } else if m[0].0 == base {
        Some(m[0].1)
    } else {
        model_lookup(m.drop_first(), base)
    }
}

/// `m` with every entry keyed `base` removed.
pub open spec fn model_remove(
    m: Seq<(Seq<char>, Seq<Seq<char>>)>,
    base: Seq<char>,
) -> Seq<(Seq<char>, Seq<Seq<char>>)>
    decreases m.len(),
{
    if m.len() == 0 {
        Seq::empty()
    } else if m[0].0 == base {
        model_remove(m.drop_first(), base)
    } else {
        seq![m[0]] + model_remove(m.drop_first(), base)
    }
}

proof fn lemma_lookup_push_other(
    m: Seq<(Seq<char>, Seq<Seq<char>>)>,
    p: (Seq<char>, Seq<Seq<char>>),
    k: Seq<char>,
)
    requires
        k != p.0,
    ensures
        model_lookup(m.push(p), k) == model_lookup(m, k),
    decreases m.len(),
{
    if m.len() == 0 {
        assert(m.push(p)[0] == p);
        assert(m.push(p).drop_first() =~= Seq::<(Seq<char>, Seq<Seq<char>>)>::empty());
    } else {
        assert(m.push(p)[0] == m[0]);
        assert(m.push(p).drop_first() =~= m.drop_first().push(p));
        lemma_lookup_push_other(m.drop_first(), p, k);
    }
}

proof fn lemma_lookup_push_same(
    m: Seq<(Seq<char>, Seq<Seq<char>>)>,
    p: (Seq<char>, Seq<Seq<char>>),
)
    requires
        model_lookup(m, p.0) is None,
    ensures
        model_lookup(m.push(p), p.0) == Some(p.1),
    decreases m.len(),
{
    if m.len() == 0 {
        assert(m.push(p)[0] == p);
    } else {
        assert(m.push(p)[0] == m[0]);
        assert(m.push(p).drop_first() =~= m.drop_first().push(p));
        lemma_lookup_push_same(m.drop_first(), p);
    }
}

proof fn lemma_remove_lookup_none(m: Seq<(Seq<char>, Seq<Seq<char>>)>, base: Seq<char>)
    ensures
        model_lookup(model_remove(m, base), base) is None,
    decreases m.len(),
{
    if m.len() > 0 {
        lemma_remove_lookup_none(m.drop_first(), base);
        if m[0].0 != base {
            let rest = model_remove(m.drop_first(), base);
            assert((seq![m[0]] + rest)[0] == m[0]);
            assert((seq![m[0]] + rest).drop_first() =~= rest);
        }
    }
}

proof fn lemma_remove_lookup_other(
    m: Seq<(Seq<char>, Seq<Seq<char>>)>,
    base: Seq<char>,
    k: Seq<char>,
)
    requires
        k != base,
    ensures
        model_lookup(model_remove(m, base), k) == model_lookup(m, k),
    decreases m.len(),
{
    if m.len() > 0 {
        lemma_remove_lookup_other(m.drop_first(), base, k);
        if m[0].0 != base {
            let rest = model_remove(m.drop_first(), base);
            assert((seq![m[0]] + rest)[0] == m[0]);
            assert((seq![m[0]] + rest).drop_first() =~= rest);
        }
    }
}

proof fn lemma_remove_push(
    m: Seq<(Seq<char>, Seq<Seq<char>>)>,
    x: (Seq<char>, Seq<Seq<char>>),
    base: Seq<char>,
)
    ensures
        model_remove(m.push(x), base) == if x.0 == base {
            model_remove(m, base)
        } else {
            model_remove(m, base).push(x)
        },
    decreases m.len(),
{
    let l = m.push(x);
    if m.len() == 0 {
        assert(l[0] == x);
        assert(l.drop_first() =~= Seq::<(Seq<char>, Seq<Seq<char>>)>::empty());
        assert(model_remove(l.drop_first(), base) =~= Seq::<(Seq<char>, Seq<Seq<char>>)>::empty());
        if x.0 == base {
            assert(model_remove(l, base) =~= model_remove(m, base));
        } else {
            assert(model_remove(l, base) == seq![x] + model_remove(l.drop_first(), base));
            assert(seq![x] + model_remove(l.drop_first(), base) =~= model_remove(m, base).push(x));
        }
    } else {
        assert(l[0] == m[0]);
        assert(l.drop_first() =~= m.drop_first().push(x));
        lemma_remove_push(m.drop_first(), x, base);
        if m[0].0 == base {
            assert(model_remove(l, base) == model_remove(l.drop_first(), base));
            assert(model_remove(m, base) == model_remove(m.drop_first(), base));
        } else {
            let rest = model_remove(m.drop_first(), base);
            assert(model_remove(l, base) == seq![l[0]] + model_remove(l.drop_first(), base));
            assert(model_remove(m, base) == seq![m[0]] + rest);
            if x.0 != base {
                assert(seq![m[0]] + rest.push(x) =~= (seq![m[0]] + rest).push(x));
            }
        }
    }
}

/// The names of the candidates whose ancestry answer was affirmative, in
/// candidate order.
pub open spec fn spec_selected(qs: Seq<AncestryQuery>, answers: Seq<bool>) -> Seq<Seq<char>>
    recommends
        qs.len() == answers.len(),
    decreases qs.len(),
{
    if qs.len() == 0 {
        Seq::empty()
    } else {
        spec_selected(qs.drop_last(), answers.drop_last()) + if answers.len() > 0
            && answers.last() {
            seq![qs.last().candidate@]
        } else {
            Seq::empty()
        }
    }
}

/// A name never answered affirmatively is never selected.
proof fn lemma_selected_excludes(qs: Seq<AncestryQuery>, answers: Seq<bool>, name: Seq<char>)
    requires
        qs.len() == answers.len(),
        forall|j: int| 0 <= j < qs.len() && answers[j] ==> qs[j].candidate@ != name,
    ensures
        !spec_selected(qs, answers).contains(name),
    decreases qs.len(),
{
    if qs.len() > 0 {
        lemma_selected_excludes(qs.drop_last(), answers.drop_last(), name);
        let pre = spec_selected(qs.drop_last(), answers.drop_last());
        let tail: Seq<Seq<char>> = if answers.last() {
            seq![qs.last().candidate@]
        } else {
            Seq::empty()
        };
        assert forall|t: int| 0 <= t < (pre + tail).len() implies (pre + tail)[t] != name by {
            if t < pre.len() {
                assert(!pre.contains(name));
            } else {
                assert(answers[qs.len() - 1] ==> qs[qs.len() - 1].candidate@ != name);
            }
        }
    }
}

/// Under an anti-symmetric ancestry relation there is no false cycle: when
/// candidate `i`'s tip is a strict ancestor of the base tip, and the recorded
/// answers agree with the relation, candidate `i` is never selected as a
/// descendant of the base.
pub proof fn lemma_no_false_cycle(
    qs: Seq<AncestryQuery>,
    answers: Seq<bool>,
    ancestor_of: spec_fn(Seq<char>, Seq<char>) -> bool,
    i: int,
)
    requires
        qs.len() == answers.len(),
        0 <= i < qs.len(),
        forall|j: int|
            0 <= j < qs.len() ==> answers[j] == ancestor_of(
                #[trigger] qs[j].ancestor_id@,
                qs[j].descendant_id@,
            ),
        forall|x: Seq<char>, y: Seq<char>| #[trigger] ancestor_of(x, y) && ancestor_of(y, x) ==> x == y,
        ancestor_of(qs[i].descendant_id@, qs[i].ancestor_id@),
        qs[i].descendant_id@ != qs[i].ancestor_id@,
        forall|j: int| 0 <= j < qs.len() && j != i ==> (#[trigger] qs[j].candidate@)
            != qs[i].candidate@,
    ensures
        !spec_selected(qs, answers).contains(qs[i].candidate@),
{
    assert(!answers[i]);
    lemma_selected_excludes(qs, answers, qs[i].candidate@);
}

/// Copies a vector of strings.
fn clone_strings(v: &Vec<String>) -> (r: Vec<String>)
    ensures
        r@ == v@,
{
    let mut r: Vec<String> = Vec::new();
    let mut i: usize = 0;
    while i < v.len()
        invariant
            i <= v@.len(),
            r@ =~= v@.subrange(0, i as int),
        decreases v@.len() - i,
    {
        r.push(v[i].clone());
        i += 1;
    }
    proof {
        assert(r@ =~= v@);
    }
    r
}

/// The viewer session.
pub struct App {
    /// All branches of the current snapshot, locals first.
    pub branches: Vec<Branch>,
    /// Parsed graph lines of the last load, in display order.
    pub graph_lines: Vec<GraphLine>,
    /// Index of the selected branch.
    pub selected_branch: usize,
    /// Index of the selected graph line.
    pub selected_commit: usize,
    /// Whether the graph panel has focus.
    pub show_logs: bool,
    /// The base branch the graph is filtered to, if any.
    pub current_branch_filter: Option<String>,
    /// Whether a load is in progress.
    pub loading: bool,
    /// The stored message of the last failed operation, if any.
    pub error_message: Option<String>,
    /// Scroll position of the detail panel.
    pub scroll_offset: u16,
    /// The loaded patch text, if any.
    pub current_diff: Option<String>,
    /// Whether the patch overlay is open.
    pub show_diff: bool,
    /// Scroll position of the patch overlay.
    pub diff_scroll_offset: u16,
    /// Resolved commits in insertion order, keyed by full identifier.
    pub commits: Vec<Commit>,
    /// Memoized descendant sets, one entry per computed base branch.
    pub descendant_cache: Vec<DescendantEntry>,
}

impl App {
    /// The commit index: resolved commits in insertion order, keyed by full
    /// identifier.
    pub open spec fn commit_index(self) -> Seq<Commit> {
        self.commits@
    }

    /// The memoized descendant set for `base`: `None` means not yet
    /// computed, which callers must distinguish from an empty set.
    pub open spec fn cached(self, base: Seq<char>) -> Option<Seq<Seq<char>>> {
        model_lookup(cache_model(self.descendant_cache@), base)
    }

    /// A fresh session: nothing loaded, nothing selected, nothing cached.
    pub fn new() -> (a: App)
        ensures
            a.branches@.len() == 0,
            a.graph_lines@.len() == 0,
            a.commit_index().len() == 0,
            a.selected_branch == 0,
            a.selected_commit == 0,
            !a.show_logs,
            a.current_branch_filter is None,
            !a.loading,
            a.error_message is None,
            a.scroll_offset == 0,
            a.current_diff is None,
            !a.show_diff,
            a.diff_scroll_offset == 0,
            forall|k: Seq<char>| a.cached(k) is None,
    {
        let a = App {
            branches: Vec::new(),
            graph_lines: Vec::new(),
            selected_branch: 0,
            selected_commit: 0,
            show_logs: false,
            current_branch_filter: None,
            loading: false,
            error_message: None,
            scroll_offset: 0,
            current_diff: None,
            show_diff: false,
            diff_scroll_offset: 0,
            commits: Vec::new(),
            descendant_cache: Vec::new(),
        };
        proof {
            assert(cache_model(a.descendant_cache@) =~= Seq::<(Seq<char>, Seq<Seq<char>>)>::empty());
        }
        a
    }

    /// Rebuilds the branch list from a fresh snapshot: the locals first with
    /// their head flags, then the remotes, and the whole descendant cache
    /// invalidated — branch tips may have moved, so every previously cached
    /// set is dropped.
    pub fn load_branches(&mut self, locals: &Vec<BranchInfo>, remotes: &Vec<BranchInfo>)
        ensures
            final(self).branches@.len() == locals@.len() + remotes@.len(),
            forall|i: int|
                0 <= i < locals@.len() ==> branch_model(#[trigger] final(self).branches@[i]) == (
                    locals@[i].name@,
                    locals@[i].commit_id@,
                    locals@[i].is_head,
                    false,
                ),
            forall|i: int|
                0 <= i < remotes@.len() ==> branch_model(
                    #[trigger] final(self).branches@[locals@.len() + i],
                ) == (remotes@[i].name@, remotes@[i].commit_id@, false, true),
            forall|k: Seq<char>| final(self).cached(k) is None,
            final(self).graph_lines == old(self).graph_lines,
            final(self).commit_index() == old(self).commit_index(),
            final(self).selected_branch == old(self).selected_branch,
            final(self).selected_commit == old(self).selected_commit,
            final(self).show_logs == old(self).show_logs,
            final(self).current_branch_filter == old(self).current_branch_filter,
            final(self).loading == old(self).loading,
            final(self).error_message == old(self).error_message,
            final(self).scroll_offset == old(self).scroll_offset,
            final(self).current_diff == old(self).current_diff,
            final(self).show_diff == old(self).show_diff,
            final(self).diff_scroll_offset == old(self).diff_scroll_offset,
    {
        let mut branches: Vec<Branch> = Vec::new();
        let mut i: usize = 0;
        while i < locals.len()
            invariant
                i <= locals@.len(),
                branches@.len() == i,
                forall|j: int|
                    0 <= j < i ==> branch_model(#[trigger] branches@[j]) == (
                        locals@[j].name@,
                        locals@[j].commit_id@,
                        locals@[j].is_head,
                        false,
                    ),
            decreases locals@.len() - i,
        {
            let l = &locals[i];
            branches.push(
                Branch {
                    name: l.name.clone(),
                    commit_id: l.commit_id.clone(),
                    is_head: l.is_head,
                    is_remote: false,
                },
            );
            i += 1;
        }
        let mut i: usize = 0;
        while i < remotes.len()
            invariant
                i <= remotes@.len(),
                branches@.len() == locals@.len() + i,
                forall|j: int|
                    0 <= j < locals@.len() ==> branch_model(#[trigger] branches@[j]) == (
                        locals@[j].name@,
                        locals@[j].commit_id@,
                        locals@[j].is_head,
                        false,
                    ),
                forall|j: int|
                    0 <= j < i ==> branch_model(#[trigger] branches@[locals@.len() + j]) == (
                        remotes@[j].name@,
                        remotes@[j].commit_id@,
                        false,
                        true,
                    ),
            decreases remotes@.len() - i,
        {
            let r = &remotes[i];
            branches.push(
                Branch {
                    name: r.name.clone(),
                    commit_id: r.commit_id.clone(),
                    is_head: false,
                    is_remote: true,
                },
            );
            i += 1;
        }
        self.branches = branches;
        self.descendant_cache = Vec::new();
        proof {
            assert(cache_model(self.descendant_cache@) =~= Seq::<
                (Seq<char>, Seq<Seq<char>>),
            >::empty());
        }
    }

    /// The memoized descendant set for `base`, if one is cached. A pure read
    /// of the session state: answering from the cache asks the ancestry
    /// oracle nothing, so repeated queries return the identical set.
    pub fn cached_descendants(&self, base: &str) -> (r: Option<Vec<String>>)
        ensures
            match r {
                Some(v) => self.cached(base@) == Some(v.deep_view()),
                None => self.cached(base@) is None,
            },
    {
        let ghost cm = cache_model(self.descendant_cache@);
        let n = self.descendant_cache.len();
        let mut i: usize = 0;
        proof {
            assert(cm.skip(0) =~= cm);
        }
        while i < n
            invariant
                n == self.descendant_cache@.len(),
                cm == cache_model(self.descendant_cache@),
                cm.len() == n,
                i <= n,
                model_lookup(cm, base@) == model_lookup(cm.skip(i as int), base@),
            decreases n - i,
        {
            let e = &self.descendant_cache[i];
            proof {
                assert(cm.skip(i as int)[0] == cm[i as int]);
                assert(cm.skip(i as int).drop_first() =~= cm.skip(i + 1));
            }
            if str_eq(e.base.as_str(), base) {
                let v = clone_strings(&e.descendants);
                proof {
                    assert(v.deep_view() =~= e.descendants.deep_view());
                }
                return Some(v);
            }
            i += 1;
        }
        proof {
            assert(cm.skip(n as int) =~= Seq::<(Seq<char>, Seq<Seq<char>>)>::empty());
        }
        None
    }

    /// Stores the outcome of one descendant computation: the cache entry for
    /// `base` becomes exactly the affirmatively answered candidates, replacing
    /// any earlier entry, and every other entry is untouched. A failed
    /// ancestry check is handed in as a negative answer, so a wholly failed
    /// computation still records an empty set rather than an error.
    pub fn record_descendants(
        &mut self,
        base: &str,
        queries: &Vec<AncestryQuery>,
        answers: &Vec<bool>,
    )
        requires
            queries@.len() == answers@.len(),
        ensures
            final(self).cached(base@) == Some(spec_selected(queries@, answers@)),
            forall|k: Seq<char>|
                k != base@ ==> #[trigger] final(self).cached(k) == old(self).cached(k),
            final(self).branches == old(self).branches,
            final(self).graph_lines == old(self).graph_lines,
            final(self).commit_index() == old(self).commit_index(),
            final(self).selected_branch == old(self).selected_branch,
            final(self).selected_commit == old(self).selected_commit,
            final(self).show_logs == old(self).show_logs,
            final(self).current_branch_filter == old(self).current_branch_filter,
            final(self).loading == old(self).loading,
            final(self).error_message == old(self).error_message,
            final(self).scroll_offset == old(self).scroll_offset,
            final(self).current_diff == old(self).current_diff,
            final(self).show_diff == old(self).show_diff,
            final(self).diff_scroll_offset == old(self).diff_scroll_offset,
    {
        let mut names: Vec<String> = Vec::new();
        let mut i: usize = 0;
        while i < queries.len()
            invariant
                queries@.len() == answers@.len(),
                i <= queries@.len(),
                names.deep_view() == spec_selected(
                    queries@.subrange(0, i as int),
                    answers@.subrange(0, i as int),
                ),
            decreases queries@.len() - i,
        {
            let ghost qp = queries@.subrange(0, i + 1);
            let ghost ap = answers@.subrange(0, i + 1);
            proof {
                assert(qp.drop_last() =~= queries@.subrange(0, i as int));
                assert(ap.drop_last() =~= answers@.subrange(0, i as int));
                assert(qp.last() == queries@[i as int]);
                assert(ap.last() == answers@[i as int]);
            }
            let ghost pre = names.deep_view();
            if answers[i] {
                names.push(queries[i].candidate.clone());
                proof {
                    assert(names.deep_view() =~= pre.push(queries@[i as int].candidate@));
                    assert(pre.push(queries@[i as int].candidate@) =~= pre + seq![
                        queries@[i as int].candidate@,
                    ]);
                }
            } else {
                proof {
                    assert(pre + Seq::<Seq<char>>::empty() =~= pre);
                }
            }
            i += 1;
        }
        proof {
            assert(queries@.subrange(0, queries@.len() as int) =~= queries@);
            assert(answers@.subrange(0, answers@.len() as int) =~= answers@);
        }
        let ghost selected = names.deep_view();

        let ghost old_model = cache_model(self.descendant_cache@);
        let mut kept: Vec<DescendantEntry> = Vec::new();
        let mut j: usize = 0;
        proof {
            assert(cache_model(kept@) =~= Seq::<(Seq<char>, Seq<Seq<char>>)>::empty());
            assert(model_remove(old_model.subrange(0, 0), base@) =~= Seq::<
                (Seq<char>, Seq<Seq<char>>),
            >::empty());
        }
        while j < self.descendant_cache.len()
            invariant
                old_model == cache_model(self.descendant_cache@),
                old_model.len() == self.descendant_cache@.len(),
                j <= self.descendant_cache@.len(),
                cache_model(kept@) == model_remove(old_model.subrange(0, j as int), base@),
            decreases self.descendant_cache@.len() - j,
        {
            let e = &self.descendant_cache[j];
            let ghost pre = cache_model(kept@);
            proof {
                assert(old_model.subrange(0, j + 1).drop_last() =~= old_model.subrange(
                    0,
                    j as int,
                ));
                lemma_remove_push(
                    old_model.subrange(0, j as int),
                    old_model[j as int],
                    base@,
                );
                assert(old_model.subrange(0, j + 1) =~= old_model.subrange(0, j as int).push(
                    old_model[j as int],
                ));
            }
            if !str_eq(e.base.as_str(), base) {
                let copied = DescendantEntry {
                    base: e.base.clone(),
                    descendants: clone_strings(&e.descendants),
                };
                proof {
                    assert(copied.descendants.deep_view() =~= e.descendants.deep_view());
                }
                kept.push(copied);
                proof {
                    assert(cache_model(kept@) =~= pre.push(old_model[j as int]));
                }
            }
            j += 1;
        }
        proof {
            assert(old_model.subrange(0, old_model.len() as int) =~= old_model);
        }
        kept.push(DescendantEntry { base: base.to_owned(), descendants: names });
        proof {
            let removed = model_remove(old_model, base@);
            assert(cache_model(kept@) =~= removed.push((base@, selected)));
            lemma_remove_lookup_none(old_model, base@);
            lemma_lookup_push_same(removed, (base@, selected));
            assert forall|k: Seq<char>| k != base@ implies model_lookup(
                removed.push((base@, selected)),
                k,
            ) == model_lookup(old_model, k) by {
                lemma_lookup_push_other(removed, (base@, selected), k);
                lemma_remove_lookup_other(old_model, base@, k);
            }
        }
        self.descendant_cache = kept;
    }

    /// Tip of the first branch named `name`, if any.
    pub fn branch_tip(&self, name: &str) -> (r: Option<String>)
        ensures
            match r {
                Some(t) => spec_branch_tip_from(self.branches@, name@, 0) == Some(t@),
                None => spec_branch_tip_from(self.branches@, name@, 0) is None,
            },
    {
        let n = self.branches.len();
        let mut i: usize = 0;
        while i < n
            invariant
                n == self.branches@.len(),
                i <= n,
                spec_branch_tip_from(self.branches@, name@, 0) == spec_branch_tip_from(
                    self.branches@,
                    name@,
                    i as int,
                ),
            decreases n - i,
        {
            let b = &self.branches[i];
            if str_eq(b.name.as_str(), name) {
                return Some(b.commit_id.clone());
            }
            i += 1;
        }
        None
    }

    /// The ancestry questions whose answers determine the descendants of
    /// `base`: one per local branch other than the base itself — remote
    /// branches are never candidates — asking whether the base tip is an
    /// ancestor of that branch's tip. Empty when `base` names no known branch.
    pub fn descendant_candidates(&self, base: &str) -> (r: Vec<AncestryQuery>)
        ensures
            spec_branch_tip_from(self.branches@, base@, 0) is None ==> r@.len() == 0,
            (spec_branch_tip_from(self.branches@, base@, 0) matches Some(tip) ==> queries_model(
                r@,
            ) == spec_candidates_from(self.branches@, base@, tip, 0)),
    {
        let tip = match self.branch_tip(base) {
            Some(t) => t,
            None => {
                return Vec::new();
            },
        };
        let ghost tipv = tip@;
        let n = self.branches.len();
        let mut r: Vec<AncestryQuery> = Vec::new();
        let mut i: usize = 0;
        proof {
            assert(queries_model(r@) =~= Seq::<(Seq<char>, Seq<char>, Seq<char>)>::empty());
            assert(Seq::<(Seq<char>, Seq<char>, Seq<char>)>::empty() + spec_candidates_from(
                self.branches@,
                base@,
                tipv,
                0,
            ) =~= spec_candidates_from(self.branches@, base@, tipv, 0));
        }
        while i < n
            invariant
                n == self.branches@.len(),
                i <= n,
                tip@ == tipv,
                spec_candidates_from(self.branches@, base@, tipv, 0) == queries_model(r@)
                    + spec_candidates_from(self.branches@, base@, tipv, i as int),
            decreases n - i,
        {
            let b = &self.branches[i];
            let ghost pre = queries_model(r@);
            let ghost hd: Seq<(Seq<char>, Seq<char>, Seq<char>)> = if !b.is_remote && b.name@
                != base@ {
                seq![(b.name@, tipv, b.commit_id@)]
            } else {
                Seq::empty()
            };
            let ghost rest = spec_candidates_from(self.branches@, base@, tipv, i + 1);
            if !b.is_remote && !str_eq(b.name.as_str(), base) {
                r.push(
                    AncestryQuery {
                        candidate: b.name.clone(),
                        ancestor_id: tip.clone(),
                        descendant_id: b.commit_id.clone(),
                    },
                );
                proof {
                    assert(queries_model(r@) =~= pre + hd);
                }
            } else {
                proof {
                    assert(pre + hd =~= pre);
                }
            }
            proof {
                assert((pre + hd) + rest =~= pre + (hd + rest));
            }
            i += 1;
        }
        r
    }

    /// The branches shown under the active filter: the base branch followed
    /// by its cached descendants, or nothing when no filter is active.
    pub fn get_included_branches(&self) -> (r: Vec<String>)
        ensures
            self.current_branch_filter is None ==> r.deep_view() == Seq::<Seq<char>>::empty(),
            (self.current_branch_filter matches Some(b) ==> r.deep_view() == seq![b@] + (
            match self.cached(b@) {
                Some(d) => d,
                None => Seq::empty(),
            })),
    {
        match &self.current_branch_filter {
            None => {
                let r: Vec<String> = Vec::new();
                proof {
                    assert(r.deep_view() =~= Seq::<Seq<char>>::empty());
                }
                r
            },
            Some(b) => {
                let mut r: Vec<String> = Vec::new();
                r.push(b.clone());
                proof {
                    assert(r.deep_view() =~= seq![b@]);
                }
                match self.cached_descendants(b.as_str()) {
                    Some(mut d) => {
                        let ghost pre = r.deep_view();
                        let ghost dv = d.deep_view();
                        r.append(&mut d);
                        proof {
                            assert(r.deep_view() =~= pre + dv);
                        }
                        r
                    },
                    None => {
                        proof {
                            assert(r.deep_view() =~= seq![b@] + Seq::<Seq<char>>::empty());
                        }
                        r
                    },
                }
            },
        }
    }

    /// Sets (or clears) the branch filter and marks a load as in progress:
    /// any stored error is discarded and the graph selection returns to the
    /// top. The caller then fetches and applies the graph output.
    pub fn set_branch_filter(&mut self, branch_name: Option<String>)
        ensures
            *final(self) == (App {
                current_branch_filter: branch_name,
                loading: true,
                error_message: None,
                selected_commit: 0,
                ..*old(self)
            }),
    {
        self.current_branch_filter = branch_name;
        self.loading = true;
        self.error_message = None;
        self.selected_commit = 0;
    }

    /// Clears the branch filter, as [`App::set_branch_filter`] with no base.
    pub fn clear_branch_filter(&mut self)
        ensures
            *final(self) == (App {
                current_branch_filter: None,
                loading: true,
                error_message: None,
                selected_commit: 0,
                ..*old(self)
            }),
    {
        self.set_branch_filter(None);
    }

    /// Filters to the selected branch, when the selection is in range.
    pub fn select_current_branch(&mut self)
        ensures
            old(self).selected_branch < old(self).branches@.len() ==> *final(self) == (App {
                current_branch_filter: Some(
                    old(self).branches@[old(self).selected_branch as int].name,
                ),
                loading: true,
                error_message: None,
                selected_commit: 0,
                ..*old(self)
            }),
            old(self).selected_branch >= old(self).branches@.len() ==> *final(self) == *old(self),
    {
        if self.selected_branch < self.branches.len() {
            let name = self.branches[self.selected_branch].name.clone();
            self.set_branch_filter(Some(name));
        }
    }

    /// Marks a refresh as in progress, discarding any stored error.
    pub fn begin_refresh(&mut self)
        ensures
            *final(self) == (App { loading: true, error_message: None, ..*old(self) }),
    {
        self.loading = true;
        self.error_message = None;
    }

    /// Replaces the graph with the parse of fresh output: one structured
    /// line per non-blank raw line, in order, and the commit index cleared
    /// for re-resolution. The load is over.
    pub fn apply_graph_output(&mut self, lines: &Vec<String>)
        ensures
            final(self).graph_lines@.len() == spec_nonblank_from(lines.deep_view(), 0).len(),
            forall|k: int|
                0 <= k < final(self).graph_lines@.len() ==> parses_to(
                    spec_nonblank_from(lines.deep_view(), 0)[k],
                    #[trigger] final(self).graph_lines@[k],
                ),
            *final(self) == (App {
                graph_lines: final(self).graph_lines,
                commits: final(self).commits,
                loading: false,
                ..*old(self)
            }),
            final(self).commit_index() == Seq::<Commit>::empty(),
    {
        let ghost lv = lines.deep_view();
        let n = lines.len();
        let mut gl: Vec<GraphLine> = Vec::new();
        let ghost nb = spec_nonblank_from(lv, 0);
        let mut i: usize = 0;
        let ghost mut done = Seq::<Seq<char>>::empty();
        proof {
            assert(done + spec_nonblank_from(lv, 0) =~= spec_nonblank_from(lv, 0));
        }
        while i < n
            invariant
                n == lines@.len(),
                lv == lines.deep_view(),
                lv.len() == n,
                i <= n,
                nb == spec_nonblank_from(lv, 0),
                nb == done + spec_nonblank_from(lv, i as int),
                gl@.len() == done.len(),
                forall|k: int| 0 <= k < done.len() ==> parses_to(done[k], #[trigger] gl@[k]),
            decreases n - i,
        {
            proof {
                assert(lines@[i as int]@ == lv[i as int]);
            }
            let line = &lines[i];
            let ghost hd: Seq<Seq<char>> = if spec_is_blank(lv[i as int]) {
                Seq::empty()
            } else {
                seq![lv[i as int]]
            };
            let ghost rest = spec_nonblank_from(lv, i + 1);
            let ghost pre = done;
            if !is_blank_line(line.as_str()) {
                let parsed = parse_graph_line(line.as_str());
                gl.push(parsed);
                proof {
                    done = done.push(lv[i as int]);
                    assert(done =~= pre + hd);
                }
            } else {
                proof {
                    assert(pre + hd =~= pre);
                }
            }
            proof {
                assert((pre + hd) + rest =~= pre + (hd + rest));
            }
            i += 1;
        }
        proof {
            assert(spec_nonblank_from(lv, n as int) =~= Seq::<Seq<char>>::empty());
            assert(done + Seq::<Seq<char>>::empty() =~= done);
        }
        self.graph_lines = gl;
        self.commits = Vec::new();
        self.loading = false;
    }

    /// Records a failed graph fetch: the graph becomes the empty result and
    /// the failure is kept as a user-visible message. The load is over.
    pub fn fail_graph_load(&mut self, message: String)
        ensures
            *final(self) == (App {
                graph_lines: final(self).graph_lines,
                commits: final(self).commits,
                loading: false,
                error_message: Some(message),
                ..*old(self)
            }),
            final(self).graph_lines@.len() == 0,
            final(self).commit_index() == Seq::<Commit>::empty(),
    {
        self.graph_lines = Vec::new();
        self.commits = Vec::new();
        self.loading = false;
        self.error_message = Some(message);
    }

    /// Records a failed operation without touching the loaded data.
    pub fn set_error(&mut self, message: String)
        ensures
            *final(self) == (App {
                loading: false,
                error_message: Some(message),
                ..*old(self)
            }),
    {
        self.loading = false;
        self.error_message = Some(message);
    }

    /// Stores a resolved commit, keyed by its full identifier: a later
    /// record for the same identifier replaces the earlier one, which is
    /// dropped from its place; everything else keeps its order.
    pub fn insert_commit(&mut self, c: Commit)
        ensures
            final(self).commit_index() == spec_remove_commit(old(self).commit_index(), c.id@).push(
                c,
            ),
            *final(self) == (App { commits: final(self).commits, ..*old(self) }),
    {
        let mut consumed: Vec<Commit> = Vec::new();
        core::mem::swap(&mut self.commits, &mut consumed);
        let ghost full = consumed@;
        let mut kept: Vec<Commit> = Vec::new();
        proof {
            assert(kept@ + spec_remove_commit(full, c.id@) =~= spec_remove_commit(full, c.id@));
        }
        while consumed.len() > 0
            invariant
                spec_remove_commit(full, c.id@) == kept@ + spec_remove_commit(consumed@, c.id@),
            decreases consumed@.len(),
        {
            let ghost pre_rem = consumed@;
            let e = consumed.remove(0);
            proof {
                assert(consumed@ =~= pre_rem.drop_first());
                assert(e == pre_rem[0]);
            }
            let ghost pre = kept@;
            if !str_eq(e.id.as_str(), c.id.as_str()) {
                kept.push(e);
                proof {
                    assert(kept@ =~= pre.push(pre_rem[0]));
                    assert(pre + (seq![pre_rem[0]] + spec_remove_commit(
                        pre_rem.drop_first(),
                        c.id@,
                    )) =~= pre.push(pre_rem[0]) + spec_remove_commit(pre_rem.drop_first(), c.id@));
                }
            }
            proof {
                assert(spec_remove_commit(full, c.id@) == kept@ + spec_remove_commit(
                    consumed@,
                    c.id@,
                ));
            }
        }
        proof {
            assert(spec_remove_commit(consumed@, c.id@) =~= Seq::<Commit>::empty());
            assert(kept@ + Seq::<Commit>::empty() =~= kept@);
        }
        kept.push(c);
        self.commits = kept;
    }

    /// Index of the commit the selected graph line resolves to, if any: by
    /// the line's extracted identifier first, then by a hash-like leading
    /// token of its payload, matching the short identifier exactly or the
    /// full identifier by prefix.
    pub open spec fn spec_selected_commit(self) -> Option<int> {
        if self.selected_commit < self.graph_lines@.len() {
            let line = self.graph_lines@[self.selected_commit as int];
            let primary = if line.commit_id@.len() > 0 {
                spec_find_commit_from(self.commits@, line.commit_id@, 0)
            } else {
                None
            };
            if primary is Some {
                primary
            } else {
                let toks = spec_tokens(line.commit_text@);
                if toks.len() > 0 && toks[0].len() >= 7 && spec_all_hex(toks[0]) {
                    spec_find_commit_from(self.commits@, toks[0], 0)
                } else {
                    None
                }
            }
        } else {
            None
        }
    }

    /// The commit the selected graph line resolves to, if any, per
    /// [`App::spec_selected_commit`].
    pub fn get_selected_commit(&self) -> (r: Option<&Commit>)
        ensures
            match r {
                Some(c) => self.spec_selected_commit() matches Some(k) && *c == self.commits@[k],
                None => self.spec_selected_commit() is None,
            },
    {
        if self.selected_commit >= self.graph_lines.len() {
            return None;
        }
        let line = &self.graph_lines[self.selected_commit];
        if line.commit_id.as_str().unicode_len() > 0 {
            if let Some(k) = self.find_commit_index(line.commit_id.as_str()) {
                return Some(&self.commits[k]);
            }
        }
        let toks = split_tokens(line.commit_text.as_str());
        if toks.len() > 0 {
            proof {
                assert(toks@[0]@ == spec_tokens(line.commit_text@)[0]);
            }
            let tok = &toks[0];
            if tok.as_str().unicode_len() >= 7 && is_all_hex(tok.as_str()) {
                if let Some(k) = self.find_commit_index(tok.as_str()) {
                    return Some(&self.commits[k]);
                }
            }
        }
        None
    }

    /// Index of the first stored commit matching `key`, per
    /// [`commit_matches`].
    fn find_commit_index(&self, key: &str) -> (r: Option<usize>)
        ensures
            match r {
                Some(k) => k < self.commits@.len() && spec_find_commit_from(
                    self.commits@,
                    key@,
                    0,
                ) == Some(k as int),
                None => spec_find_commit_from(self.commits@, key@, 0) is None,
            },
    {
        let n = self.commits.len();
        let mut i: usize = 0;
        while i < n
            invariant
                n == self.commits@.len(),
                i <= n,
                spec_find_commit_from(self.commits@, key@, 0) == spec_find_commit_from(
                    self.commits@,
                    key@,
                    i as int,
                ),
            decreases n - i,
        {
            let c = &self.commits[i];
            if str_eq(c.short_id.as_str(), key) || starts_with_str(c.id.as_str(), key) {
                return Some(i);
            }
            i += 1;
        }
        None
    }

    /// Identifier of the commit a patch would be fetched for: the selected
    /// line's extracted identifier, when the selection is in range and the
    /// line carries one.
    pub fn diff_target(&self) -> (r: Option<String>)
        ensures
            match r {
                Some(id) => self.selected_commit < self.graph_lines@.len()
                    && self.graph_lines@[self.selected_commit as int].commit_id@.len() > 0 && id@
                    == self.graph_lines@[self.selected_commit as int].commit_id@,
                None => self.selected_commit >= self.graph_lines@.len()
                    || self.graph_lines@[self.selected_commit as int].commit_id@.len() == 0,
            },
    {
        if self.selected_commit >= self.graph_lines.len() {
            return None;
        }
        let line = &self.graph_lines[self.selected_commit];
        if line.commit_id.as_str().unicode_len() > 0 {
            Some(line.commit_id.clone())
        } else {
            None
        }
    }

    /// Opens the patch overlay on the given text, scrolled to the top. The
    /// text may also carry the error report of a failed fetch.
    pub fn open_diff(&mut self, text: String)
        ensures
            *final(self) == (App {
                current_diff: Some(text),
                show_diff: true,
                diff_scroll_offset: 0,
                ..*old(self)
            }),
    {
        self.current_diff = Some(text);
        self.show_diff = true;
        self.diff_scroll_offset = 0;
    }

    /// Closes the patch overlay and drops its text.
    pub fn close_diff(&mut self)
        ensures
            *final(self) == (App {
                current_diff: None,
                show_diff: false,
                diff_scroll_offset: 0,
                ..*old(self)
            }),
    {
        self.show_diff = false;
        self.current_diff = None;
        self.diff_scroll_offset = 0;
    }

    /// Greatest useful scroll position of the patch overlay for the given
    /// panel height: line count beyond the visible content rows.
    pub open spec fn spec_max_diff_scroll(self, visible_height: u16) -> int {
        match self.current_diff {
            Some(d) => {
                let content = if visible_height >= 2 {
                    visible_height - 2
                } else {
                    0
                };
                let m = spec_line_count(d@) - content;
                if m < 0 {
                    0
                } else if m > u16::MAX {
                    u16::MAX as int
                } else {
                    m
                }
            },
            None => 0,
        }
    }

    /// Computes [`App::spec_max_diff_scroll`].
    pub fn get_max_diff_scroll(&self, visible_height: u16) -> (r: u16)
        ensures
            r as int == self.spec_max_diff_scroll(visible_height),
    {
        match &self.current_diff {
            Some(d) => {
                let total = count_lines(d.as_str());
                let content: usize = if visible_height >= 2 {
                    (visible_height - 2) as usize
                } else {
                    0
                };
                let m = if total > content {
                    total - content
                } else {
                    0
                };
                if m > u16::MAX as usize {
                    u16::MAX
                } else {
                    m as u16
                }
            },
            None => 0,
        }
    }

    /// Clamps the patch overlay scroll position to its greatest useful
    /// value for the given panel height.
    pub fn clamp_diff_scroll(&mut self, visible_height: u16)
        ensures
            *final(self) == (App {
                diff_scroll_offset: if old(self).diff_scroll_offset as int <= old(
                    self,
                ).spec_max_diff_scroll(visible_height) {
                    old(self).diff_scroll_offset
                } else {
                    old(self).spec_max_diff_scroll(visible_height) as u16
                },
                ..*old(self)
            }),
    {
        let mx = self.get_max_diff_scroll(visible_height);
        if self.diff_scroll_offset > mx {
            self.diff_scroll_offset = mx;
        }
    }

    /// Advances the graph selection cyclically; nothing changes when the
    /// graph is empty.
    pub fn next_commit(&mut self)
        ensures
            old(self).graph_lines@.len() == 0 ==> *final(self) == *old(self),
            old(self).graph_lines@.len() > 0 ==> *final(self) == (App {
                selected_commit: if old(self).selected_commit + 1 < old(self).graph_lines@.len() {
                    (old(self).selected_commit + 1) as usize
                } else {
                    0
                },
                ..*old(self)
            }),
    {
        let n = self.graph_lines.len();
        if n > 0 {
            self.selected_commit = if self.selected_commit < n - 1 {
                self.selected_commit + 1
            } else {
                0
            };
        }
    }

    /// Moves the graph selection back cyclically; nothing changes when the
    /// graph is empty.
    pub fn previous_commit(&mut self)
        ensures
            old(self).graph_lines@.len() == 0 ==> *final(self) == *old(self),
            old(self).graph_lines@.len() > 0 ==> *final(self) == (App {
                selected_commit: if old(self).selected_commit == 0 {
                    (old(self).graph_lines@.len() - 1) as usize
                } else {
                    (old(self).selected_commit - 1) as usize
                },
                ..*old(self)
            }),
    {
        let n = self.graph_lines.len();
        if n > 0 {
            self.selected_commit = if self.selected_commit == 0 {
                n - 1
            } else {
                self.selected_commit - 1
            };
        }
    }

    /// Advances the branch selection cyclically; nothing changes when the
    /// branch list is empty.
    pub fn next_branch(&mut self)
        ensures
            old(self).branches@.len() == 0 ==> *final(self) == *old(self),
            old(self).branches@.len() > 0 ==> *final(self) == (App {
                selected_branch: if old(self).selected_branch + 1 < old(self).branches@.len() {
                    (old(self).selected_branch + 1) as usize
                } else {
                    0
                },
                ..*old(self)
            }),
    {
        let n = self.branches.len();
        if n > 0 {
            self.selected_branch = if self.selected_branch < n - 1 {
                self.selected_branch + 1
            } else {
                0
            };
        }
    }

    /// Moves the branch selection back cyclically; nothing changes when the
    /// branch list is empty.
    pub fn previous_branch(&mut self)
        ensures
            old(self).branches@.len() == 0 ==> *final(self) == *old(self),
            old(self).branches@.len() > 0 ==> *final(self) == (App {
                selected_branch: if old(self).selected_branch == 0 {
                    (old(self).branches@.len() - 1) as usize
                } else {
                    (old(self).selected_branch - 1) as usize
                },
                ..*old(self)
            }),
    {
        let n = self.branches.len();
        if n > 0 {
            self.selected_branch = if self.selected_branch == 0 {
                n - 1
            } else {
                self.selected_branch - 1
            };
        }
    }
}

/// Tip of the first branch in `bs`, at or after `i`, whose name is `name`.
pub open spec fn spec_branch_tip_from(bs: Seq<Branch>, name: Seq<char>, i: int) -> Option<
    Seq<char>,
>
    decreases bs.len() - i,
    when 0 <= i <= bs.len()
{
    if i >= bs.len() {
        None
    } else if bs[i].name@ == name {
        Some(bs[i].commit_id@)
    } else {
        spec_branch_tip_from(bs, name, i + 1)
    }
}

/// The mathematical model of an ancestry question.
pub open spec fn query_model(q: AncestryQuery) -> (Seq<char>, Seq<char>, Seq<char>) {
    (q.candidate@, q.ancestor_id@, q.descendant_id@)
}

/// The mathematical model of a sequence of ancestry questions.
pub open spec fn queries_model(qs: Seq<AncestryQuery>) -> Seq<(Seq<char>, Seq<char>, Seq<char>)> {
    Seq::new(qs.len(), |i: int| query_model(qs[i]))
}

/// The candidate questions for `base` with tip `tip`, drawn from the
/// branches at or after `i`: every local branch other than the base.
pub open spec fn spec_candidates_from(
    bs: Seq<Branch>,
    base: Seq<char>,
    tip: Seq<char>,
    i: int,
) -> Seq<(Seq<char>, Seq<char>, Seq<char>)>
    decreases bs.len() - i,
    when 0 <= i <= bs.len()
{
    if i >= bs.len() {
        Seq::empty()
    } else {
        (if !bs[i].is_remote && bs[i].name@ != base {
            seq![(bs[i].name@, tip, bs[i].commit_id@)]
        } else {
            Seq::empty()
        }) + spec_candidates_from(bs, base, tip, i + 1)
    }
}

/// One stored commit per full identifier: `cs` with every commit whose
/// identifier is `id` removed.
pub open spec fn spec_remove_commit(cs: Seq<Commit>, id: Seq<char>) -> Seq<Commit>
    decreases cs.len(),
{
    if cs.len() == 0 {
        Seq::empty()
    } else if cs[0].id@ == id {
        spec_remove_commit(cs.drop_first(), id)
    } else {
        seq![cs[0]] + spec_remove_commit(cs.drop_first(), id)
    }
}

/// Whether a stored commit answers to `key`: its short identifier is `key`,
/// or its full identifier begins with it.
pub open spec fn commit_matches(c: Commit, key: Seq<char>) -> bool {
    c.short_id@ == key || spec_starts_with(c.id@, key)
}

/// Index of the first commit in `cs`, at or after `i`, matching `key`.
pub open spec fn spec_find_commit_from(cs: Seq<Commit>, key: Seq<char>, i: int) -> Option<int>
    decreases cs.len() - i,
    when 0 <= i <= cs.len()
{
    if i >= cs.len() {
        None
    } else if commit_matches(cs[i], key) {
        Some(i)
    } else {
        spec_find_commit_from(cs, key, i + 1)
    }
}

/// The configurable parts of the graph scoping rule.
#[derive(Debug, Clone)]
pub struct GraphScopeConfig {
    /// The primary branch, never subjected to mirror exclusion.
    pub primary_branch: String,
    /// Mirror references containing this marker are kept in the query.
    pub mirror_allow_marker: String,
}

impl Default for GraphScopeConfig {
    /// The defaults of the environment this tool grew up in.
    fn default() -> (c: Self)
        ensures
            c.primary_branch@ == "master"@,
            c.mirror_allow_marker@ == "sunmi"@,
    {
        GraphScopeConfig {
            primary_branch: "master".to_owned(),
            mirror_allow_marker: "sunmi".to_owned(),
        }
    }
}

/// The exclusion arguments built from the mirror references at or after
/// `i`: one negated reference per mirror that does not carry the allow
/// marker.
pub open spec fn spec_mirror_exclusions(
    mirrors: Seq<Seq<char>>,
    allow: Seq<char>,
    i: int,
) -> Seq<Seq<char>>
    decreases mirrors.len() - i,
    when 0 <= i <= mirrors.len()
{
    if i >= mirrors.len() {
        Seq::empty()
    } else {
        (if spec_contains_seq(mirrors[i], allow) {
            Seq::empty()
        } else {
            seq![seq!['^'] + mirrors[i]]
        }) + spec_mirror_exclusions(mirrors, allow, i + 1)
    }
}

/// The reference arguments of a scoped graph query.
pub open spec fn spec_graph_ref_args(
    primary: Seq<char>,
    allow: Seq<char>,
    base: Seq<char>,
    descendants: Seq<Seq<char>>,
    mirrors: Seq<Seq<char>>,
) -> Seq<Seq<char>> {
    let excl: Seq<Seq<char>> = if base != primary && descendants.len() > 0 {
        spec_mirror_exclusions(mirrors, allow, 0)
    } else {
        Seq::empty()
    };
    excl + seq![base] + descendants
}

/// Builds the reference arguments of a graph query scoped to `base` and its
/// descendants: mirror references are excluded — negated — unless they carry
/// the allow marker, but never for the primary branch and never when the
/// descendant set is empty, since that could exclude every commit.
pub fn graph_ref_args(
    config: &GraphScopeConfig,
    base: &str,
    descendants: &Vec<String>,
    mirror_refs: &Vec<String>,
) -> (r: Vec<String>)
    ensures
        r.deep_view() == spec_graph_ref_args(
            config.primary_branch@,
            config.mirror_allow_marker@,
            base@,
            descendants.deep_view(),
            mirror_refs.deep_view(),
        ),
{
    let ghost mv = mirror_refs.deep_view();
    let ghost dv = descendants.deep_view();
    let mut r: Vec<String> = Vec::new();
    proof {
        reveal_strlit("^");
        assert("^"@ =~= seq!['^']);
        assert(r.deep_view() =~= Seq::<Seq<char>>::empty());
    }
    if !str_eq(base, config.primary_branch.as_str()) && descendants.len() > 0 {
        let mut i: usize = 0;
        proof {
            assert(Seq::<Seq<char>>::empty() + spec_mirror_exclusions(mv, config.mirror_allow_marker@, 0)
                =~= spec_mirror_exclusions(mv, config.mirror_allow_marker@, 0));
        }
        while i < mirror_refs.len()
            invariant
                mv == mirror_refs.deep_view(),
                mv.len() == mirror_refs@.len(),
                i <= mirror_refs@.len(),
                "^"@ =~= seq!['^'],
                spec_mirror_exclusions(mv, config.mirror_allow_marker@, 0) == r.deep_view()
                    + spec_mirror_exclusions(mv, config.mirror_allow_marker@, i as int),
            decreases mirror_refs@.len() - i,
        {
            proof {
                assert(mirror_refs@[i as int]@ == mv[i as int]);
            }
            let m = &mirror_refs[i];
            let ghost pre = r.deep_view();
            let ghost hd: Seq<Seq<char>> = if spec_contains_seq(
                mv[i as int],
                config.mirror_allow_marker@,
            ) {
                Seq::empty()
            } else {
                seq![seq!['^'] + mv[i as int]]
            };
            let ghost rest = spec_mirror_exclusions(mv, config.mirror_allow_marker@, i + 1);
            if !contains_str(m.as_str(), config.mirror_allow_marker.as_str()) {
                let mut arg = "^".to_owned();
                arg.append(m.as_str());
                r.push(arg);
                proof {
                    assert(r.deep_view() =~= pre + hd);
                }
            } else {
                proof {
                    assert(pre + hd =~= pre);
                }
            }
            proof {
                assert((pre + hd) + rest =~= pre + (hd + rest));
            }
            i += 1;
        }
        proof {
            assert(spec_mirror_exclusions(mv, config.mirror_allow_marker@, mv.len() as int) =~= Seq::<
                Seq<char>,
            >::empty());
            assert(r.deep_view() + Seq::<Seq<char>>::empty() =~= r.deep_view());
        }
    }
    let ghost excl = r.deep_view();
    r.push(base.to_owned());
    proof {
        assert(r.deep_view() =~= excl + seq![base@]);
    }
    let mut k: usize = 0;
    while k < descendants.len()
        invariant
            dv == descendants.deep_view(),
            dv.len() == descendants@.len(),
            k <= descendants@.len(),
            r.deep_view() =~= excl + seq![base@] + dv.subrange(0, k as int),
        decreases descendants@.len() - k,
    {
        proof {
            assert(descendants@[k as int]@ == dv[k as int]);
        }
        let ghost pre = r.deep_view();
        r.push(descendants[k].clone());
        proof {
            assert(r.deep_view() =~= pre.push(dv[k as int]));
            assert(pre.push(dv[k as int]) =~= excl + seq![base@] + dv.subrange(0, k + 1));
        }
        k += 1;
    }
    proof {
        assert(dv.subrange(0, dv.len() as int) =~= dv);
    }
    r
}

} // verus!
