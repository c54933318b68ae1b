//! What holds of the reconciling operations, over trees.

use vstd::prelude::*;
use crate::plan::{Kind, Step, TreeView, clean_steps, has_child, is_file_like, kind_of, link_steps, prune, run_steps, step_effect, sync_steps, with_parents};
use crate::reconcile::{Action, entry_effect, entry_steps, run_all};
use crate::compare::{State, entry_state};
use crate::patterns::left_out;
use crate::walk::yields;
use crate::tree::{NodeView, is_ancestor};

verus! {

/// Every ancestor of `p` is a directory of `t`.
pub open spec fn parents_are_dirs(t: TreeView, p: Seq<char>) -> bool {
    forall|a: Seq<char>| #[trigger] is_ancestor(a, p) ==> t.contains_key(a) && t[a] is Dir
}

/// `t` holds at `p` a file or a link, which walking a root yields.
pub open spec fn is_entry_of(t: TreeView, p: Seq<char>) -> bool {
    t.contains_key(p) && (t[p] is File || t[p] is Link)
}

proof fn lemma_with_parents_noop(t: TreeView, p: Seq<char>)
    requires
        parents_are_dirs(t, p),
    ensures
        with_parents(t, p) == t,
{
    assert(with_parents(t, p) =~= t);
}

proof fn lemma_run_two(s0: Step, s1: Step, src: TreeView, dst: TreeView, p: Seq<char>)
    ensures
        run_steps(seq![s0, s1], src, dst, p) == match step_effect(s0, src, dst, p) {
            Some(d) => match step_effect(s1, src, d, p) {
                Some(d2) => (d2, true),
                None => (d, false),
            },
            None => (dst, false),
        },
{
    let s = seq![s0, s1];
    assert(s.drop_first() =~= seq![s1]);
    assert(s.drop_first().drop_first() =~= Seq::<Step>::empty());
    if let Some(d) = step_effect(s0, src, dst, p) {
        assert(run_steps(seq![s1], src, d, p) == match step_effect(s1, src, d, p) {
            Some(d2) => run_steps(Seq::<Step>::empty(), src, d2, p),
            None => (d, false),
        }) by {
            assert(seq![s1].drop_first() =~= Seq::<Step>::empty());
        }
    }
}

proof fn lemma_run_three(s0: Step, s1: Step, s2: Step, src: TreeView, dst: TreeView, p: Seq<char>)
    ensures
        run_steps(seq![s0, s1, s2], src, dst, p) == match step_effect(s0, src, dst, p) {
            Some(d) => run_steps(seq![s1, s2], src, d, p),
            None => (dst, false),
        },
{
    assert(seq![s0, s1, s2].drop_first() =~= seq![s1, s2]);
}

/// Syncing an entry that succeeds leaves Home with the root's entry at `p`
/// and directories above it, and nothing else changed.
pub proof fn lemma_sync_entry_success(root: TreeView, home: TreeView, p: Seq<char>)
    requires
        is_entry_of(root, p),
        entry_effect(Action::Sync, root, home, p).1,
    ensures
        entry_effect(Action::Sync, root, home, p).0 == with_parents(home, p).insert(p, root[p]),
{
    let src_link = kind_of(root, p) == Kind::Symlink;
    let k = kind_of(home, p);
    let steps = sync_steps(src_link, k);
    let wp = with_parents(home, p);
    assert(entry_steps(Action::Sync, root, home, p) == Ok::<Seq<Step>, crate::plan::EntryError>(steps));
    if k == Kind::Dir {
        let h0 = home.remove(p);
        assert(with_parents(h0, p).insert(p, root[p]) =~= wp.insert(p, root[p]));
        if src_link {
            assert(steps =~= seq![Step::RemoveDir, Step::CreateParents, Step::MirrorLink]);
            lemma_run_three(Step::RemoveDir, Step::CreateParents, Step::MirrorLink, root, home, p);
            lemma_run_two(Step::CreateParents, Step::MirrorLink, root, h0, p);
        } else {
            assert(steps =~= seq![Step::RemoveDir, Step::CreateParents, Step::CopyFile]);
            lemma_run_three(Step::RemoveDir, Step::CreateParents, Step::CopyFile, root, home, p);
            lemma_run_two(Step::CreateParents, Step::CopyFile, root, h0, p);
            assert(!with_parents(h0, p).contains_key(p));
        }
    } else if src_link {
        if k == Kind::File || k == Kind::Symlink {
            assert(steps =~= seq![Step::CreateParents, Step::RemoveFile, Step::MirrorLink]);
            lemma_run_three(Step::CreateParents, Step::RemoveFile, Step::MirrorLink, root, home, p);
            lemma_run_two(Step::RemoveFile, Step::MirrorLink, root, wp, p);
            assert(wp.remove(p).insert(p, root[p]) =~= wp.insert(p, root[p]));
        } else {
            assert(steps =~= seq![Step::CreateParents, Step::MirrorLink]);
            lemma_run_two(Step::CreateParents, Step::MirrorLink, root, home, p);
        }
    } else {
        if k == Kind::Symlink {
            assert(steps =~= seq![Step::CreateParents, Step::RemoveFile, Step::CopyFile]);
            lemma_run_three(Step::CreateParents, Step::RemoveFile, Step::CopyFile, root, home, p);
            lemma_run_two(Step::RemoveFile, Step::CopyFile, root, wp, p);
            assert(wp.remove(p).insert(p, root[p]) =~= wp.insert(p, root[p]));
        } else {
            assert(steps =~= seq![Step::CreateParents, Step::CopyFile]);
            lemma_run_two(Step::CreateParents, Step::CopyFile, root, home, p);
        }
    }
}

/// Syncing an entry that Home already mirrors changes nothing and succeeds.
pub proof fn lemma_sync_entry_fixpoint(root: TreeView, home: TreeView, p: Seq<char>)
    requires
        is_entry_of(root, p),
        home.contains_key(p),
        home[p] == root[p],
        parents_are_dirs(home, p),
    ensures
        entry_effect(Action::Sync, root, home, p) == (home, true),
{
    lemma_with_parents_noop(home, p);
    let src_link = kind_of(root, p) == Kind::Symlink;
    let k = kind_of(home, p);
    assert(entry_steps(Action::Sync, root, home, p) == Ok::<Seq<Step>, crate::plan::EntryError>(sync_steps(src_link, k)));
    assert(!(exists|a: Seq<char>| #[trigger] is_ancestor(a, p) && is_file_like(home, a)));
    if src_link {
        assert(sync_steps(src_link, k) =~= seq![Step::CreateParents, Step::RemoveFile, Step::MirrorLink]);
        lemma_run_three(Step::CreateParents, Step::RemoveFile, Step::MirrorLink, root, home, p);
        lemma_run_two(Step::RemoveFile, Step::MirrorLink, root, home, p);
        assert(home.remove(p).insert(p, root[p]) =~= home);
    } else {
        assert(sync_steps(src_link, k) =~= seq![Step::CreateParents, Step::CopyFile]);
        lemma_run_two(Step::CreateParents, Step::CopyFile, root, home, p);
        assert(home.insert(p, root[p]) =~= home);
    }
}

/// No entry of `ps` lies inside another, as with the files of one tree.
pub open spec fn prefix_free(ps: Seq<Seq<char>>) -> bool {
    forall|i: int, j: int| 0 <= i < ps.len() && 0 <= j < ps.len() ==> !is_ancestor(#[trigger] ps[i], #[trigger] ps[j])
}

/// Home mirrors every entry of `ps`, with directories above each.
pub open spec fn mirrors(root: TreeView, home: TreeView, ps: Seq<Seq<char>>) -> bool {
    forall|j: int|
        0 <= j < ps.len() ==> home.contains_key(#[trigger] ps[j]) && home[ps[j]] == root[ps[j]]
            && parents_are_dirs(home, ps[j])
}

proof fn lemma_run_all_errors_prefix(op: Action, src: TreeView, dst: TreeView, ps: Seq<Seq<char>>)
    requires
        ps.len() > 0,
        run_all(op, src, dst, ps).1 == 0,
    ensures
        run_all(op, src, dst, ps.drop_last()).1 == 0,
        entry_effect(op, src, run_all(op, src, dst, ps.drop_last()).0, ps.last()).1,
{
}

proof fn lemma_sync_run_mirrors(root: TreeView, home: TreeView, ps: Seq<Seq<char>>)
    requires
        prefix_free(ps),
        forall|j: int| 0 <= j < ps.len() ==> is_entry_of(root, #[trigger] ps[j]),
        run_all(Action::Sync, root, home, ps).1 == 0,
    ensures
        mirrors(root, run_all(Action::Sync, root, home, ps).0, ps),
    decreases ps.len(),
{
    if ps.len() > 0 {
        let init = ps.drop_last();
        let p = ps.last();
        lemma_run_all_errors_prefix(Action::Sync, root, home, ps);
        assert(prefix_free(init)) by {
            assert forall|i: int, j: int| 0 <= i < init.len() && 0 <= j < init.len() implies !is_ancestor(#[trigger] init[i], #[trigger] init[j]) by {
                assert(init[i] == ps[i] && init[j] == ps[j]);
            }
        }
        assert forall|j: int| 0 <= j < init.len() implies is_entry_of(root, #[trigger] init[j]) by {
            assert(init[j] == ps[j]);
        }
        lemma_sync_run_mirrors(root, home, init);
        let h = run_all(Action::Sync, root, home, init).0;
        lemma_sync_entry_success(root, h, p);
        let h2 = run_all(Action::Sync, root, home, ps).0;
        assert(h2 == with_parents(h, p).insert(p, root[p]));
        assert forall|j: int| 0 <= j < ps.len() implies h2.contains_key(#[trigger] ps[j]) && h2[ps[j]] == root[ps[j]]
            && parents_are_dirs(h2, ps[j]) by {
            let q = ps[j];
            assert(!is_ancestor(q, p) && !is_ancestor(p, q)) by {
                assert(ps[ps.len() - 1] == p);
            }
            if j < ps.len() - 1 {
                assert(init[j] == q);
            }
            assert forall|a: Seq<char>| #[trigger] is_ancestor(a, q) implies h2.contains_key(a) && h2[a] is Dir by {
                if j < ps.len() - 1 {
                    assert(parents_are_dirs(h, init[j]));
                }
            }
        }
    }
}

/// Syncing twice in a row is syncing once: when a sync of the files of a
/// root reports no error, a second sync changes nothing in Home and reports
/// no error either.
pub proof fn lemma_sync_idempotent(root: TreeView, home: TreeView, ps: Seq<Seq<char>>)
    requires
        prefix_free(ps),
        forall|j: int| 0 <= j < ps.len() ==> is_entry_of(root, #[trigger] ps[j]),
        run_all(Action::Sync, root, home, ps).1 == 0,
    ensures
        run_all(Action::Sync, root, run_all(Action::Sync, root, home, ps).0, ps)
            == (run_all(Action::Sync, root, home, ps).0, 0nat),
{
    let h = run_all(Action::Sync, root, home, ps).0;
    lemma_sync_run_mirrors(root, home, ps);
    lemma_sync_fixed(root, h, ps, ps.len() as int);
    assert(ps.subrange(0, ps.len() as int) =~= ps);
}

proof fn lemma_sync_fixed(root: TreeView, h: TreeView, ps: Seq<Seq<char>>, k: int)
    requires
        0 <= k <= ps.len(),
        mirrors(root, h, ps),
        forall|j: int| 0 <= j < ps.len() ==> is_entry_of(root, #[trigger] ps[j]),
    ensures
        run_all(Action::Sync, root, h, ps.subrange(0, k)) == (h, 0nat),
    decreases k,
{
    if k > 0 {
        lemma_sync_fixed(root, h, ps, k - 1);
        let s = ps.subrange(0, k);
        assert(s.drop_last() =~= ps.subrange(0, k - 1));
        assert(s.last() == ps[k - 1]);
        lemma_sync_entry_fixpoint(root, h, ps[k - 1]);
    } else {
        assert(ps.subrange(0, k) =~= Seq::<Seq<char>>::empty());
    }
}

/// After a sync of the files of a root that reports no error, the status
/// of every regular file among them is in sync.
pub proof fn lemma_sync_then_in_sync(root: TreeView, home: TreeView, ps: Seq<Seq<char>>)
    requires
        prefix_free(ps),
        forall|j: int| 0 <= j < ps.len() ==> is_entry_of(root, #[trigger] ps[j]),
        run_all(Action::Sync, root, home, ps).1 == 0,
    ensures
        forall|j: int|
            0 <= j < ps.len() && root[ps[j]] is File ==> entry_state(root, run_all(Action::Sync, root, home, ps).0, #[trigger] ps[j])
                == State::InSync,
{
    lemma_sync_run_mirrors(root, home, ps);
}

/// `a` and `b` hold the same at `q`.
pub open spec fn agree_at(a: TreeView, b: TreeView, q: Seq<char>) -> bool {
    a.contains_key(q) == b.contains_key(q) && (a.contains_key(q) ==> a[q] == b[q])
}

proof fn lemma_step_frame(s: Step, src: TreeView, d: TreeView, p: Seq<char>, q: Seq<char>)
    requires
        q != p,
        !is_ancestor(q, p),
        s == Step::CopyFile ==> !(d.contains_key(p) && d[p] is Link),
    ensures
        step_effect(s, src, d, p) is Some ==> agree_at(d, step_effect(s, src, d, p)->Some_0, q),
{
    if s == Step::PruneParents {
        lemma_prune_bounds(d, p, p.len() - 1, crate::plan::PRUNE_DEPTH as nat);
        let r = prune(d, p, p.len() - 1, crate::plan::PRUNE_DEPTH as nat);
        if d.contains_key(q) {
            assert(r.contains_key(q));
        }
        if r.contains_key(q) {
            assert(d.contains_key(q) && r[q] == d[q]);
        }
    } else if s == Step::CreateParents {
        let w = with_parents(d, p);
        assert(w.contains_key(q) == d.contains_key(q));
    }
}

proof fn lemma_sync_entry_frame(root: TreeView, home: TreeView, p: Seq<char>, q: Seq<char>)
    requires
        q != p,
        !is_ancestor(q, p),
    ensures
        agree_at(home, entry_effect(Action::Sync, root, home, p).0, q),
{
    let src_link = kind_of(root, p) == Kind::Symlink;
    let k = kind_of(home, p);
    let steps = sync_steps(src_link, k);
    assert(entry_steps(Action::Sync, root, home, p) == Ok::<Seq<Step>, crate::plan::EntryError>(steps));
    let (s0, s1, s2) = if k == Kind::Dir {
        (Step::RemoveDir, Step::CreateParents, if src_link { Step::MirrorLink } else { Step::CopyFile })
    } else if src_link && (k == Kind::File || k == Kind::Symlink) {
        (Step::CreateParents, Step::RemoveFile, Step::MirrorLink)
    } else if !src_link && k == Kind::Symlink {
        (Step::CreateParents, Step::RemoveFile, Step::CopyFile)
    } else {
        (Step::CreateParents, if src_link { Step::MirrorLink } else { Step::CopyFile }, Step::CopyFile)
    };
    let three = k == Kind::Dir || (src_link && (k == Kind::File || k == Kind::Symlink)) || (!src_link && k == Kind::Symlink);
    lemma_step_frame(s0, root, home, p, q);
    if let Some(d1) = step_effect(s0, root, home, p) {
        assert(d1.contains_key(p) ==> home.contains_key(p) && d1[p] == home[p] || d1[p] is Dir) by {
            if s0 == Step::CreateParents {
                assert(!is_ancestor(p, p));
            }
        }
        lemma_step_frame(s1, root, d1, p, q);
        if three {
            if let Some(d2) = step_effect(s1, root, d1, p) {
                lemma_step_frame(s2, root, d2, p, q);
            }
        }
    }
    if three {
        assert(steps =~= seq![s0, s1, s2]);
        lemma_run_three(s0, s1, s2, root, home, p);
        if let Some(d1) = step_effect(s0, root, home, p) {
            lemma_run_two(s1, s2, root, d1, p);
        }
    } else {
        assert(steps =~= seq![s0, s1]);
        lemma_run_two(s0, s1, root, home, p);
    }
}

proof fn lemma_sync_run_frame(root: TreeView, home: TreeView, ps: Seq<Seq<char>>, q: Seq<char>)
    requires
        forall|j: int| 0 <= j < ps.len() ==> #[trigger] ps[j] != q && !is_ancestor(q, ps[j]),
    ensures
        agree_at(home, run_all(Action::Sync, root, home, ps).0, q),
    decreases ps.len(),
{
    if ps.len() > 0 {
        let init = ps.drop_last();
        assert forall|j: int| 0 <= j < init.len() implies #[trigger] init[j] != q && !is_ancestor(q, init[j]) by {
            assert(init[j] == ps[j]);
        }
        lemma_sync_run_frame(root, home, init, q);
        assert(ps[ps.len() - 1] == ps.last());
        lemma_sync_entry_frame(root, run_all(Action::Sync, root, home, init).0, ps.last(), q);
    }
}

/// What the root's ignore files leave out is never walked, so a sync of
/// what walking yields leaves Home's entry at that path as it was.
pub proof fn lemma_ignored_not_synced(root: TreeView, home: TreeView, ps: Seq<Seq<char>>, q: Seq<char>)
    requires
        forall|j: int| 0 <= j < ps.len() ==> yields(root, #[trigger] ps[j]),
        forall|j: int| 0 <= j < ps.len() ==> parents_are_dirs(root, #[trigger] ps[j]),
        is_entry_of(root, q),
        left_out(root, q),
    ensures
        agree_at(home, run_all(Action::Sync, root, home, ps).0, q),
{
    assert forall|j: int| 0 <= j < ps.len() implies #[trigger] ps[j] != q && !is_ancestor(q, ps[j]) by {
        assert(yields(root, ps[j]));
        assert(parents_are_dirs(root, ps[j]));
    }
    lemma_sync_run_frame(root, home, ps, q);
}

/// Syncing a root file onto a Home link replaces the link by a plain file
/// and leaves the link's target as it was: the copy never writes through
/// the link.
pub proof fn lemma_sync_replaces_link(root: TreeView, home: TreeView, p: Seq<char>, t: Seq<char>, x: Seq<u8>)
    requires
        root.contains_key(p),
        root[p] is File,
        home.contains_key(p),
        home[p] == NodeView::Link(t),
        t != p,
        home.contains_key(t),
        home[t] == NodeView::File(x),
    ensures
        entry_effect(Action::Sync, root, home, p).0.contains_key(t),
        entry_effect(Action::Sync, root, home, p).0[t] == NodeView::File(x),
        (forall|a: Seq<char>| #[trigger] is_ancestor(a, p) ==> !is_file_like(home, a)) ==> {
            &&& entry_effect(Action::Sync, root, home, p).1
            &&& entry_effect(Action::Sync, root, home, p).0[p] == root[p]
        },
{
    let steps = sync_steps(false, Kind::Symlink);
    assert(steps =~= seq![Step::CreateParents, Step::RemoveFile, Step::CopyFile]);
    assert(entry_steps(Action::Sync, root, home, p) == Ok::<Seq<Step>, crate::plan::EntryError>(steps));
    lemma_run_three(Step::CreateParents, Step::RemoveFile, Step::CopyFile, root, home, p);
    let wp = with_parents(home, p);
    if !(exists|a: Seq<char>| #[trigger] is_ancestor(a, p) && is_file_like(home, a)) {
        assert(!is_ancestor(t, p));
        lemma_run_two(Step::RemoveFile, Step::CopyFile, root, wp, p);
        assert(wp[p] == home[p]);
    }
}

/// A directory that holds entries is never removed: syncing, linking or
/// cleaning an entry at its place fails and leaves Home as it was.
pub proof fn lemma_nonempty_dir_untouched(op: Action, root: TreeView, home: TreeView, p: Seq<char>)
    requires
        op != Action::RSync,
        home.contains_key(p),
        home[p] is Dir,
        has_child(home, p),
    ensures
        entry_effect(op, root, home, p) == (home, false),
{
    let steps = entry_steps(op, root, home, p)->Ok_0;
    match op {
        Action::Sync => {
            assert(steps[0] == Step::RemoveDir);
        },
        Action::Link => {
            assert(steps == link_steps(Kind::Dir));
            assert(steps[0] == Step::RemoveDir);
        },
        _ => {
            assert(steps == clean_steps(Kind::Dir));
            assert(steps[0] == Step::RemoveDir);
        },
    }
}

/// Some entry of `t` other than `p` and its ancestors lies inside `a`.
pub open spec fn holds_other(t: TreeView, a: Seq<char>, p: Seq<char>) -> bool {
    exists|q: Seq<char>| t.contains_key(q) && #[trigger] is_ancestor(a, q) && q != p && !is_ancestor(q, p)
}

proof fn lemma_prune_bounds(t: TreeView, p: Seq<char>, i: int, fuel: nat)
    ensures
        forall|q: Seq<char>| #[trigger] prune(t, p, i, fuel).contains_key(q) ==> t.contains_key(q) && prune(t, p, i, fuel)[q] == t[q],
        forall|q: Seq<char>| t.contains_key(q) && !is_ancestor(q, p) ==> #[trigger] prune(t, p, i, fuel).contains_key(q),
        forall|a: Seq<char>, b: Seq<char>|
            is_ancestor(a, p) && a.len() <= i && #[trigger] holds_other(t, a, p) && #[trigger] is_ancestor(b, p) && b.len() <= a.len()
                && t.contains_key(b) ==> prune(t, p, i, fuel).contains_key(b),
    decreases i,
{
    if i <= 0 || fuel == 0 || i >= p.len() {
    } else if p[i] == '/' {
        let a = p.subrange(0, i);
        if t.contains_key(a) && t[a] is Dir && !has_child(t, a) {
            let t2 = t.remove(a);
            lemma_prune_bounds(t2, p, i - 1, (fuel - 1) as nat);
            assert(is_ancestor(a, p));
            assert(prune(t, p, i, fuel) == prune(t2, p, i - 1, (fuel - 1) as nat));
            assert forall|q: Seq<char>| #[trigger] prune(t, p, i, fuel).contains_key(q) implies t.contains_key(q)
                && prune(t, p, i, fuel)[q] == t[q] by {
                assert(t2.contains_key(q));
            }
            assert forall|q: Seq<char>| t.contains_key(q) && !is_ancestor(q, p) implies #[trigger] prune(t, p, i, fuel).contains_key(q) by {
                assert(q != a);
                assert(t2.contains_key(q));
            }
            assert forall|c: Seq<char>, b: Seq<char>|
                is_ancestor(c, p) && c.len() <= i && #[trigger] holds_other(t, c, p) && #[trigger] is_ancestor(b, p) && b.len() <= c.len()
                    && t.contains_key(b) implies prune(t, p, i, fuel).contains_key(b) by {
                if c.len() == i {
                    assert(c =~= a);
                    let q = choose|q: Seq<char>| t.contains_key(q) && #[trigger] is_ancestor(c, q) && q != p && !is_ancestor(q, p);
                    assert(has_child(t, a));
                }
                let q = choose|q: Seq<char>| t.contains_key(q) && #[trigger] is_ancestor(c, q) && q != p && !is_ancestor(q, p);
                assert(q != a);
                assert(holds_other(t2, c, p));
                assert(b != a);
            }
        }
    } else {
        lemma_prune_bounds(t, p, i - 1, fuel);
        assert(prune(t, p, i, fuel) == prune(t, p, i - 1, fuel));
        assert forall|c: Seq<char>| is_ancestor(c, p) && c.len() <= i implies c.len() <= i - 1 by {
            if c.len() == i {
                assert(p[c.len() as int] == '/');
            }
        }
    }
}

/// How many `/` stand in `p` at positions 1 to `i`: the ancestors of `p`
/// that end there.
pub open spec fn slash_count(p: Seq<char>, i: int) -> nat
    decreases i,
{
    if i <= 0 || i >= p.len() {
        0
    } else {
        slash_count(p, i - 1) + if p[i] == '/' { 1nat } else { 0nat }
    }
}

proof fn lemma_slash_count_positive(p: Seq<char>, a: Seq<char>, i: int)
    requires
        is_ancestor(a, p),
        a.len() <= i < p.len(),
    ensures
        slash_count(p, i) >= 1,
    decreases i,
{
    if i > a.len() {
        lemma_slash_count_positive(p, a, i - 1);
    }
}

proof fn lemma_prune_removes(t: TreeView, p: Seq<char>, i: int, fuel: nat)
    requires
        i < p.len(),
        slash_count(p, i) <= fuel,
        !t.contains_key(p),
        forall|a: Seq<char>| #[trigger] is_ancestor(a, p) && a.len() <= i ==> t.contains_key(a) && t[a] is Dir && !holds_other(t, a, p),
        forall|a: Seq<char>| #[trigger] is_ancestor(a, p) && a.len() > i ==> !t.contains_key(a),
    ensures
        forall|a: Seq<char>| #[trigger] is_ancestor(a, p) ==> !prune(t, p, i, fuel).contains_key(a),
    decreases i,
{
    if i <= 0 {
    } else if fuel == 0 {
        assert forall|a: Seq<char>| #[trigger] is_ancestor(a, p) implies !prune(t, p, i, fuel).contains_key(a) by {
            if a.len() <= i {
                lemma_slash_count_positive(p, a, i);
            }
        }
    } else if p[i] == '/' {
        let a = p.subrange(0, i);
        assert(is_ancestor(a, p));
        assert(!has_child(t, a)) by {
            if has_child(t, a) {
                let q = choose|q: Seq<char>| t.contains_key(q) && #[trigger] is_ancestor(a, q);
                if is_ancestor(q, p) {
                    assert(q.len() > i);
                }
                assert(holds_other(t, a, p));
            }
        }
        let t2 = t.remove(a);
        assert forall|b: Seq<char>| #[trigger] is_ancestor(b, p) && b.len() <= i - 1 implies t2.contains_key(b) && t2[b] is Dir
            && !holds_other(t2, b, p) by {
            assert(b != a);
            if holds_other(t2, b, p) {
                let q = choose|q: Seq<char>| t2.contains_key(q) && #[trigger] is_ancestor(b, q) && q != p && !is_ancestor(q, p);
                assert(holds_other(t, b, p));
            }
        }
        assert forall|b: Seq<char>| #[trigger] is_ancestor(b, p) && b.len() > i - 1 implies !t2.contains_key(b) by {
            if b.len() == i {
                assert(b =~= a);
            }
        }
        lemma_prune_removes(t2, p, i - 1, (fuel - 1) as nat);
    } else {
        assert forall|b: Seq<char>| #[trigger] is_ancestor(b, p) && b.len() > i - 1 implies !t.contains_key(b) by {
            if b.len() == i {
                assert(p[b.len() as int] == '/');
            }
        }
        lemma_prune_removes(t, p, i - 1, fuel);
    }
}

/// Cleaning a file takes it away from Home, and after it only directories
/// above it: the nearest directory above it that still holds something else
/// is kept, with every directory above that one. The top of Home, the empty
/// path, is above every entry and is never taken away. When every directory
/// above the file held nothing else, and there are no more of them than
/// the pruning depth, they are all taken away.
pub proof fn lemma_clean_boundary(root: TreeView, home: TreeView, p: Seq<char>)
    requires
        is_file_like(home, p),
    ensures
        entry_effect(Action::Clean, root, home, p).1,
        !entry_effect(Action::Clean, root, home, p).0.contains_key(p),
        forall|q: Seq<char>| #[trigger] entry_effect(Action::Clean, root, home, p).0.contains_key(q) ==> home.contains_key(q)
            && entry_effect(Action::Clean, root, home, p).0[q] == home[q],
        forall|q: Seq<char>| home.contains_key(q) && q != p && !is_ancestor(q, p) ==> #[trigger] entry_effect(Action::Clean, root, home, p).0.contains_key(q),
        forall|a: Seq<char>, b: Seq<char>|
            is_ancestor(a, p) && #[trigger] holds_other(home, a, p) && #[trigger] is_ancestor(b, p) && b.len() <= a.len()
                && home.contains_key(b) ==> entry_effect(Action::Clean, root, home, p).0.contains_key(b),
        ({
            &&& slash_count(p, p.len() - 1) <= crate::plan::PRUNE_DEPTH
            &&& forall|a: Seq<char>| #[trigger] is_ancestor(a, p) ==> home.contains_key(a) && home[a] is Dir && !holds_other(home, a, p)
        }) ==> forall|a: Seq<char>| #[trigger] is_ancestor(a, p) ==> !entry_effect(Action::Clean, root, home, p).0.contains_key(a),
{
    let steps = clean_steps(kind_of(home, p));
    assert(steps =~= seq![Step::RemoveFile, Step::PruneParents]);
    assert(entry_steps(Action::Clean, root, home, p) == Ok::<Seq<Step>, crate::plan::EntryError>(steps));
    lemma_run_two(Step::RemoveFile, Step::PruneParents, root, home, p);
    let h0 = home.remove(p);
    lemma_prune_bounds(h0, p, p.len() - 1, crate::plan::PRUNE_DEPTH as nat);
    assert forall|a: Seq<char>| is_ancestor(a, p) && #[trigger] holds_other(home, a, p) implies holds_other(h0, a, p) && a.len() <= p.len() - 1 by {
        let q = choose|q: Seq<char>| home.contains_key(q) && #[trigger] is_ancestor(a, q) && q != p && !is_ancestor(q, p);
        assert(h0.contains_key(q));
    }
    if slash_count(p, p.len() - 1) <= crate::plan::PRUNE_DEPTH && forall|a: Seq<char>| #[trigger] is_ancestor(a, p) ==> home.contains_key(a)
        && home[a] is Dir && !holds_other(home, a, p) {
        assert forall|a: Seq<char>| #[trigger] is_ancestor(a, p) && a.len() <= p.len() - 1 implies h0.contains_key(a) && h0[a] is Dir
            && !holds_other(h0, a, p) by {
            if holds_other(h0, a, p) {
                let q = choose|q: Seq<char>| h0.contains_key(q) && #[trigger] is_ancestor(a, q) && q != p && !is_ancestor(q, p);
                assert(holds_other(home, a, p));
            }
        }
        lemma_prune_removes(h0, p, p.len() - 1, crate::plan::PRUNE_DEPTH as nat);
    }
}

/// Syncing a file to Home, changing it there and syncing back brings the
/// change into the root; a sync after that changes nothing.
pub proof fn lemma_round_trip(root: TreeView, home: TreeView, f: Seq<char>, a: Seq<u8>, b: Seq<u8>)
    requires
        root.contains_key(f),
        root[f] == NodeView::File(a),
        entry_effect(Action::Sync, root, home, f).1,
    ensures
        ({
            let h2 = entry_effect(Action::Sync, root, home, f).0.insert(f, NodeView::File(b));
            let r2 = entry_effect(Action::RSync, h2, root, f);
            &&& r2 == (root.insert(f, NodeView::File(b)), true)
            &&& entry_effect(Action::Sync, r2.0, h2, f) == (h2, true)
        }),
{
    lemma_sync_entry_success(root, home, f);
    let h1 = entry_effect(Action::Sync, root, home, f).0;
    let h2 = h1.insert(f, NodeView::File(b));
    let r2 = root.insert(f, NodeView::File(b));
    assert(h2[f] == NodeView::File(b));
    assert(kind_of(h2, f) == Kind::File);
    assert(kind_of(root, f) == Kind::File);
    assert(entry_steps(Action::RSync, h2, root, f) == Ok::<Seq<Step>, crate::plan::EntryError>(seq![Step::CopyFile]));
    assert(seq![Step::CopyFile].drop_first() =~= Seq::<Step>::empty());
    assert(seq![Step::CopyFile][0] == Step::CopyFile);
    assert(step_effect(Step::CopyFile, h2, root, f) == Some(r2));
    assert(run_steps(Seq::<Step>::empty(), h2, r2, f) == (r2, true));
    assert(run_steps(seq![Step::CopyFile], h2, root, f) == (r2, true));
    assert(parents_are_dirs(h2, f));
    lemma_sync_entry_fixpoint(r2, h2, f);
}

} // verus!
