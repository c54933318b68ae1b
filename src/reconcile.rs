//! The reconciling operations, run over in-memory trees.

use vstd::prelude::*;
use crate::plan::{
    Alias, EntryError, Kind, Step, TreeView, clean_plan, clean_steps, kind_of, link_plan, link_steps,
    rsync_plan, rsync_steps, run_steps, sync_plan, sync_steps,
};
use crate::tree::{Node, Tree};

verus! {

/// A reconciling operation.
#[derive(Clone, Copy, Debug, PartialEq, Eq, Structural)]
pub enum Action {
    /// Root to Home, by copy.
    Sync,
    /// Home back to the root, by copy.
    RSync,
    /// Root to Home, by links.
    Link,
    /// Take the root's entries away from Home.
    Clean,
}

impl Action {
    /// The past-tense verb that reports this operation.
    pub fn verb(&self) -> (r: &'static str)
        ensures
            r@ == action_verb(*self),
    {
        match self {
            Action::Sync | Action::RSync => "Synced",
            Action::Link => "Linked",
            Action::Clean => "Removed",
        }
    }
}

pub open spec fn action_verb(a: Action) -> Seq<char> {
    match a {
        Action::Sync | Action::RSync => "Synced"@,
        Action::Link => "Linked"@,
        Action::Clean => "Removed"@,
    }
}

/// How a tree pictures a Home link: one whose target is its own path stands
/// for a link to the root's copy of that entry, which is what linking makes.
pub open spec fn alias_of(home: TreeView, p: Seq<char>) -> Alias {
    if kind_of(home, p) == Kind::Symlink {
        if home[p]->Link_0 == p {
            Alias::ToSource
        } else {
            Alias::Elsewhere
        }
    } else {
        Alias::NotALink
    }
}

/// The steps of operation `op` on an entry, from what the source and the
/// destination hold there and, for `RSync`, where a Home link leads.
pub open spec fn plan_steps(op: Action, src: Kind, dst: Kind, alias: Alias) -> Result<Seq<Step>, EntryError> {
    match op {
        Action::Sync => Ok(sync_steps(src == Kind::Symlink, dst)),
        Action::Link => Ok(link_steps(dst)),
        Action::Clean => Ok(clean_steps(dst)),
        Action::RSync => rsync_steps(src, dst, alias),
    }
}

/// The steps an operation takes on entry `p`, reading `src` and writing
/// `dst`: root and Home, or Home and root for `RSync`.
pub open spec fn entry_steps(op: Action, src: TreeView, dst: TreeView, p: Seq<char>) -> Result<Seq<Step>, EntryError> {
    plan_steps(op, kind_of(src, p), kind_of(dst, p), alias_of(src, p))
}

/// The steps of operation `op` on an entry whose source holds `src` and
/// whose destination holds `dst`; `alias` tells, for `RSync`, where a Home
/// link leads.
pub fn plan(op: Action, src: Kind, dst: Kind, alias: Alias) -> (r: Result<Vec<Step>, EntryError>)
    ensures
        match (r, plan_steps(op, src, dst, alias)) {
            (Ok(v), Ok(s)) => v@ == s,
            (Err(e), Err(f)) => e == f,
            _ => false,
        },
{
    match op {
        Action::Sync => Ok(sync_plan(src == Kind::Symlink, dst)),
        Action::Link => Ok(link_plan(dst)),
        Action::Clean => Ok(clean_plan(dst)),
        Action::RSync => rsync_plan(src, dst, alias),
    }
}

/// The destination after an operation on entry `p`, and whether it succeeded.
pub open spec fn entry_effect(op: Action, src: TreeView, dst: TreeView, p: Seq<char>) -> (TreeView, bool) {
    match entry_steps(op, src, dst, p) {
        Ok(s) => run_steps(s, src, dst, p),
        Err(_) => (dst, false),
    }
}

/// The destination after an operation on each entry of `ps` in turn, and
/// how many entries failed.
pub open spec fn run_all(op: Action, src: TreeView, dst: TreeView, ps: Seq<Seq<char>>) -> (TreeView, nat)
    decreases ps.len(),
{
    if ps.len() == 0 {
        (dst, 0)
    } else {
        let (d, e) = run_all(op, src, dst, ps.drop_last());
        let (d2, ok) = entry_effect(op, src, d, ps.last());
        (d2, if ok { e } else { e + 1 })
    }
}

/// The entries of `ps` that an operation handled without error, in order.
pub open spec fn handled(op: Action, src: TreeView, dst: TreeView, ps: Seq<Seq<char>>) -> Seq<Seq<char>>
    decreases ps.len(),
{
    if ps.len() == 0 {
        Seq::empty()
    } else {
        let prev = handled(op, src, dst, ps.drop_last());
        if entry_effect(op, src, run_all(op, src, dst, ps.drop_last()).0, ps.last()).1 {
            prev.push(ps.last())
        } else {
            prev
        }
    }
}

/// What a run did: how many entries were handled, how many failed, and the
/// entries handled, in the order they came.
pub struct Report {
    pub files: usize,
    pub errors: usize,
    pub touched: Vec<String>,
}

impl Tree {
    /// Carry out `steps` on entry `p` in order, stopping at the first that
    /// fails, which is returned.
    pub fn run_plan(&mut self, steps: &Vec<Step>, src: &Tree, p: &String) -> (r: Result<(), Step>)
        ensures
            final(self)@ == run_steps(steps@, src@, old(self)@, p@).0,
            r is Ok == run_steps(steps@, src@, old(self)@, p@).1,
    {
        let mut k: usize = 0;
        let n = steps.len();
        assert(steps@.subrange(0, n as int) =~= steps@);
        assert(steps@.subrange(k as int, n as int) =~= steps@);
        while k < n
            invariant
                k <= n,
                n == steps@.len(),
                run_steps(steps@, src@, old(self)@, p@) == run_steps(steps@.subrange(k as int, n as int), src@, self@, p@),
            decreases n - k,
        {
            let ghost rest = steps@.subrange(k as int, n as int);
            assert(rest[0] == steps@[k as int]);
            assert(rest.drop_first() =~= steps@.subrange(k + 1, n as int));
            let step = steps[k];
            if !self.apply(step, src, p) {
                return Err(step);
            }
            k += 1;
        }
        assert(steps@.subrange(k as int, n as int) =~= Seq::<Step>::empty());
        Ok(())
    }

    /// Carry out operation `op` on entry `p`, reading `src`: the root for
    /// `Sync`, `Link` and `Clean`, Home for `RSync`.
    pub fn reconcile_entry(&mut self, op: Action, src: &Tree, p: &String) -> (r: Result<(), EntryError>)
        ensures
            final(self)@ == entry_effect(op, src@, old(self)@, p@).0,
            r is Ok == entry_effect(op, src@, old(self)@, p@).1,
            (r == Err::<(), EntryError>(EntryError::UnresolvedLink)) == (entry_steps(op, src@, old(self)@, p@) is Err),
    {
        let alias = match src.get(p) {
            Some(Node::Link(t)) => if *t == *p {
                Alias::ToSource
            } else {
                Alias::Elsewhere
            },
            _ => Alias::NotALink,
        };
        match plan(op, src.kind(p), self.kind(p), alias) {
            Ok(steps) => match self.run_plan(&steps, src, p) {
                Ok(()) => Ok(()),
                Err(step) => Err(EntryError::StepFailed(step)),
            },
            Err(e) => Err(e),
        }
    }

    /// Carry out operation `op` on every entry of `entries` in turn, reading
    /// `src`. A failed entry is counted and the run goes on.
    pub fn reconcile(&mut self, op: Action, src: &Tree, entries: &Vec<String>) -> (r: Report)
        ensures
            final(self)@ == run_all(op, src@, old(self)@, entries@.map_values(|e: String| e@)).0,
            r.errors == run_all(op, src@, old(self)@, entries@.map_values(|e: String| e@)).1,
            r.files + r.errors == entries@.len(),
            r.touched@.map_values(|e: String| e@) == handled(op, src@, old(self)@, entries@.map_values(|e: String| e@)),
            r.touched@.len() == r.files,
    {
        let ghost ps = entries@.map_values(|e: String| e@);
        let mut files: usize = 0;
        let mut errors: usize = 0;
        let mut touched: Vec<String> = Vec::new();
        let mut i: usize = 0;
        assert(touched@.map_values(|e: String| e@) =~= Seq::<Seq<char>>::empty());
        assert(ps.subrange(0, 0) =~= Seq::<Seq<char>>::empty());
        while i < entries.len()
            invariant
                i <= entries.len(),
                ps == entries@.map_values(|e: String| e@),
                (self@, errors as nat) == run_all(op, src@, old(self)@, ps.subrange(0, i as int)),
                files + errors == i,
                touched@.len() == files,
                touched@.map_values(|e: String| e@) == handled(op, src@, old(self)@, ps.subrange(0, i as int)),
            decreases entries.len() - i,
        {
            assert(ps.subrange(0, i + 1).drop_last() =~= ps.subrange(0, i as int));
            assert(ps.subrange(0, i + 1).last() == entries@[i as int]@);
            let ghost before = touched@.map_values(|e: String| e@);
            match self.reconcile_entry(op, src, &entries[i]) {
                Ok(()) => {
                    files += 1;
                    touched.push(entries[i].clone());
                    assert(touched@.map_values(|e: String| e@) =~= before.push(entries@[i as int]@));
                },
                Err(_) => {
                    errors += 1;
                },
            }
            i += 1;
        }
        assert(ps.subrange(0, i as int) =~= ps);
        assert(ps.subrange(0, 0) =~= Seq::<Seq<char>>::empty()) by {}
        Report { files, errors, touched }
    }
}

} // verus!
