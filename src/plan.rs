//! Per-entry plans of the reconciling operations, and what each step does
//! to a file tree.

use vstd::prelude::*;
use crate::tree::{NodeView, is_ancestor};

verus! {

/// A file tree as a map from relative path to entry.
pub type TreeView = Map<Seq<char>, NodeView>;

/// What a tree holds at a path, seen without following a link there.
#[derive(Clone, Copy, Debug, PartialEq, Eq, Structural)]
pub enum Kind {
    Absent,
    File,
    Symlink,
    Dir,
}

/// One file-system action on the entry being reconciled. The source is the
/// tree read from, the destination the tree written to.
#[derive(Clone, Copy, Debug, PartialEq, Eq, Structural)]
pub enum Step {
    /// Remove the destination directory; fails unless it is empty.
    RemoveDir,
    /// Create the destination's missing ancestor directories.
    CreateParents,
    /// Remove the destination file or link.
    RemoveFile,
    /// Write the source's content at the destination, following a link on
    /// either side.
    CopyFile,
    /// Create at the destination a link with the source link's own target.
    MirrorLink,
    /// Create at the destination a link to the source entry.
    LinkToSource,
    /// Remove the destination's ancestors, deepest first, while they are
    /// empty directories.
    PruneParents,
}

/// Why an entry could not be reconciled.
#[derive(Clone, Copy, Debug, PartialEq, Eq, Structural)]
pub enum EntryError {
    /// This step failed; the steps before it took effect.
    StepFailed(Step),
    /// A link in Home could not be read or resolved; nothing was done.
    UnresolvedLink,
}

/// Where a link in Home leads, relative to the configuration root's copy.
#[derive(Clone, Copy, Debug, PartialEq, Eq, Structural)]
pub enum Alias {
    /// The Home entry is not a link.
    NotALink,
    /// The link resolves to the root's copy of the same entry.
    ToSource,
    /// The link resolves to some other file.
    Elsewhere,
    /// Reading or resolving the link failed.
    Unresolved,
}

/// Where a Home link leads, from the canonical path of its target and that
/// of the root's copy; `None` where reading or resolving failed.
pub fn alias_from(target: Option<&String>, source: Option<&String>) -> (r: Alias)
    ensures
        r == match (target, source) {
            (Some(t), Some(s)) => if t@ == s@ { Alias::ToSource } else { Alias::Elsewhere },
            _ => Alias::Unresolved,
        },
{
    match (target, source) {
        (Some(t), Some(s)) => if *t == *s { Alias::ToSource } else { Alias::Elsewhere },
        _ => Alias::Unresolved,
    }
}

pub open spec fn kind_of(t: TreeView, p: Seq<char>) -> Kind {
    if !t.contains_key(p) {
        Kind::Absent
    } else {
        match t[p] {
            NodeView::File(_) => Kind::File,
            NodeView::Link(_) => Kind::Symlink,
            NodeView::Dir => Kind::Dir,
        }
    }
}

pub open spec fn is_file_like(t: TreeView, p: Seq<char>) -> bool {
    t.contains_key(p) && !(t[p] is Dir)
}

/// Some entry of `t` lies inside `a`.
pub open spec fn has_child(t: TreeView, a: Seq<char>) -> bool {
    exists|q: Seq<char>| t.contains_key(q) && #[trigger] is_ancestor(a, q)
}

/// The content read at `p`, following one link.
pub open spec fn read_through(t: TreeView, p: Seq<char>) -> Option<Seq<u8>> {
    if !t.contains_key(p) {
        None
    } else {
        match t[p] {
            NodeView::File(c) => Some(c),
            NodeView::Link(q) => if t.contains_key(q) && t[q] is File {
                Some(t[q]->File_0)
            } else {
                None
            },
            NodeView::Dir => None,
        }
    }
}

/// Writing `c` at `p`, following one link: what a plain copy does.
pub open spec fn write_through(t: TreeView, p: Seq<char>, c: Seq<u8>) -> Option<TreeView> {
    let w = if t.contains_key(p) && t[p] is Link { t[p]->Link_0 } else { p };
    if t.contains_key(w) && !(t[w] is File) {
        None
    } else {
        Some(t.insert(w, NodeView::File(c)))
    }
}

/// `t` with every ancestor of `p` a directory.
pub open spec fn with_parents(t: TreeView, p: Seq<char>) -> TreeView {
    Map::new(
        |q: Seq<char>| t.contains_key(q) || is_ancestor(q, p),
        |q: Seq<char>| if is_ancestor(q, p) { NodeView::Dir } else { t[q] },
    )
}

/// How many ancestors pruning may remove at most.
pub const PRUNE_DEPTH: u64 = 21;

/// Removing the ancestors of `p` that end before position `i` or earlier,
/// deepest first, while each is an empty directory.
pub open spec fn prune(t: TreeView, p: Seq<char>, i: int, fuel: nat) -> TreeView
    decreases i,
{
    if i <= 0 || fuel == 0 || i >= p.len() {
        t
    } else if p[i] == '/' {
        let a = p.subrange(0, i);
        if t.contains_key(a) && t[a] is Dir && !has_child(t, a) {
            prune(t.remove(a), p, i - 1, (fuel - 1) as nat)
        } else {
            t
        }
    } else {
        prune(t, p, i - 1, fuel)
    }
}

/// The tree after one step on entry `p`; `None` when the step fails.
pub open spec fn step_effect(step: Step, src: TreeView, dst: TreeView, p: Seq<char>) -> Option<TreeView> {
    match step {
        Step::RemoveDir => if kind_of(dst, p) == Kind::Dir && !has_child(dst, p) {
            Some(dst.remove(p))
        } else {
            None
        },
        Step::CreateParents => if exists|a: Seq<char>| #[trigger] is_ancestor(a, p) && is_file_like(dst, a) {
            None
        } else {
            Some(with_parents(dst, p))
        },
        Step::RemoveFile => if is_file_like(dst, p) {
            Some(dst.remove(p))
        } else {
            None
        },
        Step::CopyFile => match read_through(src, p) {
            Some(c) => write_through(dst, p, c),
            None => None,
        },
        Step::MirrorLink => if kind_of(src, p) == Kind::Symlink && !dst.contains_key(p) {
            Some(dst.insert(p, src[p]))
        } else {
            None
        },
        Step::LinkToSource => if !dst.contains_key(p) {
            Some(dst.insert(p, NodeView::Link(p)))
        } else {
            None
        },
        Step::PruneParents => Some(prune(dst, p, p.len() - 1, PRUNE_DEPTH as nat)),
    }
}

/// Steps run in order until one fails: the tree reached, and whether all
/// of them succeeded.
pub open spec fn run_steps(steps: Seq<Step>, src: TreeView, dst: TreeView, p: Seq<char>) -> (TreeView, bool)
    decreases steps.len(),
{
    if steps.len() == 0 {
        (dst, true)
    } else {
        match step_effect(steps[0], src, dst, p) {
            Some(d) => run_steps(steps.drop_first(), src, d, p),
            None => (dst, false),
        }
    }
}

pub open spec fn sync_steps(source_is_link: bool, dest: Kind) -> Seq<Step> {
    let clear_dir = if dest == Kind::Dir { seq![Step::RemoveDir] } else { Seq::empty() };
    let rest = if source_is_link {
        if dest == Kind::File || dest == Kind::Symlink {
            seq![Step::RemoveFile, Step::MirrorLink]
        } else {
            seq![Step::MirrorLink]
        }
    } else if dest == Kind::Symlink {
        seq![Step::RemoveFile, Step::CopyFile]
    } else {
        seq![Step::CopyFile]
    };
    clear_dir + seq![Step::CreateParents] + rest
}

pub open spec fn link_steps(dest: Kind) -> Seq<Step> {
    let clear_dir = if dest == Kind::Dir { seq![Step::RemoveDir] } else { Seq::empty() };
    let clear_file = if dest == Kind::File || dest == Kind::Symlink {
        seq![Step::RemoveFile]
    } else {
        Seq::empty()
    };
    clear_dir + seq![Step::CreateParents] + clear_file + seq![Step::LinkToSource]
}

pub open spec fn clean_steps(dest: Kind) -> Seq<Step> {
    match dest {
        Kind::File | Kind::Symlink => seq![Step::RemoveFile, Step::PruneParents],
        Kind::Dir => seq![Step::RemoveDir, Step::PruneParents],
        Kind::Absent => Seq::empty(),
    }
}

pub open spec fn rsync_steps(home: Kind, root: Kind, alias: Alias) -> Result<Seq<Step>, EntryError> {
    if home == Kind::Symlink && alias == Alias::Unresolved {
        Err(EntryError::UnresolvedLink)
    } else if home == Kind::Symlink && alias == Alias::ToSource {
        Ok(Seq::empty())
    } else if home == Kind::File || home == Kind::Symlink {
        if root == Kind::Symlink {
            Ok(seq![Step::RemoveFile, Step::CopyFile])
        } else {
            Ok(seq![Step::CopyFile])
        }
    } else {
        Ok(Seq::empty())
    }
}

/// Steps that mirror a root entry into Home by copying: a directory in the
/// way is removed only if empty, a link at the destination is removed before
/// any write, and a root link is mirrored as a link with the same target.
pub fn sync_plan(source_is_link: bool, dest: Kind) -> (r: Vec<Step>)
    ensures
        r@ == sync_steps(source_is_link, dest),
{
    let mut r: Vec<Step> = Vec::new();
    if dest == Kind::Dir {
        r.push(Step::RemoveDir);
    }
    r.push(Step::CreateParents);
    if source_is_link {
        if dest == Kind::File || dest == Kind::Symlink {
            r.push(Step::RemoveFile);
        }
        r.push(Step::MirrorLink);
    } else {
        if dest == Kind::Symlink {
            r.push(Step::RemoveFile);
        }
        r.push(Step::CopyFile);
    }
    assert(r@ =~= sync_steps(source_is_link, dest));
    r
}

/// Steps that replace the Home entry with a link to the root's copy.
pub fn link_plan(dest: Kind) -> (r: Vec<Step>)
    ensures
        r@ == link_steps(dest),
{
    let mut r: Vec<Step> = Vec::new();
    if dest == Kind::Dir {
        r.push(Step::RemoveDir);
    }
    r.push(Step::CreateParents);
    if dest == Kind::File || dest == Kind::Symlink {
        r.push(Step::RemoveFile);
    }
    r.push(Step::LinkToSource);
    assert(r@ =~= link_steps(dest));
    r
}

/// Steps that take the Home entry away, then the directories it leaves
/// empty. A directory in the way is removed only if empty.
pub fn clean_plan(dest: Kind) -> (r: Vec<Step>)
    ensures
        r@ == clean_steps(dest),
{
    let mut r: Vec<Step> = Vec::new();
    match dest {
        Kind::File | Kind::Symlink => {
            r.push(Step::RemoveFile);
            r.push(Step::PruneParents);
        },
        Kind::Dir => {
            r.push(Step::RemoveDir);
            r.push(Step::PruneParents);
        },
        Kind::Absent => {},
    }
    assert(r@ =~= clean_steps(dest));
    r
}

/// Steps that bring a Home entry back into the root. A Home link that
/// resolves to the root's own copy is left alone, since copying through it
/// would truncate that very file; one that cannot be resolved is an error.
pub fn rsync_plan(home: Kind, root: Kind, alias: Alias) -> (r: Result<Vec<Step>, EntryError>)
    ensures
        match (r, rsync_steps(home, root, alias)) {
            (Ok(v), Ok(s)) => v@ == s,
            (Err(e), Err(f)) => e == f,
            _ => false,
        },
{
    let mut r: Vec<Step> = Vec::new();
    if home == Kind::Symlink && alias == Alias::Unresolved {
        return Err(EntryError::UnresolvedLink);
    } else if home == Kind::Symlink && alias == Alias::ToSource {
    } else if home == Kind::File || home == Kind::Symlink {
        if root == Kind::Symlink {
            r.push(Step::RemoveFile);
        }
        r.push(Step::CopyFile);
    }
    assert(r@ =~= rsync_steps(home, root, alias)->Ok_0);
    Ok(r)
}

} // verus!
