//! An in-memory file tree addressed by root-relative paths.

use vstd::prelude::*;
use vstd::string::*;
use crate::plan::{Kind, Step, TreeView, has_child, is_file_like, kind_of, prune, read_through, step_effect, with_parents, write_through, PRUNE_DEPTH};

verus! {

/// One entry of a file tree.
pub enum Node {
    File(Vec<u8>),
    Link(String),
    Dir,
}

/// What an entry of a file tree holds, mathematically.
pub enum NodeView {
    File(Seq<u8>),
    Link(Seq<char>),
    Dir,
}

impl View for Node {
    type V = NodeView;

    open spec fn view(&self) -> NodeView {
        match self {
            Node::File(c) => NodeView::File(c@),
            Node::Link(t) => NodeView::Link(t@),
            Node::Dir => NodeView::Dir,
        }
    }
}

impl Node {
    /// A copy of this entry.
    pub fn duplicate(&self) -> (r: Node)
        ensures
            r@ == self@,
    {
        match self {
            Node::File(c) => Node::File(copy_bytes(c)),
            Node::Link(t) => Node::Link(t.clone()),
            Node::Dir => Node::Dir,
        }
    }
}

/// A copy of a byte sequence.
pub fn copy_bytes(c: &Vec<u8>) -> (r: Vec<u8>)
    ensures
        r@ == c@,
{
    let mut d: Vec<u8> = Vec::new();
    let mut i: usize = 0;
    while i < c.len()
        invariant
            i <= c.len(),
            d@ == c@.subrange(0, i as int),
        decreases c.len() - i,
    {
        d.push(c[i]);
        i += 1;
        assert(d@ =~= c@.subrange(0, i as int));
    }
    assert(d@ =~= c@);
    d
}

/// `a` names a directory that contains `p`, at any depth.
pub open spec fn is_ancestor(a: Seq<char>, p: Seq<char>) -> bool {
    0 < a.len() < p.len() && p[a.len() as int] == '/' && p.subrange(0, a.len() as int) == a
}

/// Whether `a` names a directory that contains `p`.
pub fn is_inside(a: &String, p: &String) -> (r: bool)
    ensures
        r == is_ancestor(a@, p@),
{
    let n = a.as_str().unicode_len();
    let m = p.as_str().unicode_len();
    if n == 0 || n >= m {
        return false;
    }
    if p.as_str().get_char(n) != '/' {
        return false;
    }
    let mut i: usize = 0;
    while i < n
        invariant
            i <= n < m,
            n == a@.len(),
            m == p@.len(),
            forall|j: int| 0 <= j < i ==> a@[j] == p@[j],
        decreases n - i,
    {
        if a.as_str().get_char(i) != p.as_str().get_char(i) {
            assert(p@.subrange(0, n as int)[i as int] != a@[i as int]);
            return false;
        }
        i += 1;
    }
    assert(p@.subrange(0, n as int) =~= a@);
    true
}

/// The first `i` characters of `p`.
fn prefix_of(p: &String, i: usize) -> (r: String)
    requires
        i <= p@.len(),
    ensures
        r@ == p@.subrange(0, i as int),
{
    p.as_str().substring_char(0, i).to_owned()
}

/// `t` with the ancestors of `p` that are shorter than `i` made directories.
pub open spec fn with_parents_below(t: TreeView, p: Seq<char>, i: int) -> TreeView {
    Map::new(
        |q: Seq<char>| t.contains_key(q) || (is_ancestor(q, p) && q.len() < i),
        |q: Seq<char>| if is_ancestor(q, p) && q.len() < i { NodeView::Dir } else { t[q] },
    )
}

/// The latest record of `p` in a journal of writes.
pub open spec fn lookup(log: Seq<(String, Option<Node>)>, p: Seq<char>) -> Option<NodeView>
    decreases log.len(),
{
    if log.len() == 0 {
        None
    } else if log.last().0@ == p {
        match log.last().1 {
            Some(n) => Some(n@),
            None => None,
        }
    } else {
        lookup(log.drop_last(), p)
    }
}

/// An in-memory file tree. Paths are relative to the tree's top, with `/`
/// between components; the top itself is the empty path and is not an entry.
pub struct Tree {
    log: Vec<(String, Option<Node>)>,
}

impl View for Tree {
    type V = Map<Seq<char>, NodeView>;

    closed spec fn view(&self) -> Map<Seq<char>, NodeView> {
        Map::new(|p: Seq<char>| lookup(self.log@, p) is Some, |p: Seq<char>| lookup(self.log@, p).unwrap())
    }
}

proof fn lemma_lookup_some_recorded(log: Seq<(String, Option<Node>)>, p: Seq<char>)
    requires
        lookup(log, p) is Some,
    ensures
        exists|i: int| 0 <= i < log.len() && (#[trigger] log[i]).0@ == p,
    decreases log.len(),
{
    if log.last().0@ != p {
        lemma_lookup_some_recorded(log.drop_last(), p);
        let i = choose|i: int| 0 <= i < log.drop_last().len() && (#[trigger] log.drop_last()[i]).0@ == p;
        assert(log[i] == log.drop_last()[i]);
    }
}

impl Tree {
    /// An empty tree.
    pub fn new() -> (r: Tree)
        ensures
            r@ == Map::<Seq<char>, NodeView>::empty(),
    {
        let r = Tree { log: Vec::new() };
        assert(r@ =~= Map::<Seq<char>, NodeView>::empty());
        r
    }

    /// The entry at `p`, if any.
    pub fn get(&self, p: &String) -> (r: Option<&Node>)
        ensures
            match r {
                Some(n) => self@.contains_key(p@) && self@[p@] == n@,
                None => !self@.contains_key(p@),
            },
    {
        let mut i: usize = self.log.len();
        assert(self.log@.subrange(0, i as int) =~= self.log@);
        while i > 0
            invariant
                i <= self.log.len(),
                lookup(self.log@, p@) == lookup(self.log@.subrange(0, i as int), p@),
            decreases i,
        {
            let ghost prefix = self.log@.subrange(0, i as int);
            assert(prefix.drop_last() =~= self.log@.subrange(0, i - 1));
            if self.log[i - 1].0 == *p {
                return match &self.log[i - 1].1 {
                    Some(n) => Some(n),
                    None => None,
                };
            }
            i -= 1;
        }
        None
    }

    /// Every path the tree has held, each entry's among them.
    pub fn paths(&self) -> (r: Vec<String>)
        ensures
            forall|q: Seq<char>| #[trigger] self@.contains_key(q) ==> exists|i: int| 0 <= i < r@.len() && (#[trigger] r@[i])@ == q,
    {
        let mut r: Vec<String> = Vec::new();
        let mut i: usize = 0;
        while i < self.log.len()
            invariant
                i <= self.log.len(),
                r@.len() == i,
                forall|j: int| 0 <= j < i ==> (#[trigger] r@[j])@ == self.log@[j].0@,
            decreases self.log.len() - i,
        {
            r.push(self.log[i].0.clone());
            i += 1;
        }
        proof {
            assert forall|q: Seq<char>| #[trigger] self@.contains_key(q) implies exists|i: int| 0 <= i < r@.len() && (#[trigger] r@[i])@ == q by {
                lemma_lookup_some_recorded(self.log@, q);
                let j = choose|j: int| 0 <= j < self.log@.len() && (#[trigger] self.log@[j]).0@ == q;
                assert(r@[j]@ == q);
            }
        }
        r
    }

    /// What the tree holds at `p`, without following a link there.
    pub fn kind(&self, p: &String) -> (r: Kind)
        ensures
            r == kind_of(self@, p@),
    {
        match self.get(p) {
            None => Kind::Absent,
            Some(Node::File(_)) => Kind::File,
            Some(Node::Link(_)) => Kind::Symlink,
            Some(Node::Dir) => Kind::Dir,
        }
    }

    /// Whether some entry lies inside `a`.
    pub fn has_child(&self, a: &String) -> (r: bool)
        ensures
            r == has_child(self@, a@),
    {
        let mut i: usize = 0;
        while i < self.log.len()
            invariant
                i <= self.log.len(),
                forall|j: int|
                    0 <= j < i ==> !(is_ancestor(a@, (#[trigger] self.log@[j]).0@) && self@.contains_key(
                        self.log@[j].0@,
                    )),
            decreases self.log.len() - i,
        {
            let q = &self.log[i].0;
            if is_inside(a, q) {
                if self.get(q).is_some() {
                    assert(self@.contains_key(q@) && is_ancestor(a@, q@));
                    return true;
                }
            }
            i += 1;
        }
        proof {
            if has_child(self@, a@) {
                let q = choose|q: Seq<char>| self@.contains_key(q) && #[trigger] is_ancestor(a@, q);
                lemma_lookup_some_recorded(self.log@, q);
                let j = choose|j: int| 0 <= j < self.log@.len() && (#[trigger] self.log@[j]).0@ == q;
                assert(!(is_ancestor(a@, self.log@[j].0@) && self@.contains_key(self.log@[j].0@)));
            }
        }
        false
    }

    /// The content at `p`, read through one link.
    pub fn read_through(&self, p: &String) -> (r: Option<Vec<u8>>)
        ensures
            match r {
                Some(c) => read_through(self@, p@) == Some(c@),
                None => read_through(self@, p@) is None,
            },
    {
        match self.get(p) {
            Some(Node::File(c)) => Some(copy_bytes(c)),
            Some(Node::Link(q)) => match self.get(q) {
                Some(Node::File(c)) => Some(copy_bytes(c)),
                _ => None,
            },
            _ => None,
        }
    }

    /// Write `c` at `p`, through a link there. False, and nothing written,
    /// when the place to write is not a file.
    pub fn write_through(&mut self, p: &String, c: Vec<u8>) -> (ok: bool)
        ensures
            match write_through(old(self)@, p@, c@) {
                Some(t) => ok && final(self)@ == t,
                None => !ok && final(self)@ == old(self)@,
            },
    {
        let w = match self.get(p) {
            Some(Node::Link(t)) => t.clone(),
            _ => p.clone(),
        };
        match self.get(&w) {
            Some(Node::Link(_)) | Some(Node::Dir) => false,
            _ => {
                self.set(w, Node::File(c));
                true
            },
        }
    }

    /// Make every ancestor of `p` a directory. False, and nothing made, when
    /// one of them is a file or a link.
    pub fn create_parents(&mut self, p: &String) -> (ok: bool)
        ensures
            match step_effect(Step::CreateParents, Map::empty(), old(self)@, p@) {
                Some(t) => ok && final(self)@ == t,
                None => !ok && final(self)@ == old(self)@,
            },
    {
        let m = p.as_str().unicode_len();
        let mut i: usize = 1;
        while i < m
            invariant
                1 <= i <= m || m == 0,
                m == p@.len(),
                forall|a: Seq<char>| #[trigger] is_ancestor(a, p@) && a.len() < i ==> !is_file_like(self@, a),
            decreases m - i,
        {
            if p.as_str().get_char(i) == '/' {
                let a = prefix_of(p, i);
                assert(is_ancestor(a@, p@));
                match self.get(&a) {
                    Some(Node::File(_)) | Some(Node::Link(_)) => {
                        return false;
                    },
                    _ => {},
                }
            }
            proof {
                assert forall|a: Seq<char>| #[trigger] is_ancestor(a, p@) && a.len() < i + 1 implies !is_file_like(self@, a) by {
                    if a.len() == i {
                        assert(a =~= p@.subrange(0, i as int));
                    }
                }
            }
            i += 1;
        }
        let ghost start = self@;
        let mut i: usize = 1;
        assert(self@ =~= with_parents_below(start, p@, 1));
        while i < m
            invariant
                1 <= i <= m || m == 0,
                m == p@.len(),
                self@ == with_parents_below(start, p@, i as int),
            decreases m - i,
        {
            if p.as_str().get_char(i) == '/' {
                let a = prefix_of(p, i);
                assert(is_ancestor(a@, p@));
                self.set(a, Node::Dir);
                assert forall|q: Seq<char>| is_ancestor(q, p@) && q.len() == i implies q == a@ by {
                    assert(q =~= p@.subrange(0, i as int));
                }
                assert(self@ =~= with_parents_below(start, p@, i + 1));
            } else {
                assert forall|q: Seq<char>| is_ancestor(q, p@) implies q.len() != i by {}
                assert(self@ =~= with_parents_below(start, p@, i + 1));
            }
            i += 1;
        }
        assert(self@ =~= with_parents(start, p@));
        true
    }

    /// Remove the ancestors of `p`, deepest first, while each is an empty
    /// directory, at most `PRUNE_DEPTH` of them.
    pub fn prune(&mut self, p: &String)
        ensures
            final(self)@ == prune(old(self)@, p@, p@.len() - 1, PRUNE_DEPTH as nat),
    {
        let m = p.as_str().unicode_len();
        if m == 0 {
            return;
        }
        let mut i: usize = m - 1;
        let mut fuel: u64 = PRUNE_DEPTH;
        while i > 0 && fuel > 0
            invariant
                i < m,
                m == p@.len(),
                prune(old(self)@, p@, p@.len() - 1, PRUNE_DEPTH as nat) == prune(self@, p@, i as int, fuel as nat),
            decreases i,
        {
            if p.as_str().get_char(i) == '/' {
                let a = prefix_of(p, i);
                if self.kind(&a) == Kind::Dir && !self.has_child(&a) {
                    self.remove(a);
                    fuel -= 1;
                } else {
                    return;
                }
            }
            i -= 1;
        }
    }

    /// Carry out one step on entry `p`, reading from `src`. False, and the
    /// tree unchanged, when the step fails.
    pub fn apply(&mut self, step: Step, src: &Tree, p: &String) -> (ok: bool)
        ensures
            match step_effect(step, src@, old(self)@, p@) {
                Some(t) => ok && final(self)@ == t,
                None => !ok && final(self)@ == old(self)@,
            },
    {
        match step {
            Step::RemoveDir => {
                if self.kind(p) == Kind::Dir && !self.has_child(p) {
                    self.remove(p.clone());
                    true
                } else {
                    false
                }
            },
            Step::CreateParents => self.create_parents(p),
            Step::RemoveFile => {
                let k = self.kind(p);
                if k == Kind::File || k == Kind::Symlink {
                    self.remove(p.clone());
                    true
                } else {
                    false
                }
            },
            Step::CopyFile => match src.read_through(p) {
                Some(c) => self.write_through(p, c),
                None => false,
            },
            Step::MirrorLink => {
                match src.get(p) {
                    Some(Node::Link(t)) => {
                        if self.get(p).is_none() {
                            self.set(p.clone(), Node::Link(t.clone()));
                            true
                        } else {
                            false
                        }
                    },
                    _ => false,
                }
            },
            Step::LinkToSource => {
                if self.get(p).is_none() {
                    self.set(p.clone(), Node::Link(p.clone()));
                    true
                } else {
                    false
                }
            },
            Step::PruneParents => {
                self.prune(p);
                true
            },
        }
    }

    /// Put `n` at `p`, replacing what was there.
    pub fn set(&mut self, p: String, n: Node)
        ensures
            final(self)@ == old(self)@.insert(p@, n@),
    {
        let ghost q = p@;
        let ghost nv = n@;
        self.log.push((p, Some(n)));
        proof {
            assert(self.log@.drop_last() == old(self).log@);
        }
        assert(self@ =~= old(self)@.insert(q, nv));
    }

    /// Take away the entry at `p`, if any.
    pub fn remove(&mut self, p: String)
        ensures
            final(self)@ == old(self)@.remove(p@),
    {
        let ghost q = p@;
        self.log.push((p, None));
        proof {
            assert(self.log@.drop_last() == old(self).log@);
        }
        assert(self@ =~= old(self)@.remove(q));
    }
}

} // verus!
