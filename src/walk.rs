//! Which entries of the configuration root take part in reconciling.

use vstd::prelude::*;
use vstd::string::*;
use crate::text::{find_last, has_prefix, last_index, same_text, slice, starts_with};
use crate::order::{is_sorted, sort_texts, texts};
use crate::plan::TreeView;
use crate::tree::{Node, Tree, is_ancestor, is_inside};
use vstd::seq_lib::to_multiset_contains;
use crate::patterns::left_out;

verus! {

/// The last component of `p`.
pub open spec fn file_name(p: Seq<char>) -> Seq<char> {
    p.subrange(last_index(p, '/') + 1, p.len() as int)
}

/// The position of the first `c` in `s` from position `i` on, or -1.
pub open spec fn first_index_from(s: Seq<char>, c: char, i: int) -> int
    decreases s.len() - i,
{
    if i < 0 || i >= s.len() {
        -1
    } else if s[i] == c {
        i
    } else {
        first_index_from(s, c, i + 1)
    }
}

/// A file name without all its extensions: what comes before the first `.`
/// that is not the name's first character.
pub open spec fn name_prefix(name: Seq<char>) -> Seq<char> {
    let k = first_index_from(name, '.', 1);
    if name == ".."@ || k < 0 {
        name
    } else {
        name.subrange(0, k)
    }
}

/// The hook categories, in the order in which they are listed.
pub open spec fn hook_names() -> Seq<Seq<char>> {
    seq![
        "pre-sync"@, "post-sync"@, "pre-rsync"@, "post-rsync"@, "pre-link"@, "post-link"@,
        "pre-status"@, "post-status"@, "pre-diff"@, "post-diff"@, "pre-clean"@, "post-clean"@,
    ]
}

/// A file at the top of the root takes part in reconciling unless it is an
/// ignore file or a hook; a file anywhere takes part unless it is a `.deez`
/// marker.
pub open spec fn walked_file(rel: Seq<char>) -> bool {
    let at_top = last_index(rel, '/') < 0;
    !(at_top && (rel == ".ignore"@ || rel == ".gitignore"@ || hook_names().contains(name_prefix(rel))))
        && file_name(rel) != ".deez"@
}

/// A directory is walked into unless it is the root's `.git`.
pub open spec fn walked_dir(rel: Seq<char>) -> bool {
    rel != ".git"@
}

/// The last component of `path`.
pub fn file_name_of(path: &str) -> (r: String)
    ensures
        r@ == file_name(path@),
{
    let n = path.unicode_len();
    match find_last(path, '/') {
        Some(k) => slice(path, k + 1, n),
        None => slice(path, 0, n),
    }
}

proof fn lemma_first_index_from(s: Seq<char>, c: char, i: int, k: int)
    requires
        0 <= i <= k <= s.len(),
        forall|j: int| i <= j < k ==> s[j] != c,
    ensures
        first_index_from(s, c, i) == first_index_from(s, c, k),
    decreases k - i,
{
    if i < k {
        lemma_first_index_from(s, c, i + 1, k);
    }
}

/// The file name of `path` without all its extensions.
pub fn file_prefix(path: &str) -> (r: String)
    ensures
        r@ == name_prefix(file_name(path@)),
{
    let name = file_name_of(path);
    let s = name.as_str();
    let n = s.unicode_len();
    if same_text(s, "..") {
        return name;
    }
    let mut i: usize = 1;
    while i < n
        invariant
            1 <= i,
            n == s@.len(),
            i <= n || n == 0,
            forall|j: int| 1 <= j < i ==> s@[j] != '.',
            s@ != ".."@,
            s@ == name@,
            name@ == file_name(path@),
        decreases n - i,
    {
        if s.get_char(i) == '.' {
            proof {
                lemma_first_index_from(s@, '.', 1, i as int);
                assert(first_index_from(s@, '.', i as int) == i);
                assert(s@ != ".."@);
            }
            return slice(s, 0, i);
        }
        i += 1;
    }
    proof {
        if n >= 1 {
            lemma_first_index_from(s@, '.', 1, n as int);
        }
    }
    name
}

/// The hook category that `name` is, as its place in `hook_names()`.
pub fn hook_index(name: &str) -> (r: Option<usize>)
    ensures
        match r {
            Some(k) => k < 12 && hook_names()[k as int] == name@,
            None => !hook_names().contains(name@),
        },
{
    let r = if same_text(name, "pre-sync") {
        Some(0)
    } else if same_text(name, "post-sync") {
        Some(1)
    } else if same_text(name, "pre-rsync") {
        Some(2)
    } else if same_text(name, "post-rsync") {
        Some(3)
    } else if same_text(name, "pre-link") {
        Some(4)
    } else if same_text(name, "post-link") {
        Some(5)
    } else if same_text(name, "pre-status") {
        Some(6)
    } else if same_text(name, "post-status") {
        Some(7)
    } else if same_text(name, "pre-diff") {
        Some(8)
    } else if same_text(name, "post-diff") {
        Some(9)
    } else if same_text(name, "pre-clean") {
        Some(10)
    } else if same_text(name, "post-clean") {
        Some(11)
    } else {
        None
    };
    proof {
        if r is None {
            assert forall|k: int| 0 <= k < hook_names().len() implies hook_names()[k] != name@ by {}
        }
    }
    r
}

/// Whether the file at `path` is a hook: its name, without extensions, is
/// one of the hook categories.
pub fn is_hook(path: &str) -> (r: bool)
    ensures
        r == hook_names().contains(name_prefix(file_name(path@))),
{
    let p = file_prefix(path);
    hook_index(p.as_str()).is_some()
}

/// Whether the file at root-relative path `path` takes part in reconciling.
pub fn does_file_entry_match(path: &str) -> (r: bool)
    ensures
        r == walked_file(path@),
{
    let at_top = find_last(path, '/').is_none();
    proof {
        if at_top {
            assert(file_name(path@) =~= path@);
        }
    }
    if at_top && (same_text(path, ".ignore") || same_text(path, ".gitignore") || is_hook(path)) {
        return false;
    }
    let name = file_name_of(path);
    !same_text(name.as_str(), ".deez")
}

/// Whether the directory at root-relative path `path` is walked into.
pub fn does_dir_entry_match(path: &str) -> (r: bool)
    ensures
        r == walked_dir(path@),
{
    !same_text(path, ".git")
}

/// `path` relative to `root`, when it lies inside it.
pub open spec fn relative_to(root: Seq<char>, path: Seq<char>) -> Option<Seq<char>> {
    if path == root {
        Some(Seq::empty())
    } else if starts_with(path, root) && path.len() > root.len() && path[root.len() as int] == '/' {
        Some(path.subrange(root.len() as int + 1, path.len() as int))
    } else {
        None
    }
}

/// `path` relative to `root`, when it lies inside it.
pub fn strip_root(root: &str, path: &str) -> (r: Option<String>)
    ensures
        match r {
            Some(s) => relative_to(root@, path@) == Some(s@),
            None => relative_to(root@, path@) is None,
        },
{
    let n = root.unicode_len();
    let m = path.unicode_len();
    if same_text(root, path) {
        proof {
            reveal_strlit("");
        }
        return Some("".to_owned());
    }
    if has_prefix(path, root) && m > n && path.get_char(n) == '/' {
        Some(slice(path, n + 1, m))
    } else {
        None
    }
}

/// A path of a tree that walking yields: a file or a link, not inside the
/// top `.git`, taking part in reconciling, and not left out by the tree's
/// ignore files.
pub open spec fn yields(t: TreeView, q: Seq<char>) -> bool {
    &&& t.contains_key(q)
    &&& !(t[q] is Dir)
    &&& walked_file(q)
    &&& !is_ancestor(".git"@, q)
    &&& !left_out(t, q)
}

impl Tree {
    /// The paths of this tree that take part in reconciling, in order, each
    /// once.
    pub fn walk(&self) -> (r: Vec<String>)
        ensures
            is_sorted(texts(r@)),
            forall|q: Seq<char>| yields(self@, q) <==> texts(r@).contains(q),
            texts(r@).no_duplicates(),
    {
        let all = self.paths();
        let git = ".git".to_owned();
        let mut found: Vec<String> = Vec::new();
        let mut i: usize = 0;
        while i < all.len()
            invariant
                i <= all.len(),
                git@ == ".git"@,
                forall|q: Seq<char>| #[trigger] self@.contains_key(q) ==> exists|k: int| 0 <= k < all@.len() && (#[trigger] all@[k])@ == q,
                forall|k: int| 0 <= k < found@.len() ==> yields(self@, (#[trigger] found@[k])@),
                forall|k: int| 0 <= k < i && yields(self@, (#[trigger] all@[k])@) ==> texts(found@).contains(all@[k]@),
                forall|a: int, b: int| 0 <= a < b < found@.len() ==> found@[a]@ != found@[b]@,
            decreases all.len() - i,
        {
            let p = &all[i];
            let keep = match self.get(p) {
                Some(Node::File(_)) | Some(Node::Link(_)) => does_file_entry_match(p.as_str()) && !is_inside(&git, p)
                    && !self.left_out(p),
                _ => false,
            };
            if keep {
                let mut seen = false;
                let mut k: usize = 0;
                while k < found.len()
                    invariant
                        k <= found.len(),
                        seen ==> texts(found@).contains(p@),
                        !seen ==> forall|m: int| 0 <= m < k ==> found@[m]@ != p@,
                    decreases found.len() - k,
                {
                    if found[k] == *p {
                        assert(texts(found@)[k as int] == p@);
                        seen = true;
                    }
                    k += 1;
                }
                if !seen {
                    let ghost before = found@;
                    found.push(p.clone());
                    assert(texts(found@)[found@.len() - 1] == p@);
                    assert forall|k: int| 0 <= k < i + 1 && yields(self@, (#[trigger] all@[k])@) implies texts(found@).contains(all@[k]@) by {
                        if k < i {
                            let m = choose|m: int| 0 <= m < texts(before).len() && texts(before)[m] == all@[k]@;
                            assert(texts(found@)[m] == all@[k]@);
                        }
                    }
                } else {
                    assert forall|k: int| 0 <= k < i + 1 && yields(self@, (#[trigger] all@[k])@) implies texts(found@).contains(all@[k]@) by {}
                }
            } else {
                assert forall|k: int| 0 <= k < i + 1 && yields(self@, (#[trigger] all@[k])@) implies texts(found@).contains(all@[k]@) by {}
            }
            i += 1;
        }
        let ghost unsorted = found@;
        let r = sort_texts(found);
        proof {
            assert forall|q: Seq<char>| yields(self@, q) <==> texts(r@).contains(q) by {
                to_multiset_contains(texts(r@), q);
                to_multiset_contains(texts(unsorted), q);
                if yields(self@, q) {
                    let k = choose|k: int| 0 <= k < all@.len() && (#[trigger] all@[k])@ == q;
                }
                if texts(unsorted).contains(q) {
                    let m = choose|m: int| 0 <= m < texts(unsorted).len() && texts(unsorted)[m] == q;
                    assert(yields(self@, unsorted[m]@));
                }
            }
            assert(texts(unsorted).no_duplicates());
            texts(unsorted).lemma_multiset_has_no_duplicates();
            texts(r@).lemma_multiset_has_no_duplicates_conv();
        }
        r
    }
}

} // verus!
