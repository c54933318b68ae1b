//! Finding the configuration root.

use vstd::prelude::*;
use vstd::string::*;
use crate::text::{find_last, has_prefix, last_index, slice, starts_with, trim, trim_leading, trimmed, without_leading};

verus! {

/// How many parent directories are searched for a configuration root.
pub const DEPTH_LIMIT: usize = 20;

/// The root names a Git remote rather than a directory.
pub open spec fn is_remote(root: Seq<char>) -> bool {
    starts_with(root, "git:"@) || starts_with(root, "ssh://"@) || starts_with(root, "git@"@)
        || starts_with(root, "https://"@) || starts_with(root, "http://"@) || starts_with(root, "gh:"@)
}

/// Whether the given root is a Git remote: it starts with `git:`, `ssh://`,
/// `git@`, `https://`, `http://` or `gh:`.
pub fn is_git_remote_uri(root: Option<&String>) -> (r: bool)
    ensures
        r == match root {
            Some(s) => is_remote(s@),
            None => false,
        },
{
    match root {
        Some(s) => {
            let s = s.as_str();
            has_prefix(s, "git:") || has_prefix(s, "ssh://") || has_prefix(s, "git@") || has_prefix(s, "https://")
                || has_prefix(s, "http://") || has_prefix(s, "gh:")
        },
        None => false,
    }
}

/// The address to clone for a remote root: `git:` is a label and is taken
/// off, `gh:` stands for `git@github.com:`.
pub open spec fn clone_address(uri: Seq<char>) -> Seq<char> {
    if starts_with(uri, "git:"@) {
        uri.subrange(4, uri.len() as int)
    } else if starts_with(uri, "gh:"@) {
        "git@github.com:"@ + uri.subrange(3, uri.len() as int)
    } else {
        uri
    }
}

/// The address to clone for a remote root.
pub fn remote_address(uri: &str) -> (r: String)
    ensures
        r@ == clone_address(uri@),
{
    let n = uri.unicode_len();
    if has_prefix(uri, "git:") {
        proof {
            reveal_strlit("git:");
        }
        slice(uri, 4, n)
    } else if has_prefix(uri, "gh:") {
        proof {
            reveal_strlit("gh:");
        }
        let mut r = "git@github.com:".to_owned();
        let rest = slice(uri, 3, n);
        r.append(rest.as_str());
        r
    } else {
        uri.to_owned()
    }
}

/// A remote address split into the repository and the sub-root written
/// after it in brackets (`repo[sub/root]`). The sub-root is trimmed and
/// loses its leading slashes, so that it stays relative; an empty one is
/// none.
pub open spec fn sub_root_split(uri: Seq<char>) -> (Seq<char>, Option<Seq<char>>) {
    let k = last_index(uri, '[');
    if k >= 0 && k < uri.len() - 1 && uri.last() == ']' {
        let s = without_leading(trimmed(uri.subrange(k + 1, uri.len() - 1)), '/');
        (uri.subrange(0, k), if s.len() == 0 { None } else { Some(s) })
    } else {
        (uri, None)
    }
}

/// Split a remote address into the repository and its sub-root.
pub fn extract_sub_root(uri: &str) -> (r: (String, Option<String>))
    ensures
        r.0@ == sub_root_split(uri@).0,
        match r.1 {
            Some(s) => sub_root_split(uri@).1 == Some(s@),
            None => sub_root_split(uri@).1 is None,
        },
{
    let n = uri.unicode_len();
    match find_last(uri, '[') {
        Some(k) => {
            if k < n - 1 && uri.get_char(n - 1) == ']' {
                let inner = slice(uri, k + 1, n - 1);
                let t = trim(inner.as_str());
                let s = trim_leading(t.as_str(), '/');
                let repo = slice(uri, 0, k);
                if s.as_str().unicode_len() == 0 {
                    (repo, None)
                } else {
                    (repo, Some(s))
                }
            } else {
                (uri.to_owned(), None)
            }
        },
        None => (uri.to_owned(), None),
    }
}

/// The root given on the command line, unless it is empty.
pub fn get_config_root_from_args(root: Option<&String>) -> (r: Option<String>)
    ensures
        match root {
            Some(s) if s@.len() > 0 => r is Some && r->Some_0@ == s@,
            _ => r is None,
        },
{
    match root {
        Some(s) => if s.as_str().unicode_len() > 0 {
            Some(s.clone())
        } else {
            None
        },
        None => None,
    }
}

/// The directory that holds absolute path `p`, if any: `/` for a path just
/// under the top, none for `/` itself or a path without `/`.
pub open spec fn parent_of(p: Seq<char>) -> Option<Seq<char>> {
    let k = last_index(p, '/');
    if k < 0 || p == "/"@ {
        None
    } else if k == 0 {
        Some("/"@)
    } else {
        Some(p.subrange(0, k))
    }
}

/// The first `n` directories above `p`, nearest first.
pub open spec fn parents(p: Seq<char>, n: nat) -> Seq<Seq<char>>
    decreases n,
{
    if n == 0 {
        Seq::empty()
    } else {
        match parent_of(p) {
            Some(q) => seq![q] + parents(q, (n - 1) as nat),
            None => Seq::empty(),
        }
    }
}

/// The directory that holds `p`, if any.
pub fn parent_dir(p: &str) -> (r: Option<String>)
    ensures
        match r {
            Some(q) => parent_of(p@) == Some(q@),
            None => parent_of(p@) is None,
        },
{
    proof {
        reveal_strlit("/");
    }
    match find_last(p, '/') {
        None => None,
        Some(k) => {
            if p.unicode_len() == 1 {
                assert(p@[0] == '/');
                assert(p@ =~= "/"@);
                None
            } else if k == 0 {
                assert(p@ != "/"@);
                Some("/".to_owned())
            } else {
                assert(p@.len() != 1);
                Some(slice(p, 0, k))
            }
        },
    }
}

/// The directories searched for a configuration root above `dir`, nearest
/// first: at most `DEPTH_LIMIT + 1` of them.
pub fn config_root_candidates(dir: &str) -> (r: Vec<String>)
    ensures
        r@.map_values(|s: String| s@) == parents(dir@, (DEPTH_LIMIT + 1) as nat),
{
    let mut r: Vec<String> = Vec::new();
    let mut cur = dir.to_owned();
    let mut left: usize = DEPTH_LIMIT + 1;
    assert(r@.map_values(|s: String| s@) + parents(cur@, left as nat) =~= parents(dir@, (DEPTH_LIMIT + 1) as nat));
    while left > 0
        invariant
            left <= DEPTH_LIMIT + 1,
            r@.map_values(|s: String| s@) + parents(cur@, left as nat) == parents(dir@, (DEPTH_LIMIT + 1) as nat),
        decreases left,
    {
        match parent_dir(cur.as_str()) {
            Some(q) => {
                let ghost before = r@.map_values(|s: String| s@);
                let ghost qv = q@;
                r.push(q.clone());
                assert(r@.map_values(|s: String| s@) =~= before.push(qv));
                assert(before + (seq![qv] + parents(qv, (left - 1) as nat)) =~= before.push(qv) + parents(qv, (left - 1) as nat));
                cur = q;
            },
            None => {
                assert(parents(cur@, left as nat) =~= Seq::<Seq<char>>::empty());
                assert(r@.map_values(|s: String| s@) + Seq::<Seq<char>>::empty() =~= r@.map_values(|s: String| s@));
                return r;
            },
        }
        left -= 1;
    }
    assert(r@.map_values(|s: String| s@) + Seq::<Seq<char>>::empty() =~= r@.map_values(|s: String| s@));
    r
}

/// The nearest of the `candidates` that is a configuration root, as
/// `is_root` tells for each.
pub fn find_config_root_in_parents<'a>(candidates: &'a Vec<String>, is_root: &Vec<bool>) -> (r: Option<&'a String>)
    requires
        candidates@.len() == is_root@.len(),
    ensures
        match r {
            Some(c) => exists|k: int|
                0 <= k < is_root@.len() && is_root@[k] && *c == candidates@[k] && forall|j: int|
                    0 <= j < k ==> !is_root@[j],
            None => forall|j: int| 0 <= j < is_root@.len() ==> !is_root@[j],
        },
{
    let mut k: usize = 0;
    while k < candidates.len()
        invariant
            k <= candidates@.len(),
            candidates@.len() == is_root@.len(),
            forall|j: int| 0 <= j < k ==> !is_root@[j],
        decreases candidates@.len() - k,
    {
        if is_root[k] {
            return Some(&candidates[k]);
        }
        k += 1;
    }
    None
}

/// The configuration root to use: the one given, else the current directory
/// if it is a root, else the nearest root above it, else the one the
/// environment names, else the current directory all the same.
pub fn determine_config_root(
    given: Option<&String>,
    cwd: &String,
    cwd_is_root: bool,
    parent_root: Option<&String>,
    env_root: Option<&String>,
) -> (r: String)
    ensures
        r@ == match given {
            Some(g) if g@.len() > 0 => g@,
            _ => if cwd_is_root {
                cwd@
            } else {
                match (parent_root, env_root) {
                    (Some(p), _) => p@,
                    (None, Some(e)) if e@.len() > 0 => e@,
                    _ => cwd@,
                }
            },
        },
{
    if let Some(g) = get_config_root_from_args(given) {
        return g;
    }
    if cwd_is_root {
        return cwd.clone();
    }
    if let Some(p) = parent_root {
        return p.clone();
    }
    if let Some(e) = get_config_root_from_args(env_root) {
        return e;
    }
    cwd.clone()
}

} // verus!
