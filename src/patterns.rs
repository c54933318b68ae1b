//! Ignore files: `.ignore` and `.gitignore` files of a tree, in gitignore
//! syntax, and which paths they leave out.

use vstd::prelude::*;
use vstd::string::*;
use crate::plan::TreeView;
use crate::tree::{Node, Tree, is_ancestor};
use crate::text::slice;
use crate::walk::first_index_from;

verus! {

/// What the UTF-8 decoding of `b` gives, if `b` is valid UTF-8.
pub uninterp spec fn utf8_text(b: Seq<u8>) -> Option<Seq<char>>;

/// Relies on std::str::from_utf8: the text that the bytes encode, if they
/// are valid UTF-8.
#[verifier::external_body]
fn decode_utf8(b: &[u8]) -> (r: Option<String>)
    ensures
        match r {
            Some(s) => utf8_text(b@) == Some(s@),
            None => utf8_text(b@) is None,
        },
{
    std::str::from_utf8(b).ok().map(|s| s.to_string())
}

/// How one line of a gitignore file judges `path`, relative to the file's
/// directory: `Some(true)` ignored, `Some(false)` explicitly kept (a `!`
/// line), `None` no match.
pub uninterp spec fn gitignore_line_verdict(line: Seq<char>, path: Seq<char>, is_dir: bool) -> Option<bool>;

/// Relies on ignore::gitignore::GitignoreBuilder::add_line, build and
/// Gitignore::matched, for a matcher rooted at `.` that holds one line:
/// whether the line ignores `path`, keeps it, or does not match it. The
/// result depends on the arguments alone; a line the crate cannot parse
/// matches nothing.
#[verifier::external_body]
fn line_verdict(line: &str, path: &str, is_dir: bool) -> (r: Option<bool>)
    ensures
        r == gitignore_line_verdict(line@, path@, is_dir),
{
    let mut builder = ignore::gitignore::GitignoreBuilder::new(".");
    if builder.add_line(None, line).is_err() {
        return None;
    }
    match builder.build() {
        Ok(matcher) => match matcher.matched(path, is_dir) {
            ignore::Match::None => None,
            ignore::Match::Ignore(_) => Some(true),
            ignore::Match::Whitelist(_) => Some(false),
        },
        Err(_) => None,
    }
}

/// The lines of `t`, split at each `\n`.
pub open spec fn split_lines(t: Seq<char>) -> Seq<Seq<char>>
    decreases t.len(),
{
    let k = first_index_from(t, '\n', 0);
    if k < 0 || k >= t.len() {
        seq![t]
    } else {
        seq![t.subrange(0, k)] + split_lines(t.subrange(k + 1, t.len() as int))
    }
}

/// A line without the `\r` of a `\r\n` ending.
pub open spec fn without_cr(l: Seq<char>) -> Seq<char> {
    if l.len() > 0 && l.last() == '\r' { l.drop_last() } else { l }
}

/// How the lines `ls` judge `path`: the last line that matches decides.
pub open spec fn lines_verdict(ls: Seq<Seq<char>>, path: Seq<char>, is_dir: bool) -> Option<bool>
    decreases ls.len(),
{
    if ls.len() == 0 {
        None
    } else {
        match gitignore_line_verdict(without_cr(ls.last()), path, is_dir) {
            Some(v) => Some(v),
            None => lines_verdict(ls.drop_last(), path, is_dir),
        }
    }
}

proof fn lemma_first_newline(u: Seq<char>, i: int, k: int)
    requires
        0 <= i <= k <= u.len(),
        forall|j: int| i <= j < k ==> u[j] != '\n',
    ensures
        first_index_from(u, '\n', i) == first_index_from(u, '\n', k),
    decreases k - i,
{
    if i < k {
        lemma_first_newline(u, i + 1, k);
    }
}

/// The lines of `t`, split at each `\n`.
pub fn lines(t: &str) -> (r: Vec<String>)
    ensures
        r@.map_values(|s: String| s@) == split_lines(t@),
{
    let n = t.unicode_len();
    let mut done: Vec<String> = Vec::new();
    let mut start: usize = 0;
    let mut i: usize = 0;
    assert(t@.subrange(0, n as int) =~= t@);
    assert(done@.map_values(|s: String| s@) + split_lines(t@.subrange(0, n as int)) =~= split_lines(t@));
    while i < n
        invariant
            start <= i <= n,
            n == t@.len(),
            done@.map_values(|s: String| s@) + split_lines(t@.subrange(start as int, n as int)) == split_lines(t@),
            forall|j: int| start <= j < i ==> t@[j] != '\n',
        decreases n - i,
    {
        if t.get_char(i) == '\n' {
            let ghost u = t@.subrange(start as int, n as int);
            proof {
                assert forall|j: int| 0 <= j < i - start implies u[j] != '\n' by {
                    assert(u[j] == t@[start + j]);
                }
                lemma_first_newline(u, 0, i - start);
                assert(u[i - start] == '\n');
                assert(u.subrange(0, i - start) =~= t@.subrange(start as int, i as int));
                assert(u.subrange(i - start + 1, u.len() as int) =~= t@.subrange(i + 1, n as int));
            }
            let line = slice(t, start, i);
            let ghost before = done@.map_values(|s: String| s@);
            done.push(line);
            assert(done@.map_values(|s: String| s@) =~= before.push(t@.subrange(start as int, i as int)));
            assert(before + split_lines(u) =~= before.push(t@.subrange(start as int, i as int)) + split_lines(t@.subrange(i + 1, n as int)));
            start = i + 1;
        }
        i += 1;
    }
    let ghost u = t@.subrange(start as int, n as int);
    proof {
        assert forall|j: int| 0 <= j < u.len() implies u[j] != '\n' by {
            assert(u[j] == t@[start + j]);
        }
        lemma_first_newline(u, 0, u.len() as int);
    }
    let ghost before = done@.map_values(|s: String| s@);
    done.push(slice(t, start, n));
    assert(done@.map_values(|s: String| s@) =~= before.push(u));
    assert(before + seq![u] =~= before.push(u));
    done
}

/// A line without the `\r` of a `\r\n` ending.
fn strip_cr(l: &str) -> (r: String)
    ensures
        r@ == without_cr(l@),
{
    let n = l.unicode_len();
    if n > 0 && l.get_char(n - 1) == '\r' {
        slice(l, 0, n - 1)
    } else {
        slice(l, 0, n)
    }
}

/// How the ignore file at `f` of tree `t` judges `path`; none if there is
/// no such file, or it is not UTF-8.
pub open spec fn file_verdict(t: TreeView, f: Seq<char>, path: Seq<char>, is_dir: bool) -> Option<bool> {
    if t.contains_key(f) && t[f] is File {
        match utf8_text(t[f]->File_0) {
            Some(text) => lines_verdict(split_lines(text), path, is_dir),
            None => None,
        }
    } else {
        None
    }
}

/// The path of file `name` in directory `d`, the empty path being the top.
pub open spec fn in_dir(d: Seq<char>, name: Seq<char>) -> Seq<char> {
    if d.len() == 0 { name } else { d + "/"@ + name }
}

/// How the ignore files of directory `d` judge `rel`, a path relative to
/// `d`: `.ignore` first, then `.gitignore`.
pub open spec fn dir_verdict(t: TreeView, d: Seq<char>, rel: Seq<char>, is_dir: bool) -> Option<bool> {
    let v = file_verdict(t, in_dir(d, ".ignore"@), rel, is_dir);
    if v is Some { v } else { file_verdict(t, in_dir(d, ".gitignore"@), rel, is_dir) }
}

/// How the ignore files of the directories that hold `x` judge it, the
/// directory of each `/` at or before position `i`, deepest first, then
/// the top: the first that decides wins.
pub open spec fn verdict_from(t: TreeView, x: Seq<char>, is_dir: bool, i: int) -> Option<bool>
    decreases i + 1,
{
    if i < 0 {
        dir_verdict(t, Seq::empty(), x, is_dir)
    } else if i < x.len() && x[i] == '/' {
        let v = dir_verdict(t, x.subrange(0, i), x.subrange(i + 1, x.len() as int), is_dir);
        if v is Some { v } else { verdict_from(t, x, is_dir, i - 1) }
    } else {
        verdict_from(t, x, is_dir, i - 1)
    }
}

/// The ignore files of tree `t` leave out path `x`.
pub open spec fn is_ignored(t: TreeView, x: Seq<char>, is_dir: bool) -> bool {
    verdict_from(t, x, is_dir, x.len() - 1) == Some(true)
}

fn join_dir(d: &String, name: &str) -> (r: String)
    ensures
        r@ == in_dir(d@, name@),
{
    if d.as_str().unicode_len() == 0 {
        name.to_owned()
    } else {
        let mut r = d.clone();
        r.append("/");
        r.append(name);
        r
    }
}

/// The ignore files of `t` leave out file `q`, or a directory that holds it.
pub open spec fn left_out(t: TreeView, q: Seq<char>) -> bool {
    is_ignored(t, q, false) || exists|a: Seq<char>| #[trigger] is_ancestor(a, q) && is_ignored(t, a, true)
}

impl Tree {
    /// Whether the ignore files of this tree leave out file `q`, or a
    /// directory that holds it.
    pub fn left_out(&self, q: &String) -> (r: bool)
        ensures
            r == left_out(self@, q@),
    {
        if self.is_ignored(q, false) {
            return true;
        }
        let s = q.as_str();
        let n = s.unicode_len();
        let mut i: usize = 1;
        while i < n
            invariant
                1 <= i,
                i <= n || n == 0,
                n == q@.len(),
                s@ == q@,
                !is_ignored(self@, q@, false),
                forall|a: Seq<char>| #[trigger] is_ancestor(a, q@) && a.len() < i ==> !is_ignored(self@, a, true),
            decreases n - i,
        {
            if s.get_char(i) == '/' {
                let a = slice(s, 0, i);
                assert(is_ancestor(a@, q@));
                if self.is_ignored(&a, true) {
                    return true;
                }
            }
            proof {
                assert forall|a: Seq<char>| #[trigger] is_ancestor(a, q@) && a.len() < i + 1 implies !is_ignored(self@, a, true) by {
                    if a.len() == i {
                        assert(a =~= q@.subrange(0, i as int));
                    }
                }
            }
            i += 1;
        }
        false
    }

    /// How the ignore file at `f` judges `path`.
    fn file_verdict(&self, f: &String, path: &str, is_dir: bool) -> (r: Option<bool>)
        ensures
            r == file_verdict(self@, f@, path@, is_dir),
    {
        match self.get(f) {
            Some(Node::File(bytes)) => match decode_utf8(bytes.as_slice()) {
                Some(text) => {
                    let ls = lines(text.as_str());
                    let ghost lv = ls@.map_values(|s: String| s@);
                    let mut k: usize = ls.len();
                    assert(lv.subrange(0, k as int) =~= lv);
                    while k > 0
                        invariant
                            k <= ls@.len(),
                            lv == ls@.map_values(|s: String| s@),
                            file_verdict(self@, f@, path@, is_dir) == lines_verdict(lv, path@, is_dir),
                            lines_verdict(lv, path@, is_dir) == lines_verdict(lv.subrange(0, k as int), path@, is_dir),
                        decreases k,
                    {
                        let ghost cur = lv.subrange(0, k as int);
                        assert(cur.last() == ls@[k - 1]@);
                        assert(cur.drop_last() =~= lv.subrange(0, k - 1));
                        let line = strip_cr(ls[k - 1].as_str());
                        let v = line_verdict(line.as_str(), path, is_dir);
                        if v.is_some() {
                            return v;
                        }
                        k -= 1;
                    }
                    None
                },
                None => None,
            },
            _ => None,
        }
    }

    /// How the ignore files of directory `d` judge `rel`.
    fn dir_verdict(&self, d: &String, rel: &str, is_dir: bool) -> (r: Option<bool>)
        ensures
            r == dir_verdict(self@, d@, rel@, is_dir),
    {
        let v = self.file_verdict(&join_dir(d, ".ignore"), rel, is_dir);
        if v.is_some() {
            v
        } else {
            self.file_verdict(&join_dir(d, ".gitignore"), rel, is_dir)
        }
    }

    /// Whether the ignore files of this tree leave out path `x`, a
    /// directory when `is_dir`.
    pub fn is_ignored(&self, x: &String, is_dir: bool) -> (r: bool)
        ensures
            r == is_ignored(self@, x@, is_dir),
    {
        let s = x.as_str();
        let n = s.unicode_len();
        let mut i: usize = n;
        while i > 0
            invariant
                i <= n,
                n == x@.len(),
                s@ == x@,
                verdict_from(self@, x@, is_dir, n - 1) == verdict_from(self@, x@, is_dir, i - 1),
            decreases i,
        {
            if s.get_char(i - 1) == '/' {
                let d = slice(s, 0, i - 1);
                let rel = slice(s, i, n);
                let v = self.dir_verdict(&d, rel.as_str(), is_dir);
                if v.is_some() {
                    return v == Some(true);
                }
            }
            i -= 1;
        }
        let top = String::new();
        let v = self.dir_verdict(&top, s, is_dir);
        v == Some(true)
    }
}

} // verus!
