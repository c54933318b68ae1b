//! Status and diff: how a root entry compares with its Home copy.

use vstd::prelude::*;
use vstd::string::*;
use crate::plan::{Kind, TreeView, kind_of, read_through};
use crate::text::{decimal, to_decimal};
use crate::tree::Tree;
use crate::ui::{Color, GREEN, RED, CYAN, painted};

verus! {

/// How a root entry compares with its Home copy.
#[derive(Clone, Copy, Debug, PartialEq, Eq, Structural)]
pub enum State {
    InSync,
    Modified,
    Missing,
}

/// The state of one entry, and whether Home holds a link there.
#[derive(Debug)]
pub struct Status {
    pub file: String,
    pub state: State,
    pub is_symlinked: bool,
}

/// Whether two contents are the same bytes: sizes first, then bytes.
pub fn are_files_equal(a: &Vec<u8>, b: &Vec<u8>) -> (r: bool)
    ensures
        r == (a@ == b@),
{
    if a.len() != b.len() {
        return false;
    }
    let mut i: usize = 0;
    while i < a.len()
        invariant
            i <= a.len(),
            a.len() == b.len(),
            forall|j: int| 0 <= j < i ==> a@[j] == b@[j],
        decreases a.len() - i,
    {
        if a[i] != b[i] {
            return false;
        }
        i += 1;
    }
    assert(a@ =~= b@);
    true
}

/// The state of an entry from the two contents: missing without a Home
/// file, in sync when the bytes are equal, modified otherwise.
pub open spec fn state_from(root: Seq<u8>, home: Option<Seq<u8>>) -> State {
    match home {
        None => State::Missing,
        Some(h) => if h == root { State::InSync } else { State::Modified },
    }
}

/// The state of an entry from the root's content and Home's, if Home holds
/// a file there.
pub fn state_of(root: &Vec<u8>, home: Option<&Vec<u8>>) -> (r: State)
    ensures
        r == state_from(root@, match home { Some(h) => Some(h@), None => None }),
{
    match home {
        None => State::Missing,
        Some(h) => if are_files_equal(h, root) { State::InSync } else { State::Modified },
    }
}

/// The state of entry `p` of two trees, links read through.
pub open spec fn entry_state(root: TreeView, home: TreeView, p: Seq<char>) -> State {
    match read_through(home, p) {
        None => State::Missing,
        Some(h) => if read_through(root, p) == Some(h) { State::InSync } else { State::Modified },
    }
}

/// The statuses of `entries`, in their order.
pub fn status(root: &Tree, home: &Tree, entries: &Vec<String>) -> (r: Vec<Status>)
    ensures
        r@.len() == entries@.len(),
        forall|i: int|
            0 <= i < r@.len() ==> (#[trigger] r@[i]).file@ == entries@[i]@ && r@[i].state == entry_state(
                root@,
                home@,
                entries@[i]@,
            ) && r@[i].is_symlinked == (kind_of(home@, entries@[i]@) == Kind::Symlink),
{
    let mut r: Vec<Status> = Vec::new();
    let mut i: usize = 0;
    while i < entries.len()
        invariant
            i <= entries.len(),
            r@.len() == i,
            forall|j: int|
                0 <= j < i ==> (#[trigger] r@[j]).file@ == entries@[j]@ && r@[j].state == entry_state(
                    root@,
                    home@,
                    entries@[j]@,
                ) && r@[j].is_symlinked == (kind_of(home@, entries@[j]@) == Kind::Symlink),
        decreases entries.len() - i,
    {
        let p = &entries[i];
        let state = match home.read_through(p) {
            None => State::Missing,
            Some(h) => match root.read_through(p) {
                Some(c) => if are_files_equal(&c, &h) { State::InSync } else { State::Modified },
                None => State::Modified,
            },
        };
        let is_symlinked = home.kind(p) == Kind::Symlink;
        r.push(Status { file: p.clone(), state, is_symlinked });
        i += 1;
    }
    r
}

/// How many of `s` are in state `st`.
pub open spec fn count_state(s: Seq<Status>, st: State) -> nat
    decreases s.len(),
{
    if s.len() == 0 {
        0
    } else {
        count_state(s.drop_last(), st) + if s.last().state == st { 1nat } else { 0nat }
    }
}

proof fn lemma_count_le(s: Seq<Status>, st: State)
    ensures
        count_state(s, st) <= s.len(),
    decreases s.len(),
{
    if s.len() > 0 {
        lemma_count_le(s.drop_last(), st);
    }
}

/// How many entries are in sync, modified and missing.
pub fn count_states(statuses: &Vec<Status>) -> (r: (usize, usize, usize))
    ensures
        r.0 == count_state(statuses@, State::InSync),
        r.1 == count_state(statuses@, State::Modified),
        r.2 == count_state(statuses@, State::Missing),
{
    let (mut a, mut b, mut c): (usize, usize, usize) = (0, 0, 0);
    let mut i: usize = 0;
    while i < statuses.len()
        invariant
            i <= statuses.len(),
            a == count_state(statuses@.subrange(0, i as int), State::InSync),
            b == count_state(statuses@.subrange(0, i as int), State::Modified),
            c == count_state(statuses@.subrange(0, i as int), State::Missing),
        decreases statuses.len() - i,
    {
        let ghost s = statuses@.subrange(0, i + 1);
        assert(s.drop_last() =~= statuses@.subrange(0, i as int));
        proof {
            lemma_count_le(s.drop_last(), State::InSync);
            lemma_count_le(s.drop_last(), State::Modified);
            lemma_count_le(s.drop_last(), State::Missing);
        }
        match statuses[i].state {
            State::InSync => a += 1,
            State::Modified => b += 1,
            State::Missing => c += 1,
        }
        i += 1;
    }
    assert(statuses@.subrange(0, i as int) =~= statuses@);
    (a, b, c)
}

/// The closing line of a status report.
pub open spec fn status_line_of(a: nat, b: nat, c: nat) -> Seq<char> {
    decimal(a) + " in sync, "@ + decimal(b) + " modified, "@ + decimal(c) + " missing."@
}

/// The closing line of a status report: how many entries are in each state.
pub fn status_line(statuses: &Vec<Status>) -> (r: String)
    ensures
        r@ == status_line_of(
            count_state(statuses@, State::InSync),
            count_state(statuses@, State::Modified),
            count_state(statuses@, State::Missing),
        ),
{
    let (a, b, c) = count_states(statuses);
    let mut r = to_decimal(a);
    r.append(" in sync, ");
    r.append(to_decimal(b).as_str());
    r.append(" modified, ");
    r.append(to_decimal(c).as_str());
    r.append(" missing.");
    r
}

/// The line-by-line unified diff (histogram algorithm) from `before` to
/// `after`.
pub uninterp spec fn unified_diff_of(before: Seq<char>, after: Seq<char>) -> Seq<char>;

/// The largest text size, in characters, that the diff takes.
pub const DIFF_LIMIT: usize = 0x7fff_fffe;

/// Relies on imara_diff::diff with Algorithm::Histogram into a
/// UnifiedDiffBuilder over line tokens: the result depends on the two texts
/// alone, and two equal texts give no hunk at all. It panics from
/// `i32::MAX` lines on, which `requires` keeps out.
#[verifier::external_body]
fn unified_diff(before: &str, after: &str) -> (r: String)
    requires
        before@.len() <= DIFF_LIMIT,
        after@.len() <= DIFF_LIMIT,
    ensures
        r@ == unified_diff_of(before@, after@),
        before@ == after@ ==> r@.len() == 0,
{
    let input = imara_diff::intern::InternedInput::new(before, after);
    imara_diff::diff(imara_diff::Algorithm::Histogram, &input, imara_diff::UnifiedDiffBuilder::new(&input))
}

/// A diff worth reporting: none when it is empty.
pub fn nonempty_diff(diff: String) -> (r: Option<String>)
    ensures
        match r {
            Some(d) => d@ == diff@ && diff@.len() > 0,
            None => diff@.len() == 0,
        },
{
    if diff.as_str().unicode_len() == 0 {
        None
    } else {
        Some(diff)
    }
}

/// The diff of an entry from the root's text to Home's, or from Home's to
/// the root's when `reversed`; none when there is nothing to show.
pub fn diff_texts(root: &str, home: &str, reversed: bool) -> (r: Option<String>)
    requires
        root@.len() <= DIFF_LIMIT,
        home@.len() <= DIFF_LIMIT,
    ensures
        ({
            let d = if reversed { unified_diff_of(home@, root@) } else { unified_diff_of(root@, home@) };
            match r {
                Some(s) => s@ == d && d.len() > 0,
                None => d.len() == 0,
            }
        }),
        root@ == home@ ==> r is None,
{
    let d = if reversed { unified_diff(home, root) } else { unified_diff(root, home) };
    nonempty_diff(d)
}

/// What the diff report says of an entry that Home lacks.
pub open spec fn missing_note() -> Seq<char> {
    "! File does not exist in Home.\n! Skipping..."@
}

/// The diff report of one entry: a note when Home has no file there,
/// otherwise the diff of the two texts, if any.
pub fn diff_entry(root: &str, home: Option<&str>, reversed: bool) -> (r: Option<String>)
    requires
        root@.len() <= DIFF_LIMIT,
        home is Some ==> home->Some_0@.len() <= DIFF_LIMIT,
    ensures
        match home {
            None => r is Some && r->Some_0@ == missing_note(),
            Some(h) => {
                let d = if reversed { unified_diff_of(h@, root@) } else { unified_diff_of(root@, h@) };
                match r {
                    Some(s) => s@ == d && d.len() > 0,
                    None => d.len() == 0,
                }
            },
        },
{
    match home {
        None => Some("! File does not exist in Home.\n! Skipping...".to_owned()),
        Some(h) => diff_texts(root, h, reversed),
    }
}

/// One line of a diff as shown: additions green, removals and notes red,
/// hunk headers cyan, context as it is.
pub open spec fn shown_line(l: Seq<char>) -> Seq<char> {
    if l.len() > 0 && l[0] == '+' {
        painted(GREEN@, l)
    } else if l.len() > 0 && (l[0] == '-' || l[0] == '!') {
        painted(RED@, l)
    } else if l.len() > 0 && l[0] == '@' {
        painted(CYAN@, l)
    } else {
        l
    }
}

/// One line of a diff as shown.
pub fn color_diff_line(line: &str) -> (r: String)
    ensures
        r@ == shown_line(line@),
{
    if line.unicode_len() == 0 {
        return line.to_owned();
    }
    let c = line.get_char(0);
    if c == '+' {
        Color::in_sync(line)
    } else if c == '-' || c == '!' {
        Color::missing(line)
    } else if c == '@' {
        Color::line_range(line)
    } else {
        line.to_owned()
    }
}

} // verus!
