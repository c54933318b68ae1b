//! Hook scripts: which files of the root are hooks, and their order.

use vstd::prelude::*;
use vstd::string::*;
use crate::order::{is_sorted, sort_texts, texts};
use crate::walk::{file_name, hook_index, hook_names, name_prefix, file_prefix};

verus! {

/// The hook category of file `f`, as its place in `hook_names()`.
pub open spec fn category_of(f: Seq<char>) -> Option<int> {
    position_from(hook_names(), name_prefix(file_name(f)), 0)
}

/// The first place at or after `i` where `s` holds `x`.
pub open spec fn position_from(s: Seq<Seq<char>>, x: Seq<char>, i: int) -> Option<int>
    decreases s.len() - i,
{
    if i < 0 || i >= s.len() {
        None
    } else if s[i] == x {
        Some(i)
    } else {
        position_from(s, x, i + 1)
    }
}

proof fn lemma_position_from(s: Seq<Seq<char>>, x: Seq<char>, i: int, k: Option<int>)
    requires
        0 <= i <= s.len(),
        match k {
            Some(kk) => i <= kk < s.len() && s[kk] == x && forall|j: int| i <= j < kk ==> s[j] != x,
            None => forall|j: int| i <= j < s.len() ==> s[j] != x,
        },
    ensures
        position_from(s, x, i) == k,
    decreases s.len() - i,
{
    if i < s.len() && s[i] != x {
        lemma_position_from(s, x, i + 1, k);
    }
}

/// The files of `fs` in category `k`, in the order they come.
pub open spec fn in_category(fs: Seq<Seq<char>>, k: int) -> Seq<Seq<char>>
    decreases fs.len(),
{
    if fs.len() == 0 {
        Seq::empty()
    } else if category_of(fs.last()) == Some(k) {
        in_category(fs.drop_last(), k).push(fs.last())
    } else {
        in_category(fs.drop_last(), k)
    }
}

/// The hooks of a configuration root, by category, each category in the
/// order its scripts run: ascending by name.
pub struct Hooks {
    scripts: Vec<Vec<String>>,
}

impl Hooks {
    pub closed spec fn wf(&self) -> bool {
        &&& self.scripts@.len() == 12
        &&& forall|k: int| 0 <= k < 12 ==> is_sorted(texts(#[trigger] self.scripts@[k]@))
    }

    /// The scripts of category `k`, in running order.
    pub closed spec fn of(&self, k: int) -> Seq<Seq<char>> {
        texts(self.scripts@[k]@)
    }

    /// Sort the files at the top of a root into hook categories; files that
    /// are no hook are left out.
    pub fn from_root_files(files: &Vec<String>) -> (r: Hooks)
        ensures
            r.wf(),
            forall|k: int|
                0 <= k < 12 ==> (#[trigger] r.of(k)).to_multiset() == in_category(texts(files@), k).to_multiset()
                    && is_sorted(r.of(k)),
    {
        let mut scripts: Vec<Vec<String>> = Vec::new();
        let mut k: usize = 0;
        while k < 12
            invariant
                k <= 12,
                scripts@.len() == k,
                forall|j: int|
                    0 <= j < k ==> texts((#[trigger] scripts@[j])@).to_multiset() == in_category(texts(files@), j).to_multiset()
                        && is_sorted(texts(scripts@[j]@)),
            decreases 12 - k,
        {
            let mut bucket: Vec<String> = Vec::new();
            let mut i: usize = 0;
            assert(texts(files@).subrange(0, 0) =~= Seq::<Seq<char>>::empty());
            assert(texts(bucket@) =~= Seq::<Seq<char>>::empty());
            while i < files.len()
                invariant
                    i <= files.len(),
                    k < 12,
                    texts(bucket@) == in_category(texts(files@).subrange(0, i as int), k as int),
                decreases files.len() - i,
            {
                let ghost fs = texts(files@).subrange(0, i + 1);
                assert(fs.drop_last() =~= texts(files@).subrange(0, i as int));
                assert(fs.last() == files@[i as int]@);
                let p = file_prefix(files[i].as_str());
                let c = hook_index(p.as_str());
                proof {
                    assert(name_prefix(file_name(fs.last())) == p@);
                    if let Some(cc) = c {
                        assert forall|j: int| 0 <= j < cc implies hook_names()[j] != p@ by {
                            if hook_names()[j] == p@ {
                                lemma_hook_names_distinct(j, cc as int);
                            }
                        }
                        lemma_position_from(hook_names(), p@, 0, Some(cc as int));
                    } else {
                        assert forall|j: int| 0 <= j < hook_names().len() implies hook_names()[j] != p@ by {
                            if hook_names()[j] == p@ {
                                assert(hook_names().contains(p@));
                            }
                        }
                        lemma_position_from(hook_names(), p@, 0, None);
                    }
                }
                if c == Some(k) {
                    let ghost before = texts(bucket@);
                    bucket.push(files[i].clone());
                    assert(texts(bucket@) =~= before.push(files@[i as int]@));
                }
                i += 1;
            }
            assert(texts(files@).subrange(0, i as int) =~= texts(files@));
            let sorted = sort_texts(bucket);
            scripts.push(sorted);
            k += 1;
        }
        Hooks { scripts }
    }

    /// The scripts of category `k` (its place in `hook_names()`), in running
    /// order.
    pub fn scripts(&self, k: usize) -> (r: &Vec<String>)
        requires
            self.wf(),
            k < 12,
        ensures
            texts(r@) == self.of(k as int),
    {
        &self.scripts[k]
    }

    pub fn pre_sync(&self) -> (r: &Vec<String>)
        requires self.wf(),
        ensures texts(r@) == self.of(0),
    {
        self.scripts(0)
    }

    pub fn post_sync(&self) -> (r: &Vec<String>)
        requires self.wf(),
        ensures texts(r@) == self.of(1),
    {
        self.scripts(1)
    }

    pub fn pre_rsync(&self) -> (r: &Vec<String>)
        requires self.wf(),
        ensures texts(r@) == self.of(2),
    {
        self.scripts(2)
    }

    pub fn post_rsync(&self) -> (r: &Vec<String>)
        requires self.wf(),
        ensures texts(r@) == self.of(3),
    {
        self.scripts(3)
    }

    pub fn pre_link(&self) -> (r: &Vec<String>)
        requires self.wf(),
        ensures texts(r@) == self.of(4),
    {
        self.scripts(4)
    }

    pub fn post_link(&self) -> (r: &Vec<String>)
        requires self.wf(),
        ensures texts(r@) == self.of(5),
    {
        self.scripts(5)
    }

    pub fn pre_status(&self) -> (r: &Vec<String>)
        requires self.wf(),
        ensures texts(r@) == self.of(6),
    {
        self.scripts(6)
    }

    pub fn post_status(&self) -> (r: &Vec<String>)
        requires self.wf(),
        ensures texts(r@) == self.of(7),
    {
        self.scripts(7)
    }

    pub fn pre_diff(&self) -> (r: &Vec<String>)
        requires self.wf(),
        ensures texts(r@) == self.of(8),
    {
        self.scripts(8)
    }

    pub fn post_diff(&self) -> (r: &Vec<String>)
        requires self.wf(),
        ensures texts(r@) == self.of(9),
    {
        self.scripts(9)
    }

    pub fn pre_clean(&self) -> (r: &Vec<String>)
        requires self.wf(),
        ensures texts(r@) == self.of(10),
    {
        self.scripts(10)
    }

    pub fn post_clean(&self) -> (r: &Vec<String>)
        requires self.wf(),
        ensures texts(r@) == self.of(11),
    {
        self.scripts(11)
    }

    /// Every hook, category after category in the order of `hook_names()`,
    /// each category in running order.
    pub fn list(&self) -> (r: Vec<String>)
        requires
            self.wf(),
        ensures
            texts(r@) == all_of(self, 12),
    {
        let mut r: Vec<String> = Vec::new();
        let mut k: usize = 0;
        assert(texts(r@) =~= all_of(self, 0));
        while k < 12
            invariant
                k <= 12,
                self.wf(),
                texts(r@) == all_of(self, k as int),
            decreases 12 - k,
        {
            let s = &self.scripts[k];
            let mut i: usize = 0;
            let ghost start = texts(r@);
            assert(start + self.of(k as int).subrange(0, 0) =~= start);
            while i < s.len()
                invariant
                    i <= s.len(),
                    k < 12,
                    s@ == self.scripts@[k as int]@,
                    texts(r@) == start + self.of(k as int).subrange(0, i as int),
                decreases s.len() - i,
            {
                let ghost before = texts(r@);
                r.push(s[i].clone());
                assert(texts(r@) =~= before.push(s@[i as int]@));
                assert(start + self.of(k as int).subrange(0, i + 1) =~= (start + self.of(k as int).subrange(0, i as int)).push(s@[i as int]@));
                i += 1;
            }
            assert(self.of(k as int).subrange(0, i as int) =~= self.of(k as int));
            k += 1;
        }
        r
    }
}

/// The scripts of the first `k` categories, one category after the other.
pub open spec fn all_of(h: &Hooks, k: int) -> Seq<Seq<char>>
    decreases k,
{
    if k <= 0 {
        Seq::empty()
    } else {
        all_of(h, k - 1) + h.of(k - 1)
    }
}

proof fn lemma_hook_names_distinct(i: int, j: int)
    requires
        0 <= i < 12,
        0 <= j < 12,
        hook_names()[i] == hook_names()[j],
    ensures
        i == j,
{
    reveal_strlit("pre-sync");
    reveal_strlit("post-sync");
    reveal_strlit("pre-rsync");
    reveal_strlit("post-rsync");
    reveal_strlit("pre-link");
    reveal_strlit("post-link");
    reveal_strlit("pre-status");
    reveal_strlit("post-status");
    reveal_strlit("pre-diff");
    reveal_strlit("post-diff");
    reveal_strlit("pre-clean");
    reveal_strlit("post-clean");
    if i != j {
        let a = hook_names()[i];
        let b = hook_names()[j];
        if a.len() == b.len() {
            assert(a[a.len() - 2] != b[b.len() - 2] || a[1] != b[1] || a[a.len() - 3] != b[a.len() - 3]);
        }
    }
}

/// What to do next in a batch of hooks.
#[derive(Clone, Copy, Debug, PartialEq, Eq, Structural)]
pub enum HookStep {
    /// Run the hook at this place of the batch.
    Run(usize),
    /// Every hook ran; this many of them.
    Finished(usize),
    /// The hook at this place failed: the whole command stops.
    Aborted(usize),
}

/// The next step of a batch of `n` hooks, run in order, once `ran` of them
/// have run and the last one ended as `last_ok` says.
pub fn next_hook(n: usize, ran: usize, last_ok: bool) -> (r: HookStep)
    requires
        ran <= n,
    ensures
        r == if ran > 0 && !last_ok {
            HookStep::Aborted((ran - 1) as usize)
        } else if ran < n {
            HookStep::Run(ran)
        } else {
            HookStep::Finished(n)
        },
{
    if ran > 0 && !last_ok {
        HookStep::Aborted(ran - 1)
    } else if ran < n {
        HookStep::Run(ran)
    } else {
        HookStep::Finished(n)
    }
}

/// What is reported when hook `hook` stops the command.
pub fn abort_message(hook: &str) -> (r: String)
    ensures
        r@ == "abort: Execution aborted by '"@ + hook@ + "'."@,
{
    let mut r = "abort: Execution aborted by '".to_owned();
    r.append(hook);
    r.append("'.");
    r
}

/// The environment a hook runs in: the root and Home as absolute paths, a
/// verbose flag present only in verbose mode, and the operating system.
pub fn hook_environment(root: &String, home: &String, verbose: bool, os: &String) -> (r: Vec<(String, String)>)
    ensures
        r@.len() == if verbose { 4nat } else { 3nat },
        r@[0].0@ == "DEEZ_ROOT"@ && r@[0].1@ == root@,
        r@[1].0@ == "DEEZ_HOME"@ && r@[1].1@ == home@,
        verbose ==> r@[2].0@ == "DEEZ_VERBOSE"@ && r@[2].1@ == "true"@,
        r@[r@.len() - 1].0@ == "DEEZ_OS"@ && r@[r@.len() - 1].1@ == os@,
{
    let mut r: Vec<(String, String)> = Vec::new();
    r.push(("DEEZ_ROOT".to_owned(), root.clone()));
    r.push(("DEEZ_HOME".to_owned(), home.clone()));
    if verbose {
        r.push(("DEEZ_VERBOSE".to_owned(), "true".to_owned()));
    }
    r.push(("DEEZ_OS".to_owned(), os.clone()));
    r
}

} // verus!
