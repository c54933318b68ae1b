//! The order of texts: character by character, a prefix first.

use vstd::prelude::*;
use vstd::string::*;
use vstd::seq_lib::{to_multiset_build, to_multiset_insert};

verus! {

/// `a` comes no later than `b`.
pub open spec fn text_le(a: Seq<char>, b: Seq<char>) -> bool
    decreases a.len(),
{
    if a.len() == 0 {
        true
    } else if b.len() == 0 {
        false
    } else if a[0] != b[0] {
        a[0] < b[0]
    } else {
        text_le(a.drop_first(), b.drop_first())
    }
}

/// Each text of `s` comes no later than the next one.
pub open spec fn is_sorted(s: Seq<Seq<char>>) -> bool {
    forall|i: int| 0 <= i < s.len() - 1 ==> text_le(#[trigger] s[i], s[i + 1])
}

pub open spec fn texts(v: Seq<String>) -> Seq<Seq<char>> {
    v.map_values(|s: String| s@)
}

pub proof fn lemma_text_le_total(a: Seq<char>, b: Seq<char>)
    ensures
        text_le(a, b) || text_le(b, a),
    decreases a.len(),
{
    if a.len() > 0 && b.len() > 0 && a[0] == b[0] {
        lemma_text_le_total(a.drop_first(), b.drop_first());
    }
}

/// Whether `a` comes no later than `b`.
pub fn text_le_exec(a: &str, b: &str) -> (r: bool)
    ensures
        r == text_le(a@, b@),
{
    let n = a.unicode_len();
    let m = b.unicode_len();
    let mut i: usize = 0;
    assert(a@.subrange(0, n as int) =~= a@);
    assert(b@.subrange(0, m as int) =~= b@);
    while i < n && i < m
        invariant
            i <= n,
            i <= m,
            n == a@.len(),
            m == b@.len(),
            text_le(a@, b@) == text_le(a@.subrange(i as int, n as int), b@.subrange(i as int, m as int)),
        decreases n - i,
    {
        let ghost sa = a@.subrange(i as int, n as int);
        let ghost sb = b@.subrange(i as int, m as int);
        assert(sa[0] == a@[i as int] && sb[0] == b@[i as int]);
        let x = a.get_char(i);
        let y = b.get_char(i);
        if x != y {
            return x < y;
        }
        assert(sa.drop_first() =~= a@.subrange(i + 1, n as int));
        assert(sb.drop_first() =~= b@.subrange(i + 1, m as int));
        i += 1;
    }
    i == n
}

/// `v` in order; the same texts, as many times each.
pub fn sort_texts(v: Vec<String>) -> (r: Vec<String>)
    ensures
        is_sorted(texts(r@)),
        texts(r@).to_multiset() == texts(v@).to_multiset(),
{
    let mut r: Vec<String> = Vec::new();
    let mut i: usize = 0;
    assert(texts(r@) =~= Seq::<Seq<char>>::empty());
    assert(texts(v@.subrange(0, 0)) =~= Seq::<Seq<char>>::empty());
    while i < v.len()
        invariant
            i <= v.len(),
            is_sorted(texts(r@)),
            texts(r@).to_multiset() == texts(v@.subrange(0, i as int)).to_multiset(),
        decreases v.len() - i,
    {
        let x = &v[i];
        let mut pos: usize = 0;
        while pos < r.len() && text_le_exec(r[pos].as_str(), x.as_str())
            invariant
                pos <= r.len(),
                pos > 0 ==> text_le(r@[pos - 1]@, x@),
            decreases r.len() - pos,
        {
            pos += 1;
        }
        let ghost old_t = texts(r@);
        proof {
            if pos < r.len() {
                lemma_text_le_total(r@[pos as int]@, x@);
            }
        }
        r.insert(pos, x.clone());
        assert(texts(r@) =~= old_t.insert(pos as int, x@));
        assert(texts(v@.subrange(0, i + 1)) =~= texts(v@.subrange(0, i as int)).push(x@));
        proof {
            to_multiset_insert(old_t, pos as int, x@);
            to_multiset_build(texts(v@.subrange(0, i as int)), x@);
        }
        assert forall|k: int| 0 <= k < texts(r@).len() - 1 implies text_le(#[trigger] texts(r@)[k], texts(r@)[k + 1]) by {
            if k < pos - 1 {
                assert(text_le(old_t[k], old_t[k + 1]));
            } else if k > pos {
                assert(text_le(old_t[k - 1], old_t[k]));
            }
        }
        i += 1;
    }
    assert(v@.subrange(0, i as int) =~= v@);
    r
}

} // verus!
