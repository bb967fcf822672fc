//! Sorting pairs of strings by the natural order of their first string.

use vstd::prelude::*;
use std::cmp::Ordering;
use crate::text::{natural_cmp, natural_order};
use crate::values::pairs_view;

verus! {

pub type Pairs = Seq<(Seq<char>, Seq<char>)>;

/// Where insertion from the back puts `x` among the first `j` pairs of `s`:
/// after the last pair whose key does not come after `x`'s key.
pub open spec fn insert_pos(s: Pairs, key: Seq<char>, j: int) -> int
    decreases j,
{
    if j <= 0 {
        0
    } else if natural_order(s[j - 1].0, key) == Ordering::Greater {
        insert_pos(s, key, j - 1)
    } else {
        j
    }
}

/// `p` sorted by insertion on the natural order of the keys; pairs whose
/// keys compare equal keep their order.
pub open spec fn nat_sorted(p: Pairs) -> Pairs
    decreases p.len(),
{
    if p.len() == 0 {
        Seq::empty()
    } else {
        let s = nat_sorted(p.drop_last());
        s.insert(insert_pos(s, p.last().0, s.len() as int), p.last())
    }
}

/// No key comes, in natural order, after the key that follows it.
pub open spec fn naturally_ordered(s: Pairs) -> bool {
    forall|i: int| 0 <= i < s.len() - 1 ==> #[trigger] natural_order(s[i].0, s[i + 1].0) != Ordering::Greater
}

proof fn lemma_sorted_step(v: Seq<(String, String)>, i: int, s: Pairs, j: int)
    requires
        0 <= i < v.len(),
        0 <= j <= s.len(),
        s == nat_sorted(pairs_view(v.subrange(0, i))),
        s.to_multiset() == pairs_view(v.subrange(0, i)).to_multiset(),
        insert_pos(s, v[i].0@, s.len() as int) == j,
    ensures
        s.insert(j, (v[i].0@, v[i].1@)) == nat_sorted(pairs_view(v.subrange(0, i + 1))),
        s.insert(j, (v[i].0@, v[i].1@)).to_multiset() == pairs_view(v.subrange(0, i + 1)).to_multiset(),
{
    broadcast use vstd::seq_lib::group_to_multiset_ensures;

    let xv = (v[i].0@, v[i].1@);
    let pre = pairs_view(v.subrange(0, i));
    let post = pairs_view(v.subrange(0, i + 1));
    assert(pre =~= post.drop_last());
    assert(post =~= pre.push(xv));
    vstd::seq_lib::to_multiset_insert(s, j, xv);
    assert(post.to_multiset() =~= pre.to_multiset().insert(xv));
}

proof fn lemma_insert_keeps_order(s: Pairs, x: (Seq<char>, Seq<char>), j: int)
    requires
        naturally_ordered(s),
        0 <= j <= s.len(),
        j > 0 ==> natural_order(s[j - 1].0, x.0) != Ordering::Greater,
        j < s.len() ==> natural_order(x.0, s[j].0) == Ordering::Less,
    ensures
        naturally_ordered(s.insert(j, x)),
{
    let ns = s.insert(j, x);
    assert forall|k: int| 0 <= k < ns.len() - 1 implies #[trigger] natural_order(ns[k].0, ns[k + 1].0)
        != Ordering::Greater by {
        if k < j - 1 {
            assert(ns[k] == s[k] && ns[k + 1] == s[k + 1]);
            assert(natural_order(s[k].0, s[k + 1].0) != Ordering::Greater);
        } else if k == j - 1 {
        } else if k == j {
        } else {
            assert(ns[k] == s[k - 1] && ns[k + 1] == s[k]);
            let m = k - 1;
            assert(natural_order(s[m].0, s[m + 1].0) != Ordering::Greater);
        }
    }
}

/// Where `key` goes among the sorted pairs `r`, searching from the back.
fn find_insert_pos(r: &Vec<(String, String)>, key: &String) -> (j: usize)
    ensures
        j == insert_pos(pairs_view(r@), key@, r@.len() as int),
        j <= r@.len(),
        j > 0 ==> natural_order(pairs_view(r@)[j - 1].0, key@) != Ordering::Greater,
        forall|k: int| j <= k < r@.len() ==> natural_order(key@, #[trigger] pairs_view(r@)[k].0) == Ordering::Less,
{
    let ghost s = pairs_view(r@);
    let mut j: usize = r.len();
    while j > 0
        invariant
            s == pairs_view(r@),
            j <= r@.len(),
            insert_pos(s, key@, r@.len() as int) == insert_pos(s, key@, j as int),
            forall|k: int| j <= k < r@.len() ==> natural_order(key@, #[trigger] s[k].0) == Ordering::Less,
        decreases j,
    {
        let c = natural_cmp(r[j - 1].0.as_str(), key.as_str());
        match c {
            Ordering::Greater => {},
            _ => {
                assert(s[j - 1].0 == r@[j - 1].0@);
                return j;
            },
        }
        assert(s[j - 1].0 == r@[j - 1].0@);
        j = j - 1;
    }
    j
}

/// The pairs of `v` in natural order of their keys.
pub fn sort_pairs_natural(v: &Vec<(String, String)>) -> (r: Vec<(String, String)>)
    ensures
        pairs_view(r@) == nat_sorted(pairs_view(v@)),
        naturally_ordered(pairs_view(r@)),
        pairs_view(r@).to_multiset() == pairs_view(v@).to_multiset(),
{
    let mut r: Vec<(String, String)> = Vec::new();
    let mut i: usize = 0;
    assert(pairs_view(r@) =~= Seq::empty());
    assert(pairs_view(v@.subrange(0, 0)) =~= Seq::empty());
    while i < v.len()
        invariant
            i <= v@.len(),
            pairs_view(r@) == nat_sorted(pairs_view(v@.subrange(0, i as int))),
            naturally_ordered(pairs_view(r@)),
            pairs_view(r@).to_multiset() == pairs_view(v@.subrange(0, i as int)).to_multiset(),
        decreases v.len() - i,
    {
        let ghost s = pairs_view(r@);
        let ghost xv = (v@[i as int].0@, v@[i as int].1@);
        let j = find_insert_pos(&r, &v[i].0);
        let x = (v[i].0.clone(), v[i].1.clone());
        r.insert(j, x);
        proof {
            assert(pairs_view(r@) =~= s.insert(j as int, xv));
            lemma_sorted_step(v@, i as int, s, j as int);
            lemma_insert_keeps_order(s, xv, j as int);
        }
        i = i + 1;
    }
    assert(v@.subrange(0, i as int) =~= v@);
    r
}

} // verus!
