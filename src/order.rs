use vstd::prelude::*;

use crate::geometry::{Rect, WindowHandle};

verus! {

broadcast use vstd::seq_lib::group_to_multiset_ensures;

/// One window of a snapshot, with the rectangle measured when it was taken.
#[derive(Clone, Copy, Debug, PartialEq, Eq, Structural)]
pub struct SnapshotEntry {
    pub handle: WindowHandle,
    pub rect: Rect,
}

pub open spec fn left_of(e: SnapshotEntry) -> int {
    e.rect.left as int
}

/// Left coordinates never decrease along `s`.
pub open spec fn is_sorted_by_left(s: Seq<SnapshotEntry>) -> bool {
    forall|i: int, j: int| 0 <= i < j < s.len() ==> left_of(#[trigger] s[i]) <= left_of(#[trigger] s[j])
}

/// No two entries of `s` share a left coordinate.
pub open spec fn distinct_lefts(s: Seq<SnapshotEntry>) -> bool {
    forall|i: int, j: int|
        0 <= i < s.len() && 0 <= j < s.len() && i != j ==> left_of(#[trigger] s[i]) != left_of(
            #[trigger] s[j],
        )
}

/// `e` placed into `s` after every entry whose left coordinate is not greater.
pub open spec fn insert_by_left(s: Seq<SnapshotEntry>, e: SnapshotEntry) -> Seq<SnapshotEntry>
    decreases s.len(),
{
    if s.len() == 0 {
        seq![e]
    } else if left_of(s.last()) <= left_of(e) {
        s.push(e)
    } else {
        insert_by_left(s.drop_last(), e).push(s.last())
    }
}

/// `s` in ascending order of left coordinate; entries with equal left
/// coordinates keep their order in `s`.
pub open spec fn sorted_by_left(s: Seq<SnapshotEntry>) -> Seq<SnapshotEntry>
    decreases s.len(),
{
    if s.len() == 0 {
        s
    } else {
        insert_by_left(sorted_by_left(s.drop_last()), s.last())
    }
}

proof fn lemma_insert_at(s: Seq<SnapshotEntry>, e: SnapshotEntry, p: int)
    requires
        0 <= p <= s.len(),
        forall|k: int| p <= k < s.len() ==> left_of(#[trigger] s[k]) > left_of(e),
        p == 0 || left_of(s[p - 1]) <= left_of(e),
    ensures
        insert_by_left(s, e) == s.insert(p, e),
    decreases s.len(),
{
    if s.len() == 0 {
        assert(s.insert(p, e) =~= seq![e]);
    } else if p == s.len() {
        assert(s.insert(p, e) =~= s.push(e));
    } else {
        lemma_insert_at(s.drop_last(), e, p);
        assert(s.drop_last().insert(p, e).push(s.last()) =~= s.insert(p, e));
    }
}

proof fn lemma_insert_sorted(s: Seq<SnapshotEntry>, e: SnapshotEntry)
    requires
        is_sorted_by_left(s),
    ensures
        is_sorted_by_left(insert_by_left(s, e)),
        insert_by_left(s, e).to_multiset() == s.to_multiset().insert(e),
    decreases s.len(),
{
    if s.len() == 0 {
        assert(seq![e] =~= Seq::<SnapshotEntry>::empty().push(e));
    } else if left_of(s.last()) <= left_of(e) {
    } else {
        let d = s.drop_last();
        lemma_insert_sorted(d, e);
        let t = insert_by_left(d, e);
        assert(d.push(s.last()) =~= s);
        assert forall|k: int| 0 <= k < t.len() implies left_of(#[trigger] t[k]) <= left_of(
            s.last(),
        ) by {
            assert(t.to_multiset().count(t[k]) > 0);
            if t[k] != e {
                assert(d.to_multiset().count(t[k]) > 0);
                let q = choose|q: int| 0 <= q < d.len() && d[q] == t[k];
                assert(s[q] == d[q]);
            }
        }
        assert(t.push(s.last()).to_multiset() =~= s.to_multiset().insert(e));
    }
}

pub(crate) proof fn lemma_sorted_by_left(s: Seq<SnapshotEntry>)
    ensures
        is_sorted_by_left(sorted_by_left(s)),
        sorted_by_left(s).to_multiset() == s.to_multiset(),
    decreases s.len(),
{
    if s.len() > 0 {
        lemma_sorted_by_left(s.drop_last());
        lemma_insert_sorted(sorted_by_left(s.drop_last()), s.last());
        assert(s.drop_last().push(s.last()) =~= s);
    }
}

proof fn lemma_distinct_lefts_transfer(s: Seq<SnapshotEntry>, t: Seq<SnapshotEntry>)
    requires
        distinct_lefts(s),
        s.to_multiset() == t.to_multiset(),
    ensures
        distinct_lefts(t),
{
    assert(s.no_duplicates()) by {
        assert forall|i: int, j: int| 0 <= i < s.len() && 0 <= j < s.len() && i != j implies s[i]
            != s[j] by {
            assert(left_of(s[i]) != left_of(s[j]));
        }
    }
    s.lemma_multiset_has_no_duplicates();
    t.lemma_multiset_has_no_duplicates_conv();
    assert forall|i: int, j: int| 0 <= i < t.len() && 0 <= j < t.len() && i != j implies left_of(
        #[trigger] t[i],
    ) != left_of(#[trigger] t[j]) by {
        assert(t.to_multiset().count(t[i]) > 0);
        assert(t.to_multiset().count(t[j]) > 0);
        assert(s.contains(t[i]));
        assert(s.contains(t[j]));
        let p = choose|p: int| 0 <= p < s.len() && s[p] == t[i];
        let q = choose|q: int| 0 <= q < s.len() && s[q] == t[j];
        assert(t[i] != t[j]);
    }
}

proof fn lemma_sorted_unique(t1: Seq<SnapshotEntry>, t2: Seq<SnapshotEntry>)
    requires
        is_sorted_by_left(t1),
        is_sorted_by_left(t2),
        distinct_lefts(t1),
        t1.to_multiset() == t2.to_multiset(),
    ensures
        t1 == t2,
    decreases t1.len(),
{
    assert(t1.len() == t1.to_multiset().len());
    assert(t2.len() == t2.to_multiset().len());
    if t1.len() > 0 {
        let n = t1.len() - 1;
        let x = t1.last();
        let y = t2.last();
        assert(t1.to_multiset().count(x) > 0);
        assert(t2.to_multiset().count(y) > 0);
        assert(t2.contains(x));
        assert(t1.contains(y));
        let j = choose|j: int| 0 <= j < t2.len() && t2[j] == x;
        let k = choose|k: int| 0 <= k < t1.len() && t1[k] == y;
        assert(left_of(t1[k]) <= left_of(t1[n]));
        assert(left_of(t2[j]) <= left_of(t2[n]));
        assert(k == n);
        assert(x == y);
        let d1 = t1.drop_last();
        let d2 = t2.drop_last();
        assert(d1.push(x) =~= t1);
        assert(d2.push(x) =~= t2);
        assert(d1.to_multiset() =~= d2.to_multiset()) by {
            assert(d1.to_multiset().insert(x) == d2.to_multiset().insert(x));
            assert forall|z: SnapshotEntry| d1.to_multiset().count(z) == d2.to_multiset().count(z) by {
                assert(d1.to_multiset().insert(x).count(z) == d2.to_multiset().insert(x).count(z));
            }
        }
        assert(is_sorted_by_left(d1));
        assert(is_sorted_by_left(d2));
        assert(distinct_lefts(d1));
        lemma_sorted_unique(d1, d2);
    }
}

/// For entries whose left coordinates are all distinct, the order that comes
/// out of sorting does not depend on the order in which they were listed:
/// two listings of the same entries sort to the same sequence.
pub proof fn lemma_sort_order_independent(s1: Seq<SnapshotEntry>, s2: Seq<SnapshotEntry>)
    requires
        distinct_lefts(s1),
        s1.to_multiset() == s2.to_multiset(),
    ensures
        sorted_by_left(s1) == sorted_by_left(s2),
{
    lemma_sorted_by_left(s1);
    lemma_sorted_by_left(s2);
    lemma_distinct_lefts_transfer(s1, sorted_by_left(s1));
    lemma_sorted_unique(sorted_by_left(s1), sorted_by_left(s2));
}

/// The entries of `s` in ascending order of left coordinate, equal left
/// coordinates in their order in `s`.
pub fn sort_by_left(s: &Vec<SnapshotEntry>) -> (r: Vec<SnapshotEntry>)
    ensures
        r@ == sorted_by_left(s@),
        is_sorted_by_left(r@),
        r@.to_multiset() == s@.to_multiset(),
{
    let mut r: Vec<SnapshotEntry> = Vec::new();
    let mut i: usize = 0;
    while i < s.len()
        invariant
            i <= s@.len(),
            r@ == sorted_by_left(s@.subrange(0, i as int)),
        decreases s@.len() - i,
    {
        let e = s[i];
        let mut p: usize = r.len();
        while p > 0 && r[p - 1].rect.left > e.rect.left
            invariant
                p <= r@.len(),
                forall|k: int| p <= k < r@.len() ==> left_of(#[trigger] r@[k]) > left_of(e),
            decreases p,
        {
            p = p - 1;
        }
        proof {
            lemma_insert_at(r@, e, p as int);
            assert(s@.subrange(0, i + 1).drop_last() =~= s@.subrange(0, i as int));
        }
        r.insert(p, e);
        i = i + 1;
    }
    proof {
        assert(s@.subrange(0, s@.len() as int) =~= s@);
        lemma_sorted_by_left(s@);
    }
    r
}

} // verus!
