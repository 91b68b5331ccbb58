//! Ordering helpers for zone ladders: sorting, deduplication, and the
//! first index past a price.

use crate::fixed::Fp;
use vstd::prelude::*;

verus! {

/// The integer views of a sequence of values.
pub open spec fn views(s: Seq<Fp>) -> Seq<int> {
    s.map_values(|v: Fp| v@)
}

/// Whether a sequence is sorted ascending.
pub open spec fn sorted_ints(s: Seq<int>) -> bool {
    forall|i: int, j: int| 0 <= i < j < s.len() ==> s[i] <= s[j]
}

/// A value placed at its position in a sorted sequence.
pub open spec fn insert_sorted(x: int, s: Seq<int>) -> Seq<int>
    decreases s.len(),
{
    if s.len() == 0 {
        seq![x]
    } else if x <= s[0] {
        seq![x] + s
    } else {
        seq![s[0]] + insert_sorted(x, s.drop_first())
    }
}

/// The sorted (ascending) rearrangement of a sequence.
pub open spec fn sort_seq(s: Seq<int>) -> Seq<int>
    decreases s.len(),
{
    if s.len() == 0 {
        Seq::empty()
    } else {
        insert_sorted(s.last(), sort_seq(s.drop_last()))
    }
}

/// A sorted sequence with adjacent duplicates removed.
pub open spec fn dedup_adjacent(s: Seq<int>) -> Seq<int>
    decreases s.len(),
{
    if s.len() == 0 {
        Seq::empty()
    } else if s.len() == 1 {
        s
    } else if s.last() == s[s.len() - 2] {
        dedup_adjacent(s.drop_last())
    } else {
        dedup_adjacent(s.drop_last()).push(s.last())
    }
}

/// Inserting into a sequence grows it by one element.
pub proof fn lemma_insert_sorted_len(x: int, s: Seq<int>)
    ensures
        insert_sorted(x, s).len() == s.len() + 1,
    decreases s.len(),
{
    if s.len() > 0 && !(x <= s[0]) {
        lemma_insert_sorted_len(x, s.drop_first());
    }
}

/// Sorting keeps the length.
pub proof fn lemma_sort_seq_len(s: Seq<int>)
    ensures
        sort_seq(s).len() == s.len(),
    decreases s.len(),
{
    if s.len() > 0 {
        lemma_sort_seq_len(s.drop_last());
        lemma_insert_sorted_len(s.last(), sort_seq(s.drop_last()));
    }
}

/// What `insert_sorted` computes, in closed form: the value goes in
/// front of the first element at or above it.
pub proof fn lemma_insert_sorted_closed(x: int, s: Seq<int>, pos: int)
    requires
        0 <= pos <= s.len(),
        forall|k: int| 0 <= k < pos ==> s[k] < x,
        pos < s.len() ==> x <= s[pos],
    ensures
        insert_sorted(x, s) == s.subrange(0, pos) + seq![x] + s.subrange(pos, s.len() as int),
    decreases s.len(),
{
    if s.len() == 0 {
        assert(insert_sorted(x, s) =~= s.subrange(0, pos) + seq![x] + s.subrange(
            pos,
            s.len() as int,
        ));
    } else if x <= s[0] {
        assert(pos == 0);
        assert(s.subrange(0, s.len() as int) =~= s);
        assert(insert_sorted(x, s) =~= s.subrange(0, pos) + seq![x] + s.subrange(
            pos,
            s.len() as int,
        ));
    } else {
        let t = s.drop_first();
        assert(forall|k: int| 0 <= k < pos - 1 ==> t[k] < x);
        lemma_insert_sorted_closed(x, t, pos - 1);
        assert(t.subrange(0, pos - 1) =~= s.subrange(1, pos));
        assert(t.subrange(pos - 1, t.len() as int) =~= s.subrange(pos, s.len() as int));
        assert(seq![s[0]] + (s.subrange(1, pos) + seq![x] + s.subrange(pos, s.len() as int))
            =~= s.subrange(0, pos) + seq![x] + s.subrange(pos, s.len() as int));
    }
}

/// Inserting into a sorted sequence keeps it sorted.
pub proof fn lemma_insert_sorted_sorted(x: int, s: Seq<int>)
    requires
        sorted_ints(s),
    ensures
        sorted_ints(insert_sorted(x, s)),
    decreases s.len(),
{
    if s.len() == 0 {
    } else if x <= s[0] {
        let r = seq![x] + s;
        assert forall|i: int, j: int| 0 <= i < j < r.len() implies r[i] <= r[j] by {
            if i > 0 {
                assert(s[i - 1] <= s[j - 1]);
            }
        }
    } else {
        let t = s.drop_first();
        assert(sorted_ints(t)) by {
            assert(forall|i: int, j: int|
                0 <= i < j < t.len() ==> t[i] == s[i + 1] && t[j] == s[j + 1]);
        }
        lemma_insert_sorted_sorted(x, t);
        let it = insert_sorted(x, t);
        lemma_insert_sorted_len(x, t);
        let r = seq![s[0]] + it;
        assert forall|i: int, j: int| 0 <= i < j < r.len() implies r[i] <= r[j] by {
            if i == 0 {
                // every element of `it` is either x (> s[0]) or an element
                // of t (at least s[0] by sortedness of s)
                lemma_insert_sorted_members(x, t, j - 1);
            } else {
                assert(it[i - 1] <= it[j - 1]);
            }
        }
    }
}

/// Every element of an insertion result is the inserted value or an
/// element of the original sequence.
pub proof fn lemma_insert_sorted_members(x: int, s: Seq<int>, k: int)
    requires
        0 <= k < insert_sorted(x, s).len(),
    ensures
        insert_sorted(x, s)[k] == x || s.contains(insert_sorted(x, s)[k]),
    decreases s.len(),
{
    lemma_insert_sorted_len(x, s);
    if s.len() == 0 {
    } else if x <= s[0] {
        if k > 0 {
            assert(s.contains(s[k - 1]));
        }
    } else {
        if k > 0 {
            let t = s.drop_first();
            lemma_insert_sorted_members(x, t, k - 1);
            if t.contains(insert_sorted(x, t)[k - 1]) {
                let w = choose|w: int| 0 <= w < t.len() && t[w] == insert_sorted(x, t)[k - 1];
                assert(s[w + 1] == t[w]);
            }
        }
    }
}

/// The sorted rearrangement is sorted.
pub proof fn lemma_sort_seq_sorted(s: Seq<int>)
    ensures
        sorted_ints(sort_seq(s)),
    decreases s.len(),
{
    if s.len() > 0 {
        lemma_sort_seq_sorted(s.drop_last());
        lemma_insert_sorted_sorted(s.last(), sort_seq(s.drop_last()));
    }
}

/// Place a value at its position in a sorted vector.
fn insert_fp_sorted(v: &mut Vec<Fp>, x: Fp)
    ensures
        views(final(v)@) == insert_sorted(x@, views(old(v)@)),
{
    let mut pos: usize = 0;
    while pos < v.len() && v[pos].lt(x)
        invariant
            pos <= v@.len(),
            v@ == old(v)@,
            forall|k: int| 0 <= k < pos ==> views(v@)[k] < x@,
        decreases v@.len() - pos,
    {
        pos = pos + 1;
    }
    proof {
        lemma_insert_sorted_closed(x@, views(v@), pos as int);
    }
    v.insert(pos, x);
    proof {
        assert(views(v@) =~= views(old(v)@).subrange(0, pos as int) + seq![x@] + views(
            old(v)@,
        ).subrange(pos as int, views(old(v)@).len() as int));
    }
}

/// The sorted rearrangement of a vector of values.
pub fn sort_fps(v: &Vec<Fp>) -> (r: Vec<Fp>)
    ensures
        views(r@) == sort_seq(views(v@)),
{
    let mut acc: Vec<Fp> = Vec::new();
    let mut i: usize = 0;
    while i < v.len()
        invariant
            i <= v@.len(),
            views(acc@) == sort_seq(views(v@).subrange(0, i as int)),
        decreases v@.len() - i,
    {
        proof {
            assert(views(v@).subrange(0, i + 1).drop_last() =~= views(v@).subrange(0, i as int));
            assert(views(v@).subrange(0, i + 1).last() == v@[i as int]@);
        }
        insert_fp_sorted(&mut acc, v[i]);
        i = i + 1;
    }
    proof {
        assert(views(v@).subrange(0, views(v@).len() as int) =~= views(v@));
    }
    acc
}

/// The sorted rearrangement of a vector with duplicates removed.
pub fn sort_dedup_fps(v: &Vec<Fp>) -> (r: Vec<Fp>)
    ensures
        views(r@) == dedup_adjacent(sort_seq(views(v@))),
{
    let sorted = sort_fps(v);
    let mut out: Vec<Fp> = Vec::new();
    let mut i: usize = 0;
    while i < sorted.len()
        invariant
            i <= sorted@.len(),
            views(out@) == dedup_adjacent(views(sorted@).subrange(0, i as int)),
            views(sorted@) == sort_seq(views(v@)),
        decreases sorted@.len() - i,
    {
        let ghost pre = views(sorted@).subrange(0, i + 1);
        proof {
            assert(pre.drop_last() =~= views(sorted@).subrange(0, i as int));
            assert(pre.last() == sorted@[i as int]@);
            if i > 0 {
                assert(pre[pre.len() - 2] == sorted@[i - 1]@);
            }
        }
        if i > 0 && sorted[i].eq_v(sorted[i - 1]) {
        } else {
            out.push(sorted[i]);
        }
        i = i + 1;
    }
    proof {
        assert(views(sorted@).subrange(0, views(sorted@).len() as int) =~= views(sorted@));
    }
    out
}

/// The smallest value of a non-empty sequence.
pub open spec fn seq_min_s(s: Seq<int>) -> int
    decreases s.len(),
{
    if s.len() <= 1 {
        s[0]
    } else {
        let m = seq_min_s(s.drop_last());
        if s.last() < m {
            s.last()
        } else {
            m
        }
    }
}

/// The largest value of a non-empty sequence.
pub open spec fn seq_max_s(s: Seq<int>) -> int
    decreases s.len(),
{
    if s.len() <= 1 {
        s[0]
    } else {
        let m = seq_max_s(s.drop_last());
        if s.last() > m {
            s.last()
        } else {
            m
        }
    }
}

/// The smallest value of a non-empty vector.
pub fn min_fp(v: &Vec<Fp>) -> (r: Fp)
    requires
        v@.len() > 0,
    ensures
        r@ == seq_min_s(views(v@)),
{
    let mut m = v[0];
    let mut i: usize = 1;
    proof {
        assert(views(v@).subrange(0, 1).len() == 1);
        assert(views(v@).subrange(0, 1)[0] == v@[0]@);
    }
    while i < v.len()
        invariant
            1 <= i <= v@.len(),
            m@ == seq_min_s(views(v@).subrange(0, i as int)),
        decreases v@.len() - i,
    {
        proof {
            assert(views(v@).subrange(0, i + 1).drop_last() =~= views(v@).subrange(0, i as int));
            assert(views(v@).subrange(0, i + 1).last() == v@[i as int]@);
        }
        if v[i].lt(m) {
            m = v[i];
        }
        i = i + 1;
    }
    proof {
        assert(views(v@).subrange(0, views(v@).len() as int) =~= views(v@));
    }
    m
}

/// The largest value of a non-empty vector.
pub fn max_fp(v: &Vec<Fp>) -> (r: Fp)
    requires
        v@.len() > 0,
    ensures
        r@ == seq_max_s(views(v@)),
{
    let mut m = v[0];
    let mut i: usize = 1;
    proof {
        assert(views(v@).subrange(0, 1).len() == 1);
        assert(views(v@).subrange(0, 1)[0] == v@[0]@);
    }
    while i < v.len()
        invariant
            1 <= i <= v@.len(),
            m@ == seq_max_s(views(v@).subrange(0, i as int)),
        decreases v@.len() - i,
    {
        proof {
            assert(views(v@).subrange(0, i + 1).drop_last() =~= views(v@).subrange(0, i as int));
            assert(views(v@).subrange(0, i + 1).last() == v@[i as int]@);
        }
        if v[i].gt(m) {
            m = v[i];
        }
        i = i + 1;
    }
    proof {
        assert(views(v@).subrange(0, views(v@).len() as int) =~= views(v@));
    }
    m
}

/// The subsequence of values at most the bound, in order.
pub open spec fn filter_le(s: Seq<int>, bound: int) -> Seq<int>
    decreases s.len(),
{
    if s.len() == 0 {
        Seq::empty()
    } else if s.last() <= bound {
        filter_le(s.drop_last(), bound).push(s.last())
    } else {
        filter_le(s.drop_last(), bound)
    }
}

/// Keep the values at most the bound, in order.
pub fn retain_le(v: &Vec<Fp>, bound: Fp) -> (r: Vec<Fp>)
    ensures
        views(r@) == filter_le(views(v@), bound@),
{
    let mut out: Vec<Fp> = Vec::new();
    let mut i: usize = 0;
    proof {
        assert(views(out@) =~= Seq::<int>::empty());
        assert(views(v@).subrange(0, 0) =~= Seq::<int>::empty());
    }
    while i < v.len()
        invariant
            i <= v@.len(),
            views(out@) == filter_le(views(v@).subrange(0, i as int), bound@),
        decreases v@.len() - i,
    {
        proof {
            assert(views(v@).subrange(0, i + 1).drop_last() =~= views(v@).subrange(0, i as int));
            assert(views(v@).subrange(0, i + 1).last() == v@[i as int]@);
        }
        let ghost pre = views(out@);
        if v[i].le(bound) {
            out.push(v[i]);
            proof {
                assert(views(out@) =~= pre.push(v@[i as int]@));
            }
        }
        i = i + 1;
    }
    proof {
        assert(views(v@).subrange(0, views(v@).len() as int) =~= views(v@));
    }
    out
}

/// The first index whose value exceeds the bound, scanning from the
/// front.
pub open spec fn first_gt(s: Seq<int>, bound: int) -> Option<int>
    decreases s.len(),
{
    if s.len() == 0 {
        None
    } else if s[0] > bound {
        Some(0int)
    } else {
        match first_gt(s.drop_first(), bound) {
            Some(i) => Some(i + 1),
            None => None,
        }
    }
}

/// Find the first element past a bound.
pub fn find_first_gt(v: &Vec<Fp>, bound: Fp) -> (r: Option<usize>)
    ensures
        match r {
            Some(i) => first_gt(views(v@), bound@) == Some(i as int) && i < v@.len(),
            None => first_gt(views(v@), bound@) is None,
        },
{
    let mut i: usize = 0;
    while i < v.len()
        invariant
            i <= v@.len(),
            forall|k: int| 0 <= k < i ==> views(v@)[k] <= bound@,
        decreases v@.len() - i,
    {
        if v[i].gt(bound) {
            proof {
                lemma_first_gt_at(views(v@), bound@, i as int);
            }
            return Some(i);
        }
        i = i + 1;
    }
    proof {
        lemma_first_gt_none(views(v@), bound@);
    }
    None
}

/// Where a prefix stays at or under the bound and the next element
/// exceeds it, that index is the first past the bound.
proof fn lemma_first_gt_at(s: Seq<int>, bound: int, i: int)
    requires
        0 <= i < s.len(),
        forall|k: int| 0 <= k < i ==> s[k] <= bound,
        s[i] > bound,
    ensures
        first_gt(s, bound) == Some(i),
    decreases s.len(),
{
    if i > 0 {
        let t = s.drop_first();
        assert(forall|k: int| 0 <= k < i - 1 ==> t[k] == s[k + 1] && t[k] <= bound);
        assert(t[i - 1] == s[i]);
        lemma_first_gt_at(t, bound, i - 1);
    }
}

/// Where no element exceeds the bound there is no first index past it.
proof fn lemma_first_gt_none(s: Seq<int>, bound: int)
    requires
        forall|k: int| 0 <= k < s.len() ==> s[k] <= bound,
    ensures
        first_gt(s, bound) is None,
    decreases s.len(),
{
    if s.len() > 0 {
        let t = s.drop_first();
        assert(forall|k: int| 0 <= k < t.len() ==> t[k] == s[k + 1] && t[k] <= bound);
        lemma_first_gt_none(t, bound);
    }
}

/// The subsequence of values exceeding the bound, in order.
pub open spec fn filter_gt(s: Seq<int>, bound: int) -> Seq<int>
    decreases s.len(),
{
    if s.len() == 0 {
        Seq::empty()
    } else if s.last() > bound {
        filter_gt(s.drop_last(), bound).push(s.last())
    } else {
        filter_gt(s.drop_last(), bound)
    }
}

/// The subsequence of values at least the bound, in order.
pub open spec fn filter_ge(s: Seq<int>, bound: int) -> Seq<int>
    decreases s.len(),
{
    if s.len() == 0 {
        Seq::empty()
    } else if s.last() >= bound {
        filter_ge(s.drop_last(), bound).push(s.last())
    } else {
        filter_ge(s.drop_last(), bound)
    }
}

/// The subsequence of values under the bound, in order.
pub open spec fn filter_lt(s: Seq<int>, bound: int) -> Seq<int>
    decreases s.len(),
{
    if s.len() == 0 {
        Seq::empty()
    } else if s.last() < bound {
        filter_lt(s.drop_last(), bound).push(s.last())
    } else {
        filter_lt(s.drop_last(), bound)
    }
}

/// No filter grows a sequence.
pub proof fn lemma_filter_lens(s: Seq<int>, bound: int)
    ensures
        filter_le(s, bound).len() <= s.len(),
        filter_gt(s, bound).len() <= s.len(),
        filter_ge(s, bound).len() <= s.len(),
        filter_lt(s, bound).len() <= s.len(),
    decreases s.len(),
{
    if s.len() > 0 {
        lemma_filter_lens(s.drop_last(), bound);
    }
}

/// The values at most a bound and those past it partition a sequence.
pub proof fn lemma_filter_partition(s: Seq<int>, bound: int)
    ensures
        filter_le(s, bound).len() + filter_gt(s, bound).len() == s.len(),
    decreases s.len(),
{
    if s.len() > 0 {
        lemma_filter_partition(s.drop_last(), bound);
    }
}

/// Keep the values exceeding the bound, in order.
pub fn retain_gt(v: &Vec<Fp>, bound: Fp) -> (r: Vec<Fp>)
    ensures
        views(r@) == filter_gt(views(v@), bound@),
{
    let mut out: Vec<Fp> = Vec::new();
    let mut i: usize = 0;
    proof {
        assert(views(out@) =~= Seq::<int>::empty());
        assert(views(v@).subrange(0, 0) =~= Seq::<int>::empty());
    }
    while i < v.len()
        invariant
            i <= v@.len(),
            views(out@) == filter_gt(views(v@).subrange(0, i as int), bound@),
        decreases v@.len() - i,
    {
        proof {
            assert(views(v@).subrange(0, i + 1).drop_last() =~= views(v@).subrange(0, i as int));
            assert(views(v@).subrange(0, i + 1).last() == v@[i as int]@);
        }
        let ghost pre = views(out@);
        if v[i].gt(bound) {
            out.push(v[i]);
            proof {
                assert(views(out@) =~= pre.push(v@[i as int]@));
            }
        }
        i = i + 1;
    }
    proof {
        assert(views(v@).subrange(0, views(v@).len() as int) =~= views(v@));
    }
    out
}

/// Keep the values at least the bound, in order.
pub fn retain_ge(v: &Vec<Fp>, bound: Fp) -> (r: Vec<Fp>)
    ensures
        views(r@) == filter_ge(views(v@), bound@),
{
    let mut out: Vec<Fp> = Vec::new();
    let mut i: usize = 0;
    proof {
        assert(views(out@) =~= Seq::<int>::empty());
        assert(views(v@).subrange(0, 0) =~= Seq::<int>::empty());
    }
    while i < v.len()
        invariant
            i <= v@.len(),
            views(out@) == filter_ge(views(v@).subrange(0, i as int), bound@),
        decreases v@.len() - i,
    {
        proof {
            assert(views(v@).subrange(0, i + 1).drop_last() =~= views(v@).subrange(0, i as int));
            assert(views(v@).subrange(0, i + 1).last() == v@[i as int]@);
        }
        let ghost pre = views(out@);
        if v[i].ge(bound) {
            out.push(v[i]);
            proof {
                assert(views(out@) =~= pre.push(v@[i as int]@));
            }
        }
        i = i + 1;
    }
    proof {
        assert(views(v@).subrange(0, views(v@).len() as int) =~= views(v@));
    }
    out
}

/// Keep the values under the bound, in order.
pub fn retain_lt(v: &Vec<Fp>, bound: Fp) -> (r: Vec<Fp>)
    ensures
        views(r@) == filter_lt(views(v@), bound@),
{
    let mut out: Vec<Fp> = Vec::new();
    let mut i: usize = 0;
    proof {
        assert(views(out@) =~= Seq::<int>::empty());
        assert(views(v@).subrange(0, 0) =~= Seq::<int>::empty());
    }
    while i < v.len()
        invariant
            i <= v@.len(),
            views(out@) == filter_lt(views(v@).subrange(0, i as int), bound@),
        decreases v@.len() - i,
    {
        proof {
            assert(views(v@).subrange(0, i + 1).drop_last() =~= views(v@).subrange(0, i as int));
            assert(views(v@).subrange(0, i + 1).last() == v@[i as int]@);
        }
        let ghost pre = views(out@);
        if v[i].lt(bound) {
            out.push(v[i]);
            proof {
                assert(views(out@) =~= pre.push(v@[i as int]@));
            }
        }
        i = i + 1;
    }
    proof {
        assert(views(v@).subrange(0, views(v@).len() as int) =~= views(v@));
    }
    out
}

} // verus!
