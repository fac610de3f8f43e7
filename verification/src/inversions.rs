use vstd::prelude::*;

verus! {

// The number of out-of-order pairs in a sequence. The loops of the gnome,
// bubble and comb strategies have no structural bound on their iteration
// count; each adjacent exchange of an out-of-order pair removes exactly one
// such pair, which is what their termination measures rest on.

/// How many positions in `[lo, hi)` hold a value strictly above `v`.
pub open spec fn cnt_gt(s: Seq<u32>, v: u32, lo: int, hi: int) -> nat
    decreases hi - lo,
{
    if hi <= lo {
        0
    } else {
        cnt_gt(s, v, lo, hi - 1) + (if s[hi - 1] > v {
            1nat
        } else {
            0nat
        })
    }
}

/// The out-of-order pairs whose larger index lies in `[lo, hi)`.
pub open spec fn inv_range(s: Seq<u32>, lo: int, hi: int) -> nat
    decreases hi - lo,
{
    if hi <= lo {
        0
    } else {
        inv_range(s, lo, hi - 1) + cnt_gt(s, s[hi - 1], 0, hi - 1)
    }
}

/// The number of out-of-order pairs in the whole sequence.
pub open spec fn inversions(s: Seq<u32>) -> nat {
    inv_range(s, 0, s.len() as int)
}

proof fn lemma_cnt_split(s: Seq<u32>, v: u32, lo: int, mid: int, hi: int)
    requires
        lo <= mid <= hi,
    ensures
        cnt_gt(s, v, lo, hi) == cnt_gt(s, v, lo, mid) + cnt_gt(s, v, mid, hi),
    decreases hi - mid,
{
    if hi <= mid {
    } else {
        lemma_cnt_split(s, v, lo, mid, hi - 1);
    }
}

proof fn lemma_cnt_congr(s: Seq<u32>, t: Seq<u32>, v: u32, lo: int, hi: int)
    requires
        forall|k: int| lo <= k < hi ==> s[k] == t[k],
    ensures
        cnt_gt(s, v, lo, hi) == cnt_gt(t, v, lo, hi),
    decreases hi - lo,
{
    if hi <= lo {
    } else {
        lemma_cnt_congr(s, t, v, lo, hi - 1);
    }
}

proof fn lemma_inv_congr(s: Seq<u32>, t: Seq<u32>, lo: int, hi: int)
    requires
        forall|k: int| 0 <= k < hi ==> s[k] == t[k],
        0 <= lo,
    ensures
        inv_range(s, lo, hi) == inv_range(t, lo, hi),
    decreases hi - lo,
{
    if hi <= lo {
    } else {
        lemma_inv_congr(s, t, lo, hi - 1);
        lemma_cnt_congr(s, t, s[hi - 1], 0, hi - 1);
    }
}

proof fn lemma_inv_split(s: Seq<u32>, lo: int, mid: int, hi: int)
    requires
        lo <= mid <= hi,
    ensures
        inv_range(s, lo, hi) == inv_range(s, lo, mid) + inv_range(s, mid, hi),
    decreases hi - mid,
{
    if hi <= mid {
    } else {
        lemma_inv_split(s, lo, mid, hi - 1);
    }
}

// For a sequence that swaps the neighbors `a` and `a + 1`, every term of the
// range count beyond the pair is unchanged: the prefix it reads is the same
// but for those two positions, which hold the same two values either way.
proof fn lemma_inv_tail_after_swap(s: Seq<u32>, t: Seq<u32>, a: int, lo: int, hi: int)
    requires
        0 <= a,
        a + 2 <= lo <= hi,
        hi <= s.len(),
        s.len() == t.len(),
        t[a] == s[a + 1],
        t[a + 1] == s[a],
        forall|k: int| 0 <= k < s.len() && k != a && k != a + 1 ==> t[k] == s[k],
    ensures
        inv_range(s, lo, hi) == inv_range(t, lo, hi),
    decreases hi - lo,
{
    if hi <= lo {
    } else {
        lemma_inv_tail_after_swap(s, t, a, lo, hi - 1);
        let v = s[hi - 1];
        assert(t[hi - 1] == v);
        lemma_cnt_split(s, v, 0, a, hi - 1);
        lemma_cnt_split(s, v, a, a + 2, hi - 1);
        lemma_cnt_split(t, v, 0, a, hi - 1);
        lemma_cnt_split(t, v, a, a + 2, hi - 1);
        lemma_cnt_congr(s, t, v, 0, a);
        lemma_cnt_congr(s, t, v, a + 2, hi - 1);
        assert(cnt_gt(s, v, a, a + 2) == cnt_gt(s, v, a, a + 1) + (if s[a + 1] > v {
            1nat
        } else {
            0nat
        }));
        assert(cnt_gt(s, v, a, a + 1) == cnt_gt(s, v, a, a) + (if s[a] > v {
            1nat
        } else {
            0nat
        }));
        assert(cnt_gt(t, v, a, a + 2) == cnt_gt(t, v, a, a + 1) + (if t[a + 1] > v {
            1nat
        } else {
            0nat
        }));
        assert(cnt_gt(t, v, a, a + 1) == cnt_gt(t, v, a, a) + (if t[a] > v {
            1nat
        } else {
            0nat
        }));
        assert(cnt_gt(s, v, a, a + 2) == cnt_gt(t, v, a, a + 2));
        assert(cnt_gt(s, v, 0, hi - 1) == cnt_gt(t, v, 0, hi - 1));
    }
}

proof fn lemma_cnt_gt_zero(s: Seq<u32>, v: u32, lo: int, hi: int)
    requires
        forall|k: int| lo <= k < hi ==> #[trigger] s[k] <= v,
    ensures
        cnt_gt(s, v, lo, hi) == 0,
    decreases hi - lo,
{
    if hi <= lo {
    } else {
        lemma_cnt_gt_zero(s, v, lo, hi - 1);
    }
}

proof fn lemma_inv_range_zero(s: Seq<u32>, lo: int, hi: int)
    requires
        hi <= s.len(),
        forall|i: int, j: int| 0 <= i < j < s.len() ==> #[trigger] s[i] <= #[trigger] s[j],
    ensures
        inv_range(s, lo, hi) == 0,
    decreases hi - lo,
{
    if hi <= lo {
    } else {
        lemma_inv_range_zero(s, lo, hi - 1);
        lemma_cnt_gt_zero(s, s[hi - 1], 0, hi - 1);
    }
}

/// A sequence in non-descending order has no out-of-order pair.
pub proof fn lemma_sorted_inversions_zero(s: Seq<u32>)
    requires
        forall|i: int, j: int| 0 <= i < j < s.len() ==> #[trigger] s[i] <= #[trigger] s[j],
    ensures
        inversions(s) == 0,
{
    lemma_inv_range_zero(s, 0, s.len() as int);
}

/// Exchanging an out-of-order adjacent pair removes exactly one out-of-order
/// pair from the sequence.
pub proof fn lemma_adjacent_swap_inversions(s: Seq<u32>, a: int)
    requires
        0 <= a,
        a + 1 < s.len(),
        s[a] > s[a + 1],
    ensures
        inversions(s.update(a, s[a + 1]).update(a + 1, s[a])) + 1 == inversions(s),
{
    let t = s.update(a, s[a + 1]).update(a + 1, s[a]);
    let n = s.len() as int;
    lemma_inv_split(s, 0, a, n);
    lemma_inv_split(s, a, a + 2, n);
    lemma_inv_split(t, 0, a, n);
    lemma_inv_split(t, a, a + 2, n);
    lemma_inv_congr(s, t, 0, a);
    lemma_inv_tail_after_swap(s, t, a, a + 2, n);
    // the two middle terms: pairs whose larger index is a or a + 1
    assert(inv_range(s, a, a + 2) == inv_range(s, a, a + 1) + cnt_gt(s, s[a + 1], 0, a + 1));
    assert(inv_range(s, a, a + 1) == inv_range(s, a, a) + cnt_gt(s, s[a], 0, a));
    assert(inv_range(t, a, a + 2) == inv_range(t, a, a + 1) + cnt_gt(t, t[a + 1], 0, a + 1));
    assert(inv_range(t, a, a + 1) == inv_range(t, a, a) + cnt_gt(t, t[a], 0, a));
    lemma_cnt_congr(s, t, s[a + 1], 0, a);
    lemma_cnt_congr(s, t, s[a], 0, a);
    assert(cnt_gt(s, s[a + 1], 0, a + 1) == cnt_gt(s, s[a + 1], 0, a) + 1nat);
    assert(cnt_gt(t, s[a], 0, a + 1) == cnt_gt(t, s[a], 0, a) + (if t[a] > s[a] {
        1nat
    } else {
        0nat
    }));
    assert(!(t[a] > s[a]));
    assert(cnt_gt(t, t[a + 1], 0, a + 1) == cnt_gt(s, s[a], 0, a));
    assert(cnt_gt(t, t[a], 0, a) == cnt_gt(s, s[a + 1], 0, a));
}

} // verus!
