use vstd::prelude::*;
use vstd::relations::sorted_by;
use vstd::relations::total_ordering;
use vstd::seq_lib::lemma_sorted_unique;
use vstd::seq_lib::to_multiset_update;

verus! {

/// The values stand in non-descending order.
pub open spec fn is_sorted(s: Seq<u32>) -> bool {
    forall|i: int, j: int| 0 <= i < j < s.len() ==> #[trigger] s[i] <= #[trigger] s[j]
}

/// Non-descending order restricted to the index window `[lo, hi)`.
pub open spec fn sorted_range(s: Seq<u32>, lo: int, hi: int) -> bool {
    forall|i: int, j: int| lo <= i < j < hi ==> #[trigger] s[i] <= #[trigger] s[j]
}

/// Exchanging the values at two positions leaves the multiset of values as
/// it was.
pub proof fn lemma_swap_multiset(s: Seq<u32>, i: int, j: int)
    requires
        0 <= i < s.len(),
        0 <= j < s.len(),
    ensures
        s.update(i, s[j]).update(j, s[i]).to_multiset() == s.to_multiset(),
{
    broadcast use vstd::seq_lib::group_to_multiset_ensures;
    broadcast use vstd::multiset::group_multiset_axioms;
    broadcast use vstd::multiset::group_multiset_properties;

    let u = s.update(i, s[j]);
    let v = u.update(j, s[i]);
    to_multiset_update(s, i, s[j]);
    to_multiset_update(u, j, s[i]);
    assert(s.contains(s[i]));
    assert(s.contains(s[j]));
    assert(u[j] == s[j]);
    assert(v.to_multiset() =~= s.to_multiset());
}

/// Two sorted sequences that hold the same multiset of values are the same
/// sequence: sortedness and the multiset together pin the result down.
pub proof fn lemma_sorted_permutation_unique(a: Seq<u32>, b: Seq<u32>)
    requires
        is_sorted(a),
        is_sorted(b),
        a.to_multiset() == b.to_multiset(),
    ensures
        a == b,
{
    let leq = |x: u32, y: u32| x <= y;
    assert(total_ordering(leq)) by {
        assert forall|x: u32, y: u32, z: u32| #[trigger] leq(x, y) && #[trigger] leq(y, z)
            implies leq(x, z) by {}
    }
    assert(sorted_by(a, leq));
    assert(sorted_by(b, leq));
    lemma_sorted_unique(a, b, leq);
    assert(a =~= b);
}

/// Sorting a sequence that is already in non-descending order returns the
/// identical sequence: no element moves.
pub proof fn lemma_sort_of_sorted_is_identity(pre: Seq<u32>, post: Seq<u32>)
    requires
        is_sorted(pre),
        is_sorted(post),
        post.to_multiset() == pre.to_multiset(),
    ensures
        post == pre,
{
    lemma_sorted_permutation_unique(post, pre);
}

/// Any two runs that both sort the same input end in the same final
/// sequence, whatever order of exchanges each of them took.
pub proof fn lemma_sorted_outcome_deterministic(input: Seq<u32>, r1: Seq<u32>, r2: Seq<u32>)
    requires
        is_sorted(r1),
        r1.to_multiset() == input.to_multiset(),
        is_sorted(r2),
        r2.to_multiset() == input.to_multiset(),
    ensures
        r1 == r2,
{
    lemma_sorted_permutation_unique(r1, r2);
}

/// Being an unchanged leading part of a log is transitive.
pub proof fn lemma_prefix_trans<T>(a: Seq<T>, b: Seq<T>, c: Seq<T>)
    requires
        a.is_prefix_of(b),
        b.is_prefix_of(c),
    ensures
        a.is_prefix_of(c),
{
    assert(a =~= c.subrange(0, a.len() as int));
}

/// Exchanging two positions inside a window leaves the window's multiset of
/// values as it was.
pub proof fn lemma_swap_multiset_range(s: Seq<u32>, lo: int, hi: int, i: int, j: int)
    requires
        0 <= lo <= i < hi <= s.len(),
        lo <= j < hi,
    ensures
        s.update(i, s[j]).update(j, s[i]).subrange(lo, hi).to_multiset() == s.subrange(
            lo,
            hi,
        ).to_multiset(),
{
    let sub = s.subrange(lo, hi);
    assert(s.update(i, s[j]).update(j, s[i]).subrange(lo, hi) =~= sub.update(
        i - lo,
        sub[j - lo],
    ).update(j - lo, sub[i - lo]));
    lemma_swap_multiset(sub, i - lo, j - lo);
}

/// A sequence that holds the same multiset as one whose values all lie
/// strictly below a bound also has all its values strictly below it.
pub proof fn lemma_perm_below(a: Seq<u32>, b: Seq<u32>, bound: u32)
    requires
        a.to_multiset() == b.to_multiset(),
        forall|k: int| 0 <= k < a.len() ==> a[k] < bound,
    ensures
        forall|k: int| 0 <= k < b.len() ==> b[k] < bound,
{
    broadcast use vstd::seq_lib::group_to_multiset_ensures;

    assert forall|k: int| 0 <= k < b.len() implies b[k] < bound by {
        assert(b.contains(b[k]));
        assert(a.to_multiset().count(b[k]) > 0);
        assert(a.contains(b[k]));
        let idx = choose|idx: int| 0 <= idx < a.len() && a[idx] == b[k];
        assert(a[idx] < bound);
    }
}

/// A sequence that holds the same multiset as one whose values are all at
/// least a bound also has all its values at least it.
pub proof fn lemma_perm_at_least(a: Seq<u32>, b: Seq<u32>, bound: u32)
    requires
        a.to_multiset() == b.to_multiset(),
        forall|k: int| 0 <= k < a.len() ==> a[k] >= bound,
    ensures
        forall|k: int| 0 <= k < b.len() ==> b[k] >= bound,
{
    broadcast use vstd::seq_lib::group_to_multiset_ensures;

    assert forall|k: int| 0 <= k < b.len() implies b[k] >= bound by {
        assert(b.contains(b[k]));
        assert(a.to_multiset().count(b[k]) > 0);
        assert(a.contains(b[k]));
        let idx = choose|idx: int| 0 <= idx < a.len() && a[idx] == b[k];
        assert(a[idx] >= bound);
    }
}

/// A window is the concatenation of its two halves.
pub proof fn lemma_subrange_add(s: Seq<u32>, lo: int, mid: int, hi: int)
    requires
        0 <= lo <= mid <= hi <= s.len(),
    ensures
        s.subrange(lo, mid) + s.subrange(mid, hi) =~= s.subrange(lo, hi),
{
}

} // verus!
