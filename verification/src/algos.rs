use vstd::prelude::*;

use crate::inversions::{
    inversions, lemma_adjacent_swap_inversions, lemma_sorted_inversions_zero,
};
use crate::order::{
    is_sorted, lemma_perm_at_least, lemma_perm_below, lemma_prefix_trans, lemma_swap_multiset,
    lemma_swap_multiset_range, lemma_subrange_add, sorted_range,
};
use crate::{add_capped, lemma_add_capped_assoc, ArraySorter, SortAlgo, Step};

verus! {

/// What every strategy guarantees about the values: the final sequence is a
/// sorted permutation of the initial one.
pub open spec fn sorts(pre: ArraySorter, post: ArraySorter) -> bool {
    &&& post@.to_multiset() == pre@.to_multiset()
    &&& post@.len() == pre@.len()
    &&& is_sorted(post@)
}

/// Instrumentation state no strategy ever changes: the bound algorithm and
/// the configuration.
pub open spec fn keeps_admin(pre: ArraySorter, post: ArraySorter) -> bool {
    &&& post.algo() == pre.algo()
    &&& post.cfg() == pre.cfg()
}

/// A run only appends to the frame log, and a silent run leaves it as it
/// was.
pub open spec fn keeps_frames(pre: ArraySorter, post: ArraySorter) -> bool {
    &&& pre.frame_log().is_prefix_of(post.frame_log())
    &&& pre.cfg().silent ==> post.frame_log() == pre.frame_log()
}

/// A run only appends to the record of primitive calls, never lowers the
/// step counter, and keeps the counter in step with the record.
pub open spec fn keeps_trace(pre: ArraySorter, post: ArraySorter) -> bool {
    &&& pre.steps().is_prefix_of(post.steps())
    &&& post.swaps() >= pre.swaps()
    &&& pre.wf_counter() ==> post.wf_counter()
}

/// Every primitive call issued between the two states was an exchange:
/// nothing was written with `set`.
pub open spec fn swaps_only_since(pre: ArraySorter, post: ArraySorter) -> bool {
    forall|k: int|
        pre.steps().len() <= k < post.steps().len() ==> (#[trigger] post.steps()[k]) is Swap
}

/// Every primitive call issued between the two states was a positional
/// write: nothing was exchanged with `swap`.
pub open spec fn assigns_only_since(pre: ArraySorter, post: ArraySorter) -> bool {
    forall|k: int|
        pre.steps().len() <= k < post.steps().len() ==> (#[trigger] post.steps()[k]) is Assign
}

/// Nothing observable happened: no value moved, no primitive call was
/// recorded or counted, no frame was rendered, the highlight is as it was.
pub open spec fn untouched(pre: ArraySorter, post: ArraySorter) -> bool {
    &&& post@ == pre@
    &&& post.swaps() == pre.swaps()
    &&& post.steps() == pre.steps()
    &&& post.frame_log() == pre.frame_log()
    &&& post.highlight() == pre.highlight()
}

/// Issuing only exchanges over two legs is issuing only exchanges over the
/// whole stretch, and likewise for writes.
pub proof fn lemma_only_since_trans(a: ArraySorter, b: ArraySorter, c: ArraySorter)
    requires
        a.steps().is_prefix_of(b.steps()),
        b.steps().is_prefix_of(c.steps()),
    ensures
        swaps_only_since(a, b) && swaps_only_since(b, c) ==> swaps_only_since(a, c),
        assigns_only_since(a, b) && assigns_only_since(b, c) ==> assigns_only_since(a, c),
{
    assert forall|k: int| a.steps().len() <= k < b.steps().len() implies c.steps()[k]
        == b.steps()[k] by {}
}

/// Where the highlight range stands once a strategy is done: strategies
/// that highlight sub-ranges clear it on their way out, the others never
/// touch it; on inputs of length zero or one none of them reaches it.
pub open spec fn highlight_after(
    algo: SortAlgo,
    pre: Option<(usize, usize)>,
    n: nat,
) -> Option<(usize, usize)> {
    if n <= 1 {
        pre
    } else {
        match algo {
            SortAlgo::InsertionSort => None,
            SortAlgo::MergeSort => None,
            SortAlgo::QuickSort => None,
            SortAlgo::SelectionSort => pre,
            SortAlgo::BubbleSort => pre,
            SortAlgo::GnomeSort => pre,
            SortAlgo::CombSort => pre,
        }
    }
}

impl SortAlgo {
    /// Runs this strategy on the sorter: the values end sorted, nothing but
    /// the two primitives ever moves them, and a sequence of length zero or
    /// one is left entirely alone. Merge sort writes with `set` alone; every
    /// other strategy exchanges with `swap` alone. The three adjacent-swap
    /// strategies issue exactly one exchange per out-of-order pair of the
    /// input; selection never exceeds one exchange per position, makes none
    /// on an already-sorted input, and quick makes at most one per element
    /// on inputs of up to two.
    pub fn sort(&self, arr: &mut ArraySorter)
        ensures
            sorts(*old(arr), *final(arr)),
            keeps_admin(*old(arr), *final(arr)),
            keeps_frames(*old(arr), *final(arr)),
            keeps_trace(*old(arr), *final(arr)),
            *self == SortAlgo::MergeSort ==> assigns_only_since(*old(arr), *final(arr)),
            *self != SortAlgo::MergeSort ==> swaps_only_since(*old(arr), *final(arr)),
            *self == SortAlgo::InsertionSort || *self == SortAlgo::BubbleSort || *self
                == SortAlgo::GnomeSort ==> final(arr).swaps() == add_capped(
                old(arr).swaps(),
                inversions(old(arr)@),
            ),
            *self == SortAlgo::SelectionSort && is_sorted(old(arr)@) ==> untouched(
                *old(arr),
                *final(arr),
            ),
            *self == SortAlgo::SelectionSort && old(arr)@.len() > 0 ==> final(arr).swaps()
                <= add_capped(old(arr).swaps(), (old(arr)@.len() - 1) as nat),
            *self == SortAlgo::QuickSort && old(arr)@.len() <= 2 ==> final(arr).swaps()
                <= add_capped(old(arr).swaps(), old(arr)@.len()),
            old(arr)@.len() <= 1 ==> untouched(*old(arr), *final(arr)),
            final(arr).highlight() == highlight_after(
                *self,
                old(arr).highlight(),
                old(arr)@.len(),
            ),
    {
        match self {
            SortAlgo::InsertionSort => SortAlgo::insertion_sort(arr),
            SortAlgo::SelectionSort => SortAlgo::selection_srot(arr),
            SortAlgo::BubbleSort => SortAlgo::bubble_sort(arr),
            SortAlgo::GnomeSort => SortAlgo::gnome_sort(arr),
            SortAlgo::CombSort => SortAlgo::comb_sort(arr),
            SortAlgo::MergeSort => SortAlgo::merge_sort(arr),
            SortAlgo::QuickSort => SortAlgo::quick_sort(arr),
        }
    }

    /// Insertion sort: each element in turn is moved left by adjacent
    /// exchanges while its left neighbor is strictly greater; the highlight
    /// wraps the prefix being worked on and is cleared after each round.
    pub fn insertion_sort(arr_sorter: &mut ArraySorter)
        ensures
            sorts(*old(arr_sorter), *final(arr_sorter)),
            keeps_admin(*old(arr_sorter), *final(arr_sorter)),
            keeps_frames(*old(arr_sorter), *final(arr_sorter)),
            keeps_trace(*old(arr_sorter), *final(arr_sorter)),
            swaps_only_since(*old(arr_sorter), *final(arr_sorter)),
            final(arr_sorter).swaps() == add_capped(
                old(arr_sorter).swaps(),
                inversions(old(arr_sorter)@),
            ),
            old(arr_sorter)@.len() <= 1 ==> untouched(*old(arr_sorter), *final(arr_sorter)),
            old(arr_sorter)@.len() > 1 ==> final(arr_sorter).highlight() == None::<(
                usize,
                usize,
            )>,
    {
        let arr_size = arr_sorter.size();
        let mut i: usize = 1;
        while i < arr_size
            invariant
                arr_size == arr_sorter@.len(),
                1 <= i,
                i <= arr_size || i == 1,
                sorted_range(arr_sorter@, 0, i as int),
                arr_sorter@.to_multiset() == old(arr_sorter)@.to_multiset(),
                arr_sorter@.len() == old(arr_sorter)@.len(),
                keeps_admin(*old(arr_sorter), *arr_sorter),
                keeps_frames(*old(arr_sorter), *arr_sorter),
                keeps_trace(*old(arr_sorter), *arr_sorter),
                swaps_only_since(*old(arr_sorter), *arr_sorter),
                inversions(arr_sorter@) <= inversions(old(arr_sorter)@),
                arr_sorter.swaps() == add_capped(
                    old(arr_sorter).swaps(),
                    (inversions(old(arr_sorter)@) - inversions(arr_sorter@)) as nat,
                ),
                i == 1 ==> arr_sorter.highlight() == old(arr_sorter).highlight(),
                i > 1 ==> arr_sorter.highlight() == None::<(usize, usize)>,
                old(arr_sorter)@.len() <= 1 ==> untouched(*old(arr_sorter), *arr_sorter),
            decreases arr_size - i,
        {
            let mut j: usize = i;
            arr_sorter.set_highlight_range(0, i);
            while j > 0 && arr_sorter.get(j - 1) > arr_sorter.get(j)
                invariant
                    arr_size == arr_sorter@.len(),
                    j <= i < arr_size,
                    sorted_range(arr_sorter@, 0, j as int),
                    forall|k: int, l: int|
                        j <= k < l <= i ==> #[trigger] arr_sorter@[k] <= #[trigger] arr_sorter@[l],
                    forall|k: int, l: int|
                        0 <= k < j && j < l <= i ==> #[trigger] arr_sorter@[k]
                            <= #[trigger] arr_sorter@[l],
                    arr_sorter@.to_multiset() == old(arr_sorter)@.to_multiset(),
                    arr_sorter@.len() == old(arr_sorter)@.len(),
                    keeps_admin(*old(arr_sorter), *arr_sorter),
                    keeps_frames(*old(arr_sorter), *arr_sorter),
                    keeps_trace(*old(arr_sorter), *arr_sorter),
                    swaps_only_since(*old(arr_sorter), *arr_sorter),
                    inversions(arr_sorter@) <= inversions(old(arr_sorter)@),
                    arr_sorter.swaps() == add_capped(
                        old(arr_sorter).swaps(),
                        (inversions(old(arr_sorter)@) - inversions(arr_sorter@)) as nat,
                    ),
                    arr_sorter.highlight() == Some((0usize, i)),
                decreases j,
            {
                let ghost pre = *arr_sorter;
                proof {
                    lemma_adjacent_swap_inversions(pre@, j - 1);
                    lemma_swap_multiset(pre@, j as int, j - 1);
                }
                arr_sorter.swap(j, j - 1);
                proof {
                    assert(arr_sorter@ =~= pre@.update(j - 1, pre@[j as int]).update(
                        j as int,
                        pre@[j - 1],
                    ));
                    lemma_prefix_trans(
                        old(arr_sorter).frame_log(),
                        pre.frame_log(),
                        arr_sorter.frame_log(),
                    );
                    lemma_prefix_trans(
                        old(arr_sorter).steps(),
                        pre.steps(),
                        arr_sorter.steps(),
                    );
                    lemma_add_capped_assoc(
                        old(arr_sorter).swaps(),
                        (inversions(old(arr_sorter)@) - inversions(pre@)) as nat,
                        1,
                    );
                    assert forall|k: int|
                        old(arr_sorter).steps().len() <= k < arr_sorter.steps().len() implies (
                    #[trigger] arr_sorter.steps()[k]) is Swap by {
                        if k < pre.steps().len() {
                            assert(arr_sorter.steps()[k] == pre.steps()[k]);
                        }
                    }
                }
                j = j - 1;
            }
            arr_sorter.clear_highlight_range();
            proof {
                assert forall|k: int, l: int| 0 <= k < l <= i implies #[trigger] arr_sorter@[k]
                    <= #[trigger] arr_sorter@[l] by {
                    if l < j {
                    } else if k >= j {
                    } else if l == j {
                        if k < j - 1 {
                            assert(arr_sorter@[k] <= arr_sorter@[j - 1]);
                        }
                    }
                }
                assert(sorted_range(arr_sorter@, 0, i as int + 1));
            }
            i = i + 1;
        }
        proof {
            assert(is_sorted(arr_sorter@));
            lemma_sorted_inversions_zero(arr_sorter@);
        }
    }

    /// Selection sort: for each position, scan the tail for the strictly
    /// smallest value, the first occurrence winning, and exchange only when
    /// a smaller value sits at another index.
    pub fn selection_srot(arr_sorter: &mut ArraySorter)
        ensures
            sorts(*old(arr_sorter), *final(arr_sorter)),
            keeps_admin(*old(arr_sorter), *final(arr_sorter)),
            keeps_frames(*old(arr_sorter), *final(arr_sorter)),
            keeps_trace(*old(arr_sorter), *final(arr_sorter)),
            swaps_only_since(*old(arr_sorter), *final(arr_sorter)),
            is_sorted(old(arr_sorter)@) ==> untouched(*old(arr_sorter), *final(arr_sorter)),
            old(arr_sorter)@.len() > 0 ==> final(arr_sorter).swaps() <= add_capped(
                old(arr_sorter).swaps(),
                (old(arr_sorter)@.len() - 1) as nat,
            ),
            final(arr_sorter).highlight() == old(arr_sorter).highlight(),
            old(arr_sorter)@.len() <= 1 ==> untouched(*old(arr_sorter), *final(arr_sorter)),
    {
        let arr_size = arr_sorter.size();
        let mut i: usize = 0;
        while i < arr_size
            invariant
                arr_size == arr_sorter@.len(),
                i <= arr_size,
                sorted_range(arr_sorter@, 0, i as int),
                forall|k: int, l: int|
                    0 <= k < i && i <= l < arr_size ==> #[trigger] arr_sorter@[k]
                        <= #[trigger] arr_sorter@[l],
                arr_sorter@.to_multiset() == old(arr_sorter)@.to_multiset(),
                arr_sorter@.len() == old(arr_sorter)@.len(),
                keeps_admin(*old(arr_sorter), *arr_sorter),
                keeps_frames(*old(arr_sorter), *arr_sorter),
                keeps_trace(*old(arr_sorter), *arr_sorter),
                swaps_only_since(*old(arr_sorter), *arr_sorter),
                is_sorted(old(arr_sorter)@) ==> untouched(*old(arr_sorter), *arr_sorter),
                arr_size > 0 ==> arr_sorter.swaps() <= add_capped(
                    old(arr_sorter).swaps(),
                    (if i < arr_size {
                        i as int
                    } else {
                        arr_size - 1
                    }) as nat,
                ),
                arr_sorter.highlight() == old(arr_sorter).highlight(),
                old(arr_sorter)@.len() <= 1 ==> untouched(*old(arr_sorter), *arr_sorter),
            decreases arr_size - i,
        {
            let mut save_j: usize = i;
            let mut j: usize = i + 1;
            while j < arr_size
                invariant
                    arr_size == arr_sorter@.len(),
                    i < arr_size,
                    i <= save_j < arr_size,
                    i < j <= arr_size || j == i + 1,
                    save_j < j,
                    is_sorted(old(arr_sorter)@) ==> arr_sorter@ == old(arr_sorter)@,
                    is_sorted(old(arr_sorter)@) ==> save_j == i,
                    forall|k: int|
                        i <= k < j ==> arr_sorter@[save_j as int] <= #[trigger] arr_sorter@[k],
                decreases arr_size - j,
            {
                if arr_sorter.get(j) < arr_sorter.get(save_j) {
                    save_j = j;
                }
                j = j + 1;
            }
            if i != save_j {
                let ghost pre = *arr_sorter;
                proof {
                    lemma_swap_multiset(pre@, i as int, save_j as int);
                }
                arr_sorter.swap(i, save_j);
                proof {
                    assert(arr_sorter@ =~= pre@.update(i as int, pre@[save_j as int]).update(
                        save_j as int,
                        pre@[i as int],
                    ));
                    lemma_prefix_trans(
                        old(arr_sorter).frame_log(),
                        pre.frame_log(),
                        arr_sorter.frame_log(),
                    );
                    lemma_prefix_trans(
                        old(arr_sorter).steps(),
                        pre.steps(),
                        arr_sorter.steps(),
                    );
                    if arr_size > 0 {
                        lemma_add_capped_assoc(old(arr_sorter).swaps(), i as nat, 1);
                    }
                    assert forall|k: int|
                        old(arr_sorter).steps().len() <= k < arr_sorter.steps().len() implies (
                    #[trigger] arr_sorter.steps()[k]) is Swap by {
                        if k < pre.steps().len() {
                            assert(arr_sorter.steps()[k] == pre.steps()[k]);
                        }
                    }
                }
            }
            i = i + 1;
        }
        proof {
            assert(is_sorted(arr_sorter@));
        }
    }

    /// Bubble sort: repeated full passes of adjacent compare-and-exchange on
    /// strictly greater neighbors, stopping after the first pass that
    /// exchanges nothing.
    pub fn bubble_sort(arr_sorter: &mut ArraySorter)
        ensures
            sorts(*old(arr_sorter), *final(arr_sorter)),
            keeps_admin(*old(arr_sorter), *final(arr_sorter)),
            keeps_frames(*old(arr_sorter), *final(arr_sorter)),
            keeps_trace(*old(arr_sorter), *final(arr_sorter)),
            swaps_only_since(*old(arr_sorter), *final(arr_sorter)),
            final(arr_sorter).swaps() == add_capped(
                old(arr_sorter).swaps(),
                inversions(old(arr_sorter)@),
            ),
            final(arr_sorter).highlight() == old(arr_sorter).highlight(),
            old(arr_sorter)@.len() <= 1 ==> untouched(*old(arr_sorter), *final(arr_sorter)),
    {
        let arr_size = arr_sorter.size();
        loop
            invariant
                arr_size == arr_sorter@.len(),
                arr_sorter@.to_multiset() == old(arr_sorter)@.to_multiset(),
                arr_sorter@.len() == old(arr_sorter)@.len(),
                keeps_admin(*old(arr_sorter), *arr_sorter),
                keeps_frames(*old(arr_sorter), *arr_sorter),
                keeps_trace(*old(arr_sorter), *arr_sorter),
                swaps_only_since(*old(arr_sorter), *arr_sorter),
                inversions(arr_sorter@) <= inversions(old(arr_sorter)@),
                arr_sorter.swaps() == add_capped(
                    old(arr_sorter).swaps(),
                    (inversions(old(arr_sorter)@) - inversions(arr_sorter@)) as nat,
                ),
                arr_sorter.highlight() == old(arr_sorter).highlight(),
                old(arr_sorter)@.len() <= 1 ==> untouched(*old(arr_sorter), *arr_sorter),
            ensures
                is_sorted(arr_sorter@),
                arr_sorter@.to_multiset() == old(arr_sorter)@.to_multiset(),
                arr_sorter@.len() == old(arr_sorter)@.len(),
                keeps_admin(*old(arr_sorter), *arr_sorter),
                keeps_frames(*old(arr_sorter), *arr_sorter),
                keeps_trace(*old(arr_sorter), *arr_sorter),
                swaps_only_since(*old(arr_sorter), *arr_sorter),
                inversions(arr_sorter@) <= inversions(old(arr_sorter)@),
                arr_sorter.swaps() == add_capped(
                    old(arr_sorter).swaps(),
                    (inversions(old(arr_sorter)@) - inversions(arr_sorter@)) as nat,
                ),
                arr_sorter.highlight() == old(arr_sorter).highlight(),
                old(arr_sorter)@.len() <= 1 ==> untouched(*old(arr_sorter), *arr_sorter),
            decreases inversions(arr_sorter@),
        {
            let ghost pass_start = arr_sorter@;
            let mut sorted_flag = true;
            let mut i: usize = 1;
            while i < arr_size
                invariant
                    arr_size == arr_sorter@.len(),
                    1 <= i,
                    i <= arr_size || i == 1,
                    arr_sorter@.to_multiset() == old(arr_sorter)@.to_multiset(),
                    arr_sorter@.len() == old(arr_sorter)@.len(),
                    keeps_admin(*old(arr_sorter), *arr_sorter),
                    keeps_frames(*old(arr_sorter), *arr_sorter),
                    keeps_trace(*old(arr_sorter), *arr_sorter),
                    swaps_only_since(*old(arr_sorter), *arr_sorter),
                    inversions(arr_sorter@) <= inversions(old(arr_sorter)@),
                    arr_sorter.swaps() == add_capped(
                        old(arr_sorter).swaps(),
                        (inversions(old(arr_sorter)@) - inversions(arr_sorter@)) as nat,
                    ),
                    arr_sorter.highlight() == old(arr_sorter).highlight(),
                    old(arr_sorter)@.len() <= 1 ==> untouched(*old(arr_sorter), *arr_sorter),
                    sorted_flag ==> arr_sorter@ == pass_start,
                    sorted_flag ==> sorted_range(arr_sorter@, 0, i as int),
                    inversions(arr_sorter@) <= inversions(pass_start),
                    !sorted_flag ==> inversions(arr_sorter@) < inversions(pass_start),
                decreases arr_size - i,
            {
                if arr_sorter.get(i - 1) > arr_sorter.get(i) {
                    let ghost pre = *arr_sorter;
                    proof {
                        lemma_adjacent_swap_inversions(pre@, i - 1);
                        lemma_swap_multiset(pre@, i as int, i - 1);
                    }
                    arr_sorter.swap(i, i - 1);
                    proof {
                        assert(arr_sorter@ =~= pre@.update(i - 1, pre@[i as int]).update(
                            i as int,
                            pre@[i - 1],
                        ));
                        lemma_prefix_trans(
                            old(arr_sorter).frame_log(),
                            pre.frame_log(),
                            arr_sorter.frame_log(),
                        );
                        lemma_prefix_trans(
                            old(arr_sorter).steps(),
                            pre.steps(),
                            arr_sorter.steps(),
                        );
                        lemma_add_capped_assoc(
                            old(arr_sorter).swaps(),
                            (inversions(old(arr_sorter)@) - inversions(pre@)) as nat,
                            1,
                        );
                        assert forall|k: int|
                            old(arr_sorter).steps().len() <= k < arr_sorter.steps().len() implies (
                        #[trigger] arr_sorter.steps()[k]) is Swap by {
                            if k < pre.steps().len() {
                                assert(arr_sorter.steps()[k] == pre.steps()[k]);
                            }
                        }
                    }
                    sorted_flag = false;
                }
                proof {
                    if sorted_flag {
                        assert forall|k: int, l: int| 0 <= k < l <= i implies
                            #[trigger] arr_sorter@[k] <= #[trigger] arr_sorter@[l] by {
                            if l == i && k < i - 1 {
                                assert(arr_sorter@[k] <= arr_sorter@[i - 1]);
                            }
                        }
                        assert(sorted_range(arr_sorter@, 0, i as int + 1));
                    }
                }
                i = i + 1;
            }
            if sorted_flag {
                proof {
                    assert(is_sorted(arr_sorter@));
                }
                break;
            }
        }
        proof {
            lemma_sorted_inversions_zero(arr_sorter@);
        }
    }

    /// The comb gap shrink: the floor of the gap divided by thirteen tenths.
    pub fn shrink_gap(gap: usize) -> (g: usize)
        ensures
            g as int == (gap as int * 10) / 13,
    {
        proof {
            assert((gap as int * 10) / 13 <= gap as int) by (nonlinear_arith);
            assert((gap as int * 10) / 13 >= 0) by (nonlinear_arith);
        }
        let wide: u128 = (gap as u128) * 10 / 13;
        wide as usize
    }

    /// Comb sort: the gap starts at the length and shrinks by a factor of
    /// thirteen tenths each round, floored and never below one; positions a
    /// gap apart are compare-exchanged, and the loop stops after a gap-one
    /// round that exchanges nothing.
    pub fn comb_sort(arr_sorter: &mut ArraySorter)
        ensures
            sorts(*old(arr_sorter), *final(arr_sorter)),
            keeps_admin(*old(arr_sorter), *final(arr_sorter)),
            keeps_frames(*old(arr_sorter), *final(arr_sorter)),
            keeps_trace(*old(arr_sorter), *final(arr_sorter)),
            swaps_only_since(*old(arr_sorter), *final(arr_sorter)),
            final(arr_sorter).highlight() == old(arr_sorter).highlight(),
            old(arr_sorter)@.len() <= 1 ==> untouched(*old(arr_sorter), *final(arr_sorter)),
    {
        let arr_size = arr_sorter.size();
        let mut gap: usize = arr_size;
        let mut sorted_flag = false;
        loop
            invariant_except_break
                !sorted_flag,
            invariant
                arr_size == arr_sorter@.len(),
                gap >= 1 || gap == arr_size,
                gap <= arr_size || arr_size <= 1,
                arr_sorter@.to_multiset() == old(arr_sorter)@.to_multiset(),
                arr_sorter@.len() == old(arr_sorter)@.len(),
                keeps_admin(*old(arr_sorter), *arr_sorter),
                keeps_frames(*old(arr_sorter), *arr_sorter),
                keeps_trace(*old(arr_sorter), *arr_sorter),
                swaps_only_since(*old(arr_sorter), *arr_sorter),
                arr_sorter.highlight() == old(arr_sorter).highlight(),
                old(arr_sorter)@.len() <= 1 ==> untouched(*old(arr_sorter), *arr_sorter),
            ensures
                is_sorted(arr_sorter@),
                arr_sorter@.to_multiset() == old(arr_sorter)@.to_multiset(),
                arr_sorter@.len() == old(arr_sorter)@.len(),
                keeps_admin(*old(arr_sorter), *arr_sorter),
                keeps_frames(*old(arr_sorter), *arr_sorter),
                keeps_trace(*old(arr_sorter), *arr_sorter),
                swaps_only_since(*old(arr_sorter), *arr_sorter),
                arr_sorter.highlight() == old(arr_sorter).highlight(),
                old(arr_sorter)@.len() <= 1 ==> untouched(*old(arr_sorter), *arr_sorter),
            decreases gap, inversions(arr_sorter@),
        {
            let ghost gap_entry = gap as int;
            let ghost round_start = arr_sorter@;
            gap = SortAlgo::shrink_gap(gap);
            if gap <= 1 {
                gap = 1;
                sorted_flag = true;
            }
            let mut i: usize = 0;
            while i + gap < arr_size
                invariant
                    arr_size == arr_sorter@.len(),
                    gap >= 1,
                    gap <= arr_size || arr_size <= 1,
                    i == 0 || i + gap <= arr_size,
                    arr_sorter@.to_multiset() == old(arr_sorter)@.to_multiset(),
                    arr_sorter@.len() == old(arr_sorter)@.len(),
                    keeps_admin(*old(arr_sorter), *arr_sorter),
                    keeps_frames(*old(arr_sorter), *arr_sorter),
                    keeps_trace(*old(arr_sorter), *arr_sorter),
                    swaps_only_since(*old(arr_sorter), *arr_sorter),
                    arr_sorter.highlight() == old(arr_sorter).highlight(),
                    old(arr_sorter)@.len() <= 1 ==> untouched(*old(arr_sorter), *arr_sorter),
                    sorted_flag ==> gap == 1,
                    sorted_flag ==> sorted_range(arr_sorter@, 0, i as int + 1),
                    gap == 1 ==> inversions(arr_sorter@) <= inversions(round_start),
                    !sorted_flag && gap == 1 ==> inversions(arr_sorter@) < inversions(
                        round_start,
                    ),
                decreases arr_size - i,
            {
                if arr_sorter.get(i) > arr_sorter.get(i + gap) {
                    let ghost pre = *arr_sorter;
                    proof {
                        lemma_swap_multiset(pre@, i as int, i + gap);
                        if gap == 1 {
                            lemma_adjacent_swap_inversions(pre@, i as int);
                        }
                    }
                    arr_sorter.swap(i, i + gap);
                    proof {
                        assert(arr_sorter@ =~= pre@.update(i as int, pre@[i + gap]).update(
                            i + gap,
                            pre@[i as int],
                        ));
                        lemma_prefix_trans(
                            old(arr_sorter).frame_log(),
                            pre.frame_log(),
                            arr_sorter.frame_log(),
                        );
                        lemma_prefix_trans(
                            old(arr_sorter).steps(),
                            pre.steps(),
                            arr_sorter.steps(),
                        );
                        assert forall|k: int|
                            old(arr_sorter).steps().len() <= k < arr_sorter.steps().len() implies (
                        #[trigger] arr_sorter.steps()[k]) is Swap by {
                            if k < pre.steps().len() {
                                assert(arr_sorter.steps()[k] == pre.steps()[k]);
                            }
                        }
                    }
                    sorted_flag = false;
                }
                proof {
                    if sorted_flag {
                        assert forall|k: int, l: int| 0 <= k < l <= i + 1 implies
                            #[trigger] arr_sorter@[k] <= #[trigger] arr_sorter@[l] by {
                            if l == i + 1 && k < i {
                                assert(arr_sorter@[k] <= arr_sorter@[i as int]);
                            }
                        }
                        assert(sorted_range(arr_sorter@, 0, i as int + 2));
                    }
                }
                i = i + 1;
            }
            if sorted_flag {
                proof {
                    assert(is_sorted(arr_sorter@));
                }
                break;
            }
            proof {
                if gap_entry >= 2 {
                    assert((gap_entry * 10) / 13 < gap_entry) by (nonlinear_arith)
                        requires
                            gap_entry >= 2,
                    ;
                    assert(gap < gap_entry);
                } else if gap_entry == 0 {
                    assert(arr_size == 0);
                    assert(false);
                }
            }
        }
    }

    /// Gnome sort: walk forward while the current value is no smaller than
    /// its left neighbor; on a strict inversion exchange backward and step
    /// back one.
    pub fn gnome_sort(arr_sorter: &mut ArraySorter)
        ensures
            sorts(*old(arr_sorter), *final(arr_sorter)),
            keeps_admin(*old(arr_sorter), *final(arr_sorter)),
            keeps_frames(*old(arr_sorter), *final(arr_sorter)),
            keeps_trace(*old(arr_sorter), *final(arr_sorter)),
            swaps_only_since(*old(arr_sorter), *final(arr_sorter)),
            final(arr_sorter).swaps() == add_capped(
                old(arr_sorter).swaps(),
                inversions(old(arr_sorter)@),
            ),
            final(arr_sorter).highlight() == old(arr_sorter).highlight(),
            old(arr_sorter)@.len() <= 1 ==> untouched(*old(arr_sorter), *final(arr_sorter)),
    {
        let arr_size = arr_sorter.size();
        let mut i: usize = 0;
        while i < arr_size
            invariant
                arr_size == arr_sorter@.len(),
                i <= arr_size,
                sorted_range(arr_sorter@, 0, i as int),
                arr_sorter@.to_multiset() == old(arr_sorter)@.to_multiset(),
                arr_sorter@.len() == old(arr_sorter)@.len(),
                keeps_admin(*old(arr_sorter), *arr_sorter),
                keeps_frames(*old(arr_sorter), *arr_sorter),
                keeps_trace(*old(arr_sorter), *arr_sorter),
                swaps_only_since(*old(arr_sorter), *arr_sorter),
                inversions(arr_sorter@) <= inversions(old(arr_sorter)@),
                arr_sorter.swaps() == add_capped(
                    old(arr_sorter).swaps(),
                    (inversions(old(arr_sorter)@) - inversions(arr_sorter@)) as nat,
                ),
                arr_sorter.highlight() == old(arr_sorter).highlight(),
                old(arr_sorter)@.len() <= 1 ==> untouched(*old(arr_sorter), *arr_sorter),
            decreases inversions(arr_sorter@), arr_size - i,
        {
            if i == 0 || arr_sorter.get(i) >= arr_sorter.get(i - 1) {
                i = i + 1;
            } else {
                let ghost pre = *arr_sorter;
                proof {
                    lemma_adjacent_swap_inversions(pre@, i - 1);
                    lemma_swap_multiset(pre@, i as int, i - 1);
                }
                arr_sorter.swap(i, i - 1);
                proof {
                    assert(arr_sorter@ =~= pre@.update(i - 1, pre@[i as int]).update(
                        i as int,
                        pre@[i - 1],
                    ));
                    lemma_prefix_trans(
                        old(arr_sorter).frame_log(),
                        pre.frame_log(),
                        arr_sorter.frame_log(),
                    );
                    lemma_prefix_trans(
                        old(arr_sorter).steps(),
                        pre.steps(),
                        arr_sorter.steps(),
                    );
                    lemma_add_capped_assoc(
                        old(arr_sorter).swaps(),
                        (inversions(old(arr_sorter)@) - inversions(pre@)) as nat,
                        1,
                    );
                    assert forall|k: int|
                        old(arr_sorter).steps().len() <= k < arr_sorter.steps().len() implies (
                    #[trigger] arr_sorter.steps()[k]) is Swap by {
                        if k < pre.steps().len() {
                            assert(arr_sorter.steps()[k] == pre.steps()[k]);
                        }
                    }
                }
                i = i - 1;
            }
        }
        proof {
            assert(is_sorted(arr_sorter@));
            lemma_sorted_inversions_zero(arr_sorter@);
        }
    }

    /// Merge sort: divide at the midpoint, sort both halves, then merge
    /// them from read-only snapshots taken before any write, ties favoring
    /// the right half; the highlight wraps the merged span during the merge.
    pub fn merge_sort(arr_sorter: &mut ArraySorter)
        ensures
            sorts(*old(arr_sorter), *final(arr_sorter)),
            keeps_admin(*old(arr_sorter), *final(arr_sorter)),
            keeps_frames(*old(arr_sorter), *final(arr_sorter)),
            keeps_trace(*old(arr_sorter), *final(arr_sorter)),
            assigns_only_since(*old(arr_sorter), *final(arr_sorter)),
            old(arr_sorter)@.len() <= 1 ==> untouched(*old(arr_sorter), *final(arr_sorter)),
            old(arr_sorter)@.len() > 1 ==> final(arr_sorter).highlight() == None::<(
                usize,
                usize,
            )>,
    {
        let arr_size = arr_sorter.size();
        if arr_size > 0 {
            Self::merge_sort_range(arr_sorter, 0, arr_size - 1);
            proof {
                assert(arr_sorter@.subrange(0, arr_size as int) =~= arr_sorter@);
                assert(old(arr_sorter)@.subrange(0, arr_size as int) =~= old(arr_sorter)@);
                assert(is_sorted(arr_sorter@));
            }
        }
    }

    fn merge_sort_range(arr_sorter: &mut ArraySorter, left: usize, right: usize)
        requires
            left <= right,
            right < old(arr_sorter)@.len(),
        ensures
            final(arr_sorter)@.len() == old(arr_sorter)@.len(),
            sorted_range(final(arr_sorter)@, left as int, right as int + 1),
            final(arr_sorter)@.subrange(left as int, right as int + 1).to_multiset() == old(
                arr_sorter,
            )@.subrange(left as int, right as int + 1).to_multiset(),
            forall|k: int|
                0 <= k < old(arr_sorter)@.len() && !(left <= k <= right)
                    ==> final(arr_sorter)@[k] == old(arr_sorter)@[k],
            keeps_admin(*old(arr_sorter), *final(arr_sorter)),
            keeps_frames(*old(arr_sorter), *final(arr_sorter)),
            keeps_trace(*old(arr_sorter), *final(arr_sorter)),
            assigns_only_since(*old(arr_sorter), *final(arr_sorter)),
            left < right ==> final(arr_sorter).highlight() == None::<(usize, usize)>,
            left == right ==> *final(arr_sorter) == *old(arr_sorter),
        decreases right - left,
    {
        if left < right {
            let mid = left + (right - left) / 2;
            let ghost s0 = *arr_sorter;
            Self::merge_sort_range(arr_sorter, left, mid);
            let ghost s1 = *arr_sorter;
            Self::merge_sort_range(arr_sorter, mid + 1, right);
            let ghost s2 = *arr_sorter;
            proof {
                assert(s2@.subrange(left as int, mid as int + 1) =~= s1@.subrange(
                    left as int,
                    mid as int + 1,
                ));
                assert(s1@.subrange(mid as int + 1, right as int + 1) =~= s0@.subrange(
                    mid as int + 1,
                    right as int + 1,
                ));
                lemma_prefix_trans(s0.frame_log(), s1.frame_log(), s2.frame_log());
                lemma_prefix_trans(s0.steps(), s1.steps(), s2.steps());
                lemma_only_since_trans(s0, s1, s2);
            }
            Self::merge_range(arr_sorter, left, mid, right);
            proof {
                let s3 = *arr_sorter;
                lemma_prefix_trans(s0.frame_log(), s2.frame_log(), s3.frame_log());
                lemma_prefix_trans(s0.steps(), s2.steps(), s3.steps());
                lemma_only_since_trans(s0, s2, s3);
                lemma_subrange_add(s2@, left as int, mid as int + 1, right as int + 1);
                lemma_subrange_add(s0@, left as int, mid as int + 1, right as int + 1);
                vstd::seq_lib::lemma_multiset_commutative(
                    s2@.subrange(left as int, mid as int + 1),
                    s2@.subrange(mid as int + 1, right as int + 1),
                );
                vstd::seq_lib::lemma_multiset_commutative(
                    s0@.subrange(left as int, mid as int + 1),
                    s0@.subrange(mid as int + 1, right as int + 1),
                );
                assert(s2@.subrange(left as int, right as int + 1).to_multiset() == s0@.subrange(
                    left as int,
                    right as int + 1,
                ).to_multiset());
            }
        }
    }

    fn merge_range(arr_sorter: &mut ArraySorter, left: usize, mid: usize, right: usize)
        requires
            left <= mid < right,
            right < old(arr_sorter)@.len(),
            sorted_range(old(arr_sorter)@, left as int, mid as int + 1),
            sorted_range(old(arr_sorter)@, mid as int + 1, right as int + 1),
        ensures
            final(arr_sorter)@.len() == old(arr_sorter)@.len(),
            sorted_range(final(arr_sorter)@, left as int, right as int + 1),
            final(arr_sorter)@.subrange(left as int, right as int + 1).to_multiset() == old(
                arr_sorter,
            )@.subrange(left as int, right as int + 1).to_multiset(),
            forall|k: int|
                0 <= k < old(arr_sorter)@.len() && !(left <= k <= right)
                    ==> final(arr_sorter)@[k] == old(arr_sorter)@[k],
            keeps_admin(*old(arr_sorter), *final(arr_sorter)),
            keeps_frames(*old(arr_sorter), *final(arr_sorter)),
            keeps_trace(*old(arr_sorter), *final(arr_sorter)),
            assigns_only_since(*old(arr_sorter), *final(arr_sorter)),
            final(arr_sorter).steps().len() == old(arr_sorter).steps().len() + (right + 1 - left),
            final(arr_sorter).highlight() == None::<(usize, usize)>,
    {
        let n = arr_sorter.size();
        let left_arr = copy_range(arr_sorter, left, mid + 1);
        let right_arr = copy_range(arr_sorter, mid + 1, right + 1);
        let left_len = left_arr.len();
        let right_len = right_arr.len();
        arr_sorter.set_highlight_range(left, right);
        let mut li: usize = 0;
        let mut ri: usize = 0;
        let mut i: usize = left;
        proof {
            assert(arr_sorter@.subrange(left as int, left as int) =~= Seq::<u32>::empty());
            assert(left_arr@.take(0) =~= Seq::<u32>::empty());
            assert(right_arr@.take(0) =~= Seq::<u32>::empty());
            broadcast use vstd::seq_lib::group_to_multiset_ensures;
            broadcast use vstd::multiset::group_multiset_axioms;

        }
        while i <= right
            invariant
                left <= i <= right + 1,
                left <= mid < right,
                n == arr_sorter@.len(),
                right < n,
                arr_sorter@.len() == old(arr_sorter)@.len(),
                left_arr@ == old(arr_sorter)@.subrange(left as int, mid as int + 1),
                right_arr@ == old(arr_sorter)@.subrange(mid as int + 1, right as int + 1),
                left_len == left_arr@.len(),
                right_len == right_arr@.len(),
                li <= left_len,
                ri <= right_len,
                li + ri == i - left,
                sorted_range(left_arr@, 0, left_len as int),
                sorted_range(right_arr@, 0, right_len as int),
                sorted_range(arr_sorter@, left as int, i as int),
                li < left_len ==> forall|k: int|
                    left <= k < i ==> #[trigger] arr_sorter@[k] <= left_arr@[li as int],
                ri < right_len ==> forall|k: int|
                    left <= k < i ==> #[trigger] arr_sorter@[k] <= right_arr@[ri as int],
                arr_sorter@.subrange(left as int, i as int).to_multiset() == left_arr@.take(
                    li as int,
                ).to_multiset().add(right_arr@.take(ri as int).to_multiset()),
                forall|k: int|
                    0 <= k < old(arr_sorter)@.len() && !(left <= k <= right)
                        ==> arr_sorter@[k] == old(arr_sorter)@[k],
                keeps_admin(*old(arr_sorter), *arr_sorter),
                keeps_frames(*old(arr_sorter), *arr_sorter),
                keeps_trace(*old(arr_sorter), *arr_sorter),
                assigns_only_since(*old(arr_sorter), *arr_sorter),
                arr_sorter.steps().len() == old(arr_sorter).steps().len() + (i - left),
                arr_sorter.highlight() == Some((left, right)),
            decreases right + 1 - i,
        {
            proof {
                broadcast use vstd::seq_lib::group_to_multiset_ensures;
                broadcast use vstd::multiset::group_multiset_axioms;

            }
            let take_left: bool = if li < left_len {
                if ri < right_len {
                    left_arr[li] < right_arr[ri]
                } else {
                    true
                }
            } else {
                false
            };
            let ghost pre = *arr_sorter;
            if take_left {
                let v = left_arr[li];
                arr_sorter.set(i, v);
                proof {
                    lemma_prefix_trans(
                        old(arr_sorter).frame_log(),
                        pre.frame_log(),
                        arr_sorter.frame_log(),
                    );
                    lemma_prefix_trans(
                        old(arr_sorter).steps(),
                        pre.steps(),
                        arr_sorter.steps(),
                    );
                    assert forall|k: int|
                        old(arr_sorter).steps().len() <= k < arr_sorter.steps().len() implies (
                    #[trigger] arr_sorter.steps()[k]) is Assign by {
                        if k < pre.steps().len() {
                            assert(arr_sorter.steps()[k] == pre.steps()[k]);
                        }
                    }
                    assert(arr_sorter@.subrange(left as int, i as int + 1) =~= pre@.subrange(
                        left as int,
                        i as int,
                    ).push(v));
                    assert(left_arr@.take(li as int + 1) =~= left_arr@.take(li as int).push(v));
                    assert(arr_sorter@.subrange(left as int, i as int + 1).to_multiset()
                        =~= left_arr@.take(li as int + 1).to_multiset().add(
                        right_arr@.take(ri as int).to_multiset(),
                    ));
                }
                li = li + 1;
            } else {
                proof {
                    assert(ri < right_len);
                }
                let v = right_arr[ri];
                arr_sorter.set(i, v);
                proof {
                    lemma_prefix_trans(
                        old(arr_sorter).frame_log(),
                        pre.frame_log(),
                        arr_sorter.frame_log(),
                    );
                    lemma_prefix_trans(
                        old(arr_sorter).steps(),
                        pre.steps(),
                        arr_sorter.steps(),
                    );
                    assert forall|k: int|
                        old(arr_sorter).steps().len() <= k < arr_sorter.steps().len() implies (
                    #[trigger] arr_sorter.steps()[k]) is Assign by {
                        if k < pre.steps().len() {
                            assert(arr_sorter.steps()[k] == pre.steps()[k]);
                        }
                    }
                    assert(arr_sorter@.subrange(left as int, i as int + 1) =~= pre@.subrange(
                        left as int,
                        i as int,
                    ).push(v));
                    assert(right_arr@.take(ri as int + 1) =~= right_arr@.take(ri as int).push(v));
                    assert(arr_sorter@.subrange(left as int, i as int + 1).to_multiset()
                        =~= left_arr@.take(li as int).to_multiset().add(
                        right_arr@.take(ri as int + 1).to_multiset(),
                    ));
                }
                ri = ri + 1;
            }
            i = i + 1;
        }
        arr_sorter.clear_highlight_range();
        proof {
            assert(li == left_len && ri == right_len);
            assert(left_arr@.take(li as int) =~= left_arr@);
            assert(right_arr@.take(ri as int) =~= right_arr@);
            assert(arr_sorter@.subrange(left as int, right as int + 1) =~= arr_sorter@.subrange(
                left as int,
                i as int,
            ));
            vstd::seq_lib::lemma_multiset_commutative(left_arr@, right_arr@);
            assert(left_arr@ + right_arr@ =~= old(arr_sorter)@.subrange(
                left as int,
                right as int + 1,
            ));
        }
    }

    /// Quick sort: Lomuto partition around the rightmost element on strict
    /// less-than, the highlight wrapping the span during partitioning, then
    /// recursion on the two sides of the placed pivot.
    pub fn quick_sort(arr_sorter: &mut ArraySorter)
        ensures
            sorts(*old(arr_sorter), *final(arr_sorter)),
            keeps_admin(*old(arr_sorter), *final(arr_sorter)),
            keeps_frames(*old(arr_sorter), *final(arr_sorter)),
            keeps_trace(*old(arr_sorter), *final(arr_sorter)),
            swaps_only_since(*old(arr_sorter), *final(arr_sorter)),
            old(arr_sorter)@.len() <= 2 ==> final(arr_sorter).swaps() <= add_capped(
                old(arr_sorter).swaps(),
                old(arr_sorter)@.len(),
            ),
            old(arr_sorter)@.len() <= 1 ==> untouched(*old(arr_sorter), *final(arr_sorter)),
            old(arr_sorter)@.len() > 1 ==> final(arr_sorter).highlight() == None::<(
                usize,
                usize,
            )>,
    {
        let arr_size = arr_sorter.size();
        if arr_size > 0 {
            Self::quick_sort_range(arr_sorter, 0, arr_size - 1);
            proof {
                assert(arr_sorter@.subrange(0, arr_size as int) =~= arr_sorter@);
                assert(old(arr_sorter)@.subrange(0, arr_size as int) =~= old(arr_sorter)@);
                assert(is_sorted(arr_sorter@));
            }
        }
    }

    fn quick_sort_range(arr_sorter: &mut ArraySorter, left: usize, right: usize)
        requires
            right < old(arr_sorter)@.len(),
            left <= right + 1,
        ensures
            final(arr_sorter)@.len() == old(arr_sorter)@.len(),
            sorted_range(final(arr_sorter)@, left as int, right as int + 1),
            final(arr_sorter)@.subrange(left as int, right as int + 1).to_multiset() == old(
                arr_sorter,
            )@.subrange(left as int, right as int + 1).to_multiset(),
            forall|k: int|
                0 <= k < old(arr_sorter)@.len() && !(left <= k <= right)
                    ==> final(arr_sorter)@[k] == old(arr_sorter)@[k],
            keeps_admin(*old(arr_sorter), *final(arr_sorter)),
            keeps_frames(*old(arr_sorter), *final(arr_sorter)),
            keeps_trace(*old(arr_sorter), *final(arr_sorter)),
            swaps_only_since(*old(arr_sorter), *final(arr_sorter)),
            right + 1 - left <= 2 ==> final(arr_sorter).swaps() <= add_capped(
                old(arr_sorter).swaps(),
                (right + 1 - left) as nat,
            ),
            left < right ==> final(arr_sorter).highlight() == None::<(usize, usize)>,
            left >= right ==> *final(arr_sorter) == *old(arr_sorter),
        decreases right + 1 - left,
    {
        if left < right {
            let n = arr_sorter.size();
            let ghost s0 = *arr_sorter;
            let p = Self::partition(arr_sorter, left, right);
            let ghost s1 = *arr_sorter;
            let ghost pivot = s0@[right as int];
            if p > 0 {
                Self::quick_sort_range(arr_sorter, left, p - 1);
            }
            let ghost s2 = *arr_sorter;
            proof {
                lemma_prefix_trans(s0.frame_log(), s1.frame_log(), s2.frame_log());
                lemma_prefix_trans(s0.steps(), s1.steps(), s2.steps());
                lemma_only_since_trans(s0, s1, s2);
                if p > 0 {
                    assert(s2@.subrange(left as int, p as int) =~= s2@.subrange(
                        left as int,
                        p as int - 1 + 1,
                    ));
                    lemma_perm_below(
                        s1@.subrange(left as int, p as int),
                        s2@.subrange(left as int, p as int),
                        pivot,
                    );
                }
                assert(forall|k: int|
                    left <= k < p ==> #[trigger] s2@[k] == s2@.subrange(left as int, p as int)[k
                        - left]);
                assert(forall|k: int| left <= k < p ==> #[trigger] s2@[k] < pivot);
                assert(s2@[p as int] == pivot);
                assert(forall|k: int| p < k <= right ==> #[trigger] s2@[k] >= pivot);
            }
            Self::quick_sort_range(arr_sorter, p + 1, right);
            let ghost s3 = *arr_sorter;
            proof {
                lemma_prefix_trans(s0.frame_log(), s2.frame_log(), s3.frame_log());
                lemma_prefix_trans(s0.steps(), s2.steps(), s3.steps());
                lemma_only_since_trans(s0, s2, s3);
                assert(s3@.subrange(p as int + 1, right as int + 1).to_multiset() == s2@.subrange(
                    p as int + 1,
                    right as int + 1,
                ).to_multiset());
                lemma_perm_at_least(
                    s2@.subrange(p as int + 1, right as int + 1),
                    s3@.subrange(p as int + 1, right as int + 1),
                    pivot,
                );
                assert(forall|k: int|
                    p < k <= right ==> #[trigger] s3@[k] == s3@.subrange(
                        p as int + 1,
                        right as int + 1,
                    )[k - p - 1]);
                assert(forall|k: int| left <= k < p ==> #[trigger] s3@[k] < pivot);
                assert(s3@[p as int] == pivot);
                assert(forall|k: int| p < k <= right ==> #[trigger] s3@[k] >= pivot);
                assert(sorted_range(s3@, left as int, p as int));
                assert(sorted_range(s3@, p as int + 1, right as int + 1));
                assert forall|k: int, l: int| left <= k < l <= right implies #[trigger] s3@[k]
                    <= #[trigger] s3@[l] by {
                    if k < p && l == p {
                    } else if k < p && l > p {
                        assert(s3@[k] < pivot);
                        assert(s3@[l] >= pivot);
                    } else if k == p && l > p {
                    }
                }
                assert(sorted_range(s3@, left as int, right as int + 1));
                // the window's multiset, assembled from the three parts each
                // step preserved
                lemma_subrange_add(s1@, left as int, p as int, right as int + 1);
                lemma_subrange_add(s1@, p as int, p as int + 1, right as int + 1);
                lemma_subrange_add(s2@, left as int, p as int, right as int + 1);
                lemma_subrange_add(s2@, p as int, p as int + 1, right as int + 1);
                lemma_subrange_add(s3@, left as int, p as int, right as int + 1);
                lemma_subrange_add(s3@, p as int, p as int + 1, right as int + 1);
                broadcast use vstd::seq_lib::lemma_multiset_commutative;

                assert(s2@.subrange(p as int, p as int + 1) =~= s1@.subrange(
                    p as int,
                    p as int + 1,
                ));
                assert(s2@.subrange(p as int + 1, right as int + 1) =~= s1@.subrange(
                    p as int + 1,
                    right as int + 1,
                ));
                if p > 0 {
                    assert(s2@.subrange(left as int, p as int).to_multiset() == s1@.subrange(
                        left as int,
                        p as int,
                    ).to_multiset());
                } else {
                    assert(s2@.subrange(left as int, p as int) =~= s1@.subrange(
                        left as int,
                        p as int,
                    ));
                }
                assert(s3@.subrange(left as int, p as int) =~= s2@.subrange(left as int, p as int));
                assert(s3@.subrange(p as int, p as int + 1) =~= s2@.subrange(
                    p as int,
                    p as int + 1,
                ));
                assert(s3@.subrange(left as int, right as int + 1).to_multiset() == s0@.subrange(
                    left as int,
                    right as int + 1,
                ).to_multiset());
            }
        }
    }

    fn partition(arr_sorter: &mut ArraySorter, left: usize, right: usize) -> (p: usize)
        requires
            left <= right,
            right < old(arr_sorter)@.len(),
        ensures
            left <= p <= right,
            final(arr_sorter)@.len() == old(arr_sorter)@.len(),
            final(arr_sorter)@[p as int] == old(arr_sorter)@[right as int],
            forall|k: int|
                left <= k < p ==> #[trigger] final(arr_sorter)@[k] < old(arr_sorter)@[right as int],
            forall|k: int|
                p < k <= right ==> #[trigger] final(arr_sorter)@[k] >= old(
                    arr_sorter,
                )@[right as int],
            final(arr_sorter)@.subrange(left as int, right as int + 1).to_multiset() == old(
                arr_sorter,
            )@.subrange(left as int, right as int + 1).to_multiset(),
            forall|k: int|
                0 <= k < old(arr_sorter)@.len() && !(left <= k <= right)
                    ==> final(arr_sorter)@[k] == old(arr_sorter)@[k],
            keeps_admin(*old(arr_sorter), *final(arr_sorter)),
            keeps_frames(*old(arr_sorter), *final(arr_sorter)),
            keeps_trace(*old(arr_sorter), *final(arr_sorter)),
            swaps_only_since(*old(arr_sorter), *final(arr_sorter)),
            final(arr_sorter).swaps() <= add_capped(
                old(arr_sorter).swaps(),
                (right + 1 - left) as nat,
            ),
            final(arr_sorter).highlight() == None::<(usize, usize)>,
    {
        let n = arr_sorter.size();
        let pivot = arr_sorter.get(right);
        let mut i: usize = left;
        arr_sorter.set_highlight_range(left, right);
        let mut j: usize = left;
        while j <= right
            invariant
                left <= i <= j,
                j <= right + 1,
                n == arr_sorter@.len(),
                right < n,
                arr_sorter@.len() == old(arr_sorter)@.len(),
                j > right ==> i <= right,
                arr_sorter@[right as int] == pivot,
                pivot == old(arr_sorter)@[right as int],
                forall|k: int| left <= k < i ==> #[trigger] arr_sorter@[k] < pivot,
                forall|k: int| i <= k < j ==> #[trigger] arr_sorter@[k] >= pivot,
                arr_sorter@.subrange(left as int, right as int + 1).to_multiset() == old(
                    arr_sorter,
                )@.subrange(left as int, right as int + 1).to_multiset(),
                forall|k: int|
                    0 <= k < old(arr_sorter)@.len() && !(left <= k <= right)
                        ==> arr_sorter@[k] == old(arr_sorter)@[k],
                keeps_admin(*old(arr_sorter), *arr_sorter),
                keeps_frames(*old(arr_sorter), *arr_sorter),
                keeps_trace(*old(arr_sorter), *arr_sorter),
                swaps_only_since(*old(arr_sorter), *arr_sorter),
                arr_sorter.swaps() <= add_capped(
                    old(arr_sorter).swaps(),
                    (if j <= right {
                        j - left
                    } else {
                        right - left
                    }) as nat,
                ),
                arr_sorter.highlight() == Some((left, right)),
            decreases right + 1 - j,
        {
            if arr_sorter.get(j) < pivot {
                let ghost pre = *arr_sorter;
                proof {
                    lemma_swap_multiset_range(
                        pre@,
                        left as int,
                        right as int + 1,
                        i as int,
                        j as int,
                    );
                }
                arr_sorter.swap(i, j);
                proof {
                    assert(arr_sorter@ =~= pre@.update(i as int, pre@[j as int]).update(
                        j as int,
                        pre@[i as int],
                    ));
                    assert(arr_sorter@.subrange(left as int, right as int + 1) =~= pre@.update(
                        i as int,
                        pre@[j as int],
                    ).update(j as int, pre@[i as int]).subrange(left as int, right as int + 1));
                    lemma_prefix_trans(
                        old(arr_sorter).frame_log(),
                        pre.frame_log(),
                        arr_sorter.frame_log(),
                    );
                    lemma_prefix_trans(
                        old(arr_sorter).steps(),
                        pre.steps(),
                        arr_sorter.steps(),
                    );
                    lemma_add_capped_assoc(old(arr_sorter).swaps(), (j - left) as nat, 1);
                    assert forall|k: int|
                        old(arr_sorter).steps().len() <= k < arr_sorter.steps().len() implies (
                    #[trigger] arr_sorter.steps()[k]) is Swap by {
                        if k < pre.steps().len() {
                            assert(arr_sorter.steps()[k] == pre.steps()[k]);
                        }
                    }
                }
                i = i + 1;
            }
            j = j + 1;
        }
        let ghost pre2 = *arr_sorter;
        proof {
            lemma_swap_multiset_range(
                pre2@,
                left as int,
                right as int + 1,
                i as int,
                right as int,
            );
        }
        arr_sorter.swap(i, right);
        proof {
            assert(arr_sorter@ =~= pre2@.update(i as int, pre2@[right as int]).update(
                right as int,
                pre2@[i as int],
            ));
            assert(arr_sorter@.subrange(left as int, right as int + 1) =~= pre2@.update(
                i as int,
                pre2@[right as int],
            ).update(right as int, pre2@[i as int]).subrange(left as int, right as int + 1));
            lemma_prefix_trans(
                old(arr_sorter).frame_log(),
                pre2.frame_log(),
                arr_sorter.frame_log(),
            );
            lemma_prefix_trans(
                old(arr_sorter).steps(),
                pre2.steps(),
                arr_sorter.steps(),
            );
            lemma_add_capped_assoc(old(arr_sorter).swaps(), (right - left) as nat, 1);
            assert forall|k: int|
                old(arr_sorter).steps().len() <= k < arr_sorter.steps().len() implies (
            #[trigger] arr_sorter.steps()[k]) is Swap by {
                if k < pre2.steps().len() {
                    assert(arr_sorter.steps()[k] == pre2.steps()[k]);
                }
            }
        }
        arr_sorter.clear_highlight_range();
        i
    }
}

/// Copies one index window of the values into a fresh vector, oldest index
/// first; the merge step reads from such snapshots while it overwrites the
/// window.
fn copy_range(arr_sorter: &ArraySorter, lo: usize, hi: usize) -> (r: Vec<u32>)
    requires
        lo <= hi,
        hi <= arr_sorter@.len(),
    ensures
        r@ == arr_sorter@.subrange(lo as int, hi as int),
{
    let mut r: Vec<u32> = Vec::new();
    proof {
        assert(r@ =~= arr_sorter@.subrange(lo as int, lo as int));
    }
    let mut k: usize = lo;
    while k < hi
        invariant
            lo <= k <= hi,
            hi <= arr_sorter@.len(),
            r@ == arr_sorter@.subrange(lo as int, k as int),
        decreases hi - k,
    {
        let v = arr_sorter.get(k);
        r.push(v);
        proof {
            assert(r@ =~= arr_sorter@.subrange(lo as int, k as int + 1));
        }
        k = k + 1;
    }
    r
}

} // verus!
