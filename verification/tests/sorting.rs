use rsort::app_config::Config;
use rsort::{ArraySorter, SortAlgo};

fn run(algo: SortAlgo, values: Vec<u32>) -> ArraySorter {
    let mut solver = ArraySorter::new(values, algo, Config::new(true, 0));
    solver.sort();
    solver
}

fn is_sorted(solver: &ArraySorter) -> bool {
    let v = solver.values();
    for i in 1..v.len() {
        if v[i] < v[i - 1] {
            return false;
        }
    }
    true
}

#[test]
fn insertion_sort_should_work() {
    let solver = run(SortAlgo::InsertionSort, vec![5, 8, 2, 7, 1, 4, 3, 6]);
    assert!(is_sorted(&solver));
}

#[test]
fn selection_sort_should_work() {
    let solver = run(SortAlgo::SelectionSort, vec![5, 8, 2, 7, 1, 4, 3, 6]);
    assert!(is_sorted(&solver));
}

#[test]
fn bubble_sort_should_work() {
    let solver = run(SortAlgo::BubbleSort, vec![5, 8, 2, 7, 1, 4, 3, 6]);
    assert!(is_sorted(&solver));
}

#[test]
fn gnome_sort_should_work() {
    let solver = run(SortAlgo::GnomeSort, vec![5, 8, 2, 7, 1, 4, 3, 6]);
    assert!(is_sorted(&solver));
}

#[test]
fn comb_sort_should_work() {
    let solver = run(SortAlgo::CombSort, vec![5, 8, 2, 7, 1, 4, 3, 6]);
    assert!(is_sorted(&solver));
}

#[test]
fn merge_sort_should_work() {
    let solver = run(SortAlgo::MergeSort, vec![5, 8, 2, 7, 1, 4, 3, 6]);
    assert!(is_sorted(&solver));
}

#[test]
fn quick_sort_should_work() {
    let solver = run(SortAlgo::QuickSort, vec![5, 8, 2, 7, 1, 4, 3, 6]);
    assert!(is_sorted(&solver));
}

#[test]
fn every_algorithm_sorts_the_same_input_to_the_same_result() {
    for algo in SortAlgo::all_algos() {
        let solver = run(algo, vec![5, 8, 2, 7, 1, 4, 3, 6]);
        assert_eq!(solver.values(), &vec![1, 2, 3, 4, 5, 6, 7, 8]);
    }
}

#[test]
fn every_algorithm_keeps_duplicates() {
    for algo in SortAlgo::all_algos() {
        let solver = run(algo, vec![3, 1, 3, 0, 1, 3]);
        assert_eq!(solver.values(), &vec![0, 1, 1, 3, 3, 3]);
    }
}

#[test]
fn insertion_scenario_yields_ascending_run() {
    let solver = run(SortAlgo::InsertionSort, vec![5, 8, 2, 7, 1, 4, 3, 6]);
    assert_eq!(solver.values(), &vec![1, 2, 3, 4, 5, 6, 7, 8]);
}

#[test]
fn quick_scenario_two_elements_at_most_two_swaps() {
    let solver = run(SortAlgo::QuickSort, vec![2, 1]);
    assert_eq!(solver.values(), &vec![1, 2]);
    assert!(solver.total_swaps() <= 2);
    // the single partition places the pivot with one exchange
    assert_eq!(solver.total_swaps(), 1);
}

#[test]
fn selection_scenario_equal_values_swap_nothing() {
    let solver = run(SortAlgo::SelectionSort, vec![3, 3, 3]);
    assert_eq!(solver.values(), &vec![3, 3, 3]);
    assert_eq!(solver.total_swaps(), 0);
}

#[test]
fn empty_input_produces_zero_primitive_calls() {
    for algo in SortAlgo::all_algos() {
        let solver = run(algo, vec![]);
        assert_eq!(solver.values(), &Vec::<u32>::new());
        assert_eq!(solver.total_swaps(), 0);
    }
}

#[test]
fn single_element_produces_zero_primitive_calls() {
    for algo in SortAlgo::all_algos() {
        let solver = run(algo, vec![9]);
        assert_eq!(solver.values(), &vec![9]);
        assert_eq!(solver.total_swaps(), 0);
    }
}

#[test]
fn sorting_a_sorted_sequence_is_the_identity() {
    for algo in SortAlgo::all_algos() {
        let solver = run(algo, vec![1, 2, 2, 3, 9]);
        assert_eq!(solver.values(), &vec![1, 2, 2, 3, 9]);
    }
}

#[test]
fn repeated_runs_are_deterministic() {
    for algo in SortAlgo::all_algos() {
        let mut first = ArraySorter::new(vec![4, 2, 9, 2, 7, 0], algo, Config::new(false, 0));
        let mut second = ArraySorter::new(vec![4, 2, 9, 2, 7, 0], algo, Config::new(false, 0));
        first.sort();
        second.sort();
        assert_eq!(first.values(), second.values());
        assert_eq!(first.total_swaps(), second.total_swaps());
        assert_eq!(first.frames(), second.frames());
    }
}

#[test]
fn insertion_counts_one_swap_per_inversion() {
    let solver = run(SortAlgo::InsertionSort, vec![5, 8, 2, 7, 1, 4, 3, 6]);
    assert_eq!(solver.total_swaps(), 16);
}

#[test]
fn bubble_counts_one_swap_per_inversion() {
    let solver = run(SortAlgo::BubbleSort, vec![5, 8, 2, 7, 1, 4, 3, 6]);
    assert_eq!(solver.total_swaps(), 16);
}

#[test]
fn gnome_counts_one_swap_per_inversion() {
    let solver = run(SortAlgo::GnomeSort, vec![5, 8, 2, 7, 1, 4, 3, 6]);
    assert_eq!(solver.total_swaps(), 16);
}

#[test]
fn selection_on_a_sorted_input_issues_no_primitive_call() {
    let mut solver = ArraySorter::new(vec![1, 2, 2, 5], SortAlgo::SelectionSort, Config::new(false, 0));
    SortAlgo::selection_srot(&mut solver);
    assert_eq!(solver.values(), &vec![1, 2, 2, 5]);
    assert_eq!(solver.total_swaps(), 0);
    assert!(solver.frames().is_empty());
}

#[test]
fn selection_swaps_at_most_once_per_position() {
    let solver = run(SortAlgo::SelectionSort, vec![5, 8, 2, 7, 1, 4, 3, 6]);
    assert!(solver.total_swaps() <= 7);
}

#[test]
fn extreme_magnitudes_sort_like_any_others() {
    for algo in SortAlgo::all_algos() {
        let solver = run(algo, vec![u32::MAX, 0, u32::MAX - 1, 1]);
        assert_eq!(solver.values(), &vec![0, 1, u32::MAX - 1, u32::MAX]);
    }
}

#[test]
fn comb_gap_sequence_for_length_ten() {
    assert_eq!(SortAlgo::shrink_gap(10), 7);
    assert_eq!(SortAlgo::shrink_gap(7), 5);
    assert_eq!(SortAlgo::shrink_gap(5), 3);
    assert_eq!(SortAlgo::shrink_gap(3), 2);
    assert_eq!(SortAlgo::shrink_gap(2), 1);
    assert_eq!(SortAlgo::shrink_gap(1), 0);
}
