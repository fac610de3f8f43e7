use std::str::FromStr;

use rsort::{ParseAlgoError, SortAlgo};

#[test]
fn every_algorithm_has_its_canonical_name() {
    assert_eq!(SortAlgo::InsertionSort.get_algo_name(), "insertion");
    assert_eq!(SortAlgo::SelectionSort.get_algo_name(), "selection");
    assert_eq!(SortAlgo::BubbleSort.get_algo_name(), "bubble");
    assert_eq!(SortAlgo::GnomeSort.get_algo_name(), "gnome");
    assert_eq!(SortAlgo::CombSort.get_algo_name(), "comb");
    assert_eq!(SortAlgo::MergeSort.get_algo_name(), "merge");
    assert_eq!(SortAlgo::QuickSort.get_algo_name(), "quick");
}

#[test]
fn the_catalog_lists_seven_algorithms_in_order() {
    let algos = SortAlgo::all_algos();
    assert_eq!(algos.len(), 7);
    let names = SortAlgo::all_algos_str();
    assert_eq!(
        names,
        ["insertion", "selection", "bubble", "gnome", "comb", "merge", "quick"]
    );
    for (algo, name) in algos.iter().zip(names.iter()) {
        assert_eq!(algo.get_algo_name(), *name);
    }
}

#[test]
fn lookup_accepts_canonical_names() {
    assert_eq!(SortAlgo::from_name("quick"), Ok(SortAlgo::QuickSort));
    assert_eq!(SortAlgo::from_name("merge"), Ok(SortAlgo::MergeSort));
    assert_eq!(SortAlgo::from_name("insertion"), Ok(SortAlgo::InsertionSort));
}

#[test]
fn lookup_is_case_insensitive() {
    assert_eq!(SortAlgo::from_name("QUICK"), Ok(SortAlgo::QuickSort));
    assert_eq!(SortAlgo::from_name("QuIcK"), Ok(SortAlgo::QuickSort));
    assert_eq!(SortAlgo::from_name("Bubble"), Ok(SortAlgo::BubbleSort));
}

#[test]
fn lookup_rejects_unknown_names() {
    assert_eq!(SortAlgo::from_name("bogosort"), Err(ParseAlgoError {}));
    assert_eq!(SortAlgo::from_name(""), Err(ParseAlgoError {}));
    assert_eq!(SortAlgo::from_name("quick "), Err(ParseAlgoError {}));
}

#[test]
fn from_str_matches_the_lookup() {
    assert_eq!(SortAlgo::from_str("gnome"), Ok(SortAlgo::GnomeSort));
    assert!(SortAlgo::from_str("nope").is_err());
}

#[test]
fn the_parse_error_names_its_cause() {
    let err = ParseAlgoError {};
    assert_eq!(
        err.message(),
        "provided string is not a valid sorting algorithm. Use help command to see the list of supporting algos"
    );
}
