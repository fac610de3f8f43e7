use rsort::app_config::Config;
use rsort::{ArraySorter, SortAlgo};

const YELLOW: &str = "\u{1b}[33m";
const WHITE: &str = "\u{1b}[37m";
const RESET: &str = "\u{1b}[0m";

fn silent(values: Vec<u32>) -> ArraySorter {
    ArraySorter::new(values, SortAlgo::QuickSort, Config::new(true, 0))
}

#[test]
fn a_plain_frame_paints_every_bar_white() {
    let solver = silent(vec![2, 0]);
    let expected = format!(
        " 0 {}\u{2587}\u{2587}{}\r\n 1 {}{}\r\n",
        WHITE, RESET, WHITE, RESET
    );
    assert_eq!(solver.print_arr(), expected);
}

#[test]
fn a_swap_frame_paints_both_touched_bars_yellow() {
    let solver = silent(vec![1, 3, 2]);
    let expected = format!(
        " 0 {}\u{2587}{}\r\n 1 {}\u{2587}\u{2587}\u{2587}{}\r\n 2 {}\u{2587}\u{2587}{}\r\n",
        YELLOW, RESET, WHITE, RESET, YELLOW, RESET
    );
    assert_eq!(solver.print_swap(0, 2), expected);
}

#[test]
fn an_assign_frame_paints_one_touched_bar_yellow() {
    let solver = silent(vec![1, 2]);
    let expected = format!(
        " 0 {}\u{2587}{}\r\n 1 {}\u{2587}\u{2587}{}\r\n",
        WHITE, RESET, YELLOW, RESET
    );
    assert_eq!(solver.print_set(1), expected);
}

#[test]
fn indices_at_and_past_ten_render_in_full() {
    let solver = silent(vec![0; 11]);
    let frame = solver.print_arr();
    let lines: Vec<&str> = frame.split("\r\n").filter(|l| !l.is_empty()).collect();
    assert_eq!(lines.len(), 11);
    assert_eq!(lines[9], format!(" 9 {}{}", WHITE, RESET));
    assert_eq!(lines[10], format!(" 10 {}{}", WHITE, RESET));
}

#[test]
fn the_highlight_range_draws_its_frame_prefixes() {
    let mut solver = silent(vec![1, 1, 1, 1, 1]);
    solver.set_highlight_range(1, 3);
    assert_eq!(solver.get_range_prefix(0), " ");
    assert_eq!(solver.get_range_prefix(1), "\u{250c}");
    assert_eq!(solver.get_range_prefix(2), "\u{2502}");
    assert_eq!(solver.get_range_prefix(3), "\u{2514}");
    assert_eq!(solver.get_range_prefix(4), " ");
    solver.clear_highlight_range();
    assert_eq!(solver.get_range_prefix(1), " ");
}

#[test]
fn the_highlight_is_set_and_cleared_around_sub_range_work() {
    let mut solver = silent(vec![1, 1, 1]);
    assert_eq!(solver.current_highlight(), None);
    solver.set_highlight_range(0, 2);
    assert_eq!(solver.current_highlight(), Some((0, 2)));
    solver.clear_highlight_range();
    assert_eq!(solver.current_highlight(), None);
    let mut run = ArraySorter::new(vec![3, 1, 2], SortAlgo::InsertionSort, Config::new(true, 0));
    run.sort();
    assert_eq!(run.current_highlight(), None);
}

#[test]
fn a_silent_run_renders_nothing() {
    let mut solver = ArraySorter::new(vec![3, 1, 2], SortAlgo::BubbleSort, Config::new(true, 0));
    solver.sort();
    assert!(solver.frames().is_empty());
}

#[test]
fn a_run_renders_the_initial_frame_each_mutation_and_the_final_frame() {
    let mut solver = ArraySorter::new(vec![2, 1], SortAlgo::BubbleSort, Config::new(false, 0));
    solver.sort();
    // one opening frame, two frames for the single swap, one closing frame
    assert_eq!(solver.frames().len(), 4);
    assert_eq!(solver.frames()[0], silent(vec![2, 1]).print_arr());
    assert_eq!(solver.frames()[3], silent(vec![1, 2]).print_arr());
    // the swap renders once before and once after the exchange
    assert_eq!(solver.frames()[1], silent(vec![2, 1]).print_swap(1, 0));
    assert_eq!(solver.frames()[2], silent(vec![1, 2]).print_swap(1, 0));
}

#[test]
fn a_merge_run_renders_assign_frames_inside_the_highlight() {
    let mut solver = ArraySorter::new(vec![2, 1], SortAlgo::MergeSort, Config::new(false, 0));
    solver.sort();
    // opening frame, two assigns of the merge step, closing frame
    assert_eq!(solver.frames().len(), 4);
    let mut expected = silent(vec![1, 1]);
    expected.set_highlight_range(0, 1);
    assert_eq!(solver.frames()[1], expected.print_set(0));
}
