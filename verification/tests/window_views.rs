use street_smarts_patterns::p192_windows_overlooking_life::{
    plan_window, relocation_edge, relocation_verdict, EdgeSurvey, WindowMove, WindowRefusal, WindowSurvey,
};

fn edge(fits: bool, overlooks_life: bool) -> EdgeSurvey {
    EdgeSurvey { fits, overlooks_life }
}

#[test]
fn a_failing_window_moves_to_the_first_edge_that_fits_and_overlooks_life() {
    let edges = vec![edge(true, false), edge(false, true), edge(true, true), edge(true, true)];
    assert_eq!(relocation_edge(0, &edges), Some(2));
    let w = WindowSurvey { ring_index: 0, overlooks_life_in_place: false, edges };
    assert_eq!(plan_window(&w), WindowMove::MoveTo(2));
}

#[test]
fn a_window_never_moves_onto_its_own_edge() {
    let edges = vec![edge(true, true), edge(true, false), edge(true, true)];
    assert_eq!(relocation_edge(0, &edges), Some(2));
    assert_eq!(relocation_edge(2, &edges), Some(0));
    let only_own = vec![edge(false, false), edge(true, true)];
    assert_eq!(relocation_edge(1, &only_own), None);
}

#[test]
fn a_too_short_edge_is_skipped_even_when_it_overlooks_life() {
    let edges = vec![edge(false, true), edge(false, true), edge(true, false)];
    assert_eq!(relocation_edge(2, &edges), None);
    let w = WindowSurvey { ring_index: 2, overlooks_life_in_place: false, edges };
    assert_eq!(plan_window(&w), WindowMove::NoBetterEdge);
}

#[test]
fn a_window_that_already_overlooks_life_stays() {
    let w = WindowSurvey {
        ring_index: 1,
        overlooks_life_in_place: true,
        edges: vec![edge(true, true), edge(true, true)],
    };
    assert_eq!(plan_window(&w), WindowMove::AlreadyOverlooksLife);
}

#[test]
fn nothing_to_check_is_refused() {
    assert_eq!(relocation_verdict(&Vec::new()), Err(WindowRefusal::NoWindowsToCheck));
}

#[test]
fn windows_that_all_overlook_life_already_are_refused_with_their_count() {
    let moves = vec![WindowMove::AlreadyOverlooksLife, WindowMove::AlreadyOverlooksLife];
    assert_eq!(relocation_verdict(&moves), Err(WindowRefusal::AllAlreadyOverlookLife(2)));
}

#[test]
fn a_window_with_no_better_edge_still_lets_the_operator_run() {
    let moves = vec![WindowMove::AlreadyOverlooksLife, WindowMove::NoBetterEdge];
    assert_eq!(relocation_verdict(&moves), Ok(()));
    let moved = vec![WindowMove::MoveTo(3)];
    assert_eq!(relocation_verdict(&moved), Ok(()));
}

use street_smarts_patterns::p165_opening_to_the_street::place_windows;

/// Slot spans that overlap their immediate neighbours only.
fn neighbour_overlaps(n: usize) -> Vec<Vec<bool>> {
    (0..n)
        .map(|i| (0..n).map(|j| i != j && (i + 1 == j || j + 1 == i)).collect())
        .collect()
}

#[test]
fn windows_go_into_the_first_clear_slots_without_overlapping() {
    let usable = vec![true; 6];
    assert_eq!(place_windows(3, &usable, &neighbour_overlaps(6)), vec![0, 2, 4]);
}

#[test]
fn slots_over_the_door_are_skipped() {
    let usable = vec![true, false, false, true, true, true];
    assert_eq!(place_windows(2, &usable, &neighbour_overlaps(6)), vec![0, 3]);
}

#[test]
fn a_crowded_wall_places_fewer_windows_than_needed() {
    let usable = vec![false, true, true, false];
    assert_eq!(place_windows(4, &usable, &neighbour_overlaps(4)), vec![1]);
    assert!(place_windows(0, &usable, &neighbour_overlaps(4)).is_empty());
    assert!(place_windows(3, &Vec::new(), &Vec::new()).is_empty());
}
