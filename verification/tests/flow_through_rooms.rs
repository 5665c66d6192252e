use street_smarts_patterns::p131_the_flow_through_rooms::{add_passage, courtyard_loop, link_chain};
use street_smarts_patterns::p133_staircase_as_a_stage::{add_stair, first_common_cell, is_stair_candidate};

#[test]
fn courtyard_bays_connect_in_a_wrapped_loop() {
    let links = courtyard_loop(4);
    assert_eq!(links, vec![vec![3, 1], vec![0, 2], vec![1, 3], vec![2, 0]]);
    for (k, l) in links.iter().enumerate() {
        assert_eq!(l.len(), 2, "each bay should connect to exactly two neighbors in a closed loop");
        for &other in l {
            assert!(links[other].contains(&k));
        }
    }
}

#[test]
fn two_bays_open_into_each_other_twice() {
    assert_eq!(courtyard_loop(2), vec![vec![1, 1], vec![0, 0]]);
}

#[test]
fn solid_bands_chain_in_depth_order() {
    let mut links: Vec<Vec<usize>> = vec![vec![], vec![], vec![]];
    // cell 2 is the shallowest, then 0, then 1
    link_chain(&mut links, &vec![2, 0, 1]);
    assert_eq!(links, vec![vec![2, 1], vec![0], vec![0]]);
}

#[test]
fn a_short_order_links_nothing() {
    let mut links: Vec<Vec<usize>> = vec![vec![]];
    link_chain(&mut links, &vec![0]);
    assert_eq!(links, vec![Vec::<usize>::new()]);
}

#[test]
fn a_passage_closes_the_chain_into_a_loop() {
    let mut links: Vec<Vec<usize>> = vec![vec![], vec![], vec![]];
    link_chain(&mut links, &vec![0, 1, 2]);
    let p = add_passage(&mut links, 0, 2);
    assert_eq!(p, 3);
    assert_eq!(links, vec![vec![1, 3], vec![0, 2], vec![1, 3], vec![0, 2]]);
}

#[test]
fn the_stair_connects_to_and_from_the_common_cell() {
    let mut links: Vec<Vec<usize>> = vec![vec![1], vec![0]];
    let stair = add_stair(&mut links, 1);
    assert_eq!(stair, 2);
    assert_eq!(links[1], vec![0, 2], "common cell should connect to the stair");
    assert_eq!(links[2], vec![1], "stair should connect back to the common cell");
}

#[test]
fn single_story_building_is_excluded() {
    assert!(!is_stair_candidate(Some(1), &vec![false, true]));
}

#[test]
fn no_floors_data_defaults_to_single_story_and_is_excluded() {
    assert!(!is_stair_candidate(None, &vec![true]));
}

#[test]
fn a_multi_story_building_with_a_common_area_gets_a_stair() {
    assert!(is_stair_candidate(Some(3), &vec![false, true, false]));
    assert!(!is_stair_candidate(Some(3), &vec![false, false]));
    assert_eq!(first_common_cell(&vec![false, true, true]), Some(1));
    assert_eq!(first_common_cell(&vec![false]), None);
}
