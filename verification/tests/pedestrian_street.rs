use street_smarts_patterns::p100_pedestrian_street::{allocate_doors, is_pedestrian};
use street_smarts_patterns::p164_street_windows::is_walkable;

#[test]
fn one_door_per_building_across_whole_run() {
    // Two streets, each needing doors; building 0 borders both.
    let doors = allocate_doors(&vec![1, 1], &vec![vec![0], vec![0]]);
    assert_eq!(doors, vec![vec![0], vec![]]);
}

#[test]
fn streets_take_their_nearest_candidates_up_to_what_they_need() {
    let doors = allocate_doors(&vec![2, 3], &vec![vec![4, 1, 2], vec![1, 5, 2, 6]]);
    assert_eq!(doors, vec![vec![4, 1], vec![5, 2, 6]]);
}

#[test]
fn a_street_that_meets_its_target_gets_no_door() {
    let doors = allocate_doors(&vec![0, 1], &vec![vec![3], vec![3]]);
    assert_eq!(doors, vec![vec![], vec![3]]);
}

#[test]
fn no_streets_means_no_doors() {
    assert!(allocate_doors(&vec![], &vec![]).is_empty());
}

#[test]
fn a_building_listed_twice_takes_one_door() {
    let doors = allocate_doors(&vec![2], &vec![vec![7, 7, 8]]);
    assert_eq!(doors, vec![vec![7]]);
}

#[test]
fn pedestrian_and_walkable_classifications() {
    assert!(is_pedestrian(&Some("pedestrian".to_string())));
    assert!(!is_pedestrian(&Some("local".to_string())));
    assert!(!is_pedestrian(&None));
    assert!(is_walkable(&Some("local".to_string())));
    assert!(is_walkable(&Some("pedestrian".to_string())));
    assert!(!is_walkable(&Some("arterial".to_string())));
    assert!(!is_walkable(&Some("Local".to_string())));
    assert!(!is_walkable(&None));
}
