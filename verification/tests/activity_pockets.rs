use street_smarts_patterns::p124_activity_pockets::allocate_pockets;

#[test]
fn max_pockets_per_plaza_caps_carving() {
    let pockets = allocate_pockets(2, &vec![vec![0, 1, 2]], &vec![vec![true, true, true]]);
    assert_eq!(pockets, vec![vec![0, 1]], "should cap at max_pockets_per_plaza even with 3 real candidates");
}

#[test]
fn a_building_serves_only_the_first_plaza_that_takes_it() {
    let pockets = allocate_pockets(2, &vec![vec![4, 5], vec![5, 6]], &vec![vec![true, true], vec![true, true]]);
    assert_eq!(pockets, vec![vec![4, 5], vec![6]]);
}

#[test]
fn a_pocket_that_does_not_fit_is_skipped_without_using_up_the_cap() {
    let pockets = allocate_pockets(1, &vec![vec![3, 8, 9]], &vec![vec![false, true, true]]);
    assert_eq!(pockets, vec![vec![8]]);
}

#[test]
fn a_zero_cap_carves_nothing() {
    let pockets = allocate_pockets(0, &vec![vec![1]], &vec![vec![true]]);
    assert_eq!(pockets, vec![Vec::<usize>::new()]);
}

#[test]
fn a_building_skipped_at_one_plaza_can_serve_the_next() {
    let pockets = allocate_pockets(2, &vec![vec![2], vec![2]], &vec![vec![false], vec![true]]);
    assert_eq!(pockets, vec![vec![], vec![2]]);
}
