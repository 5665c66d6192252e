use street_smarts_patterns::p118_roof_garden::{tallest_building_ids, BuildingFloors, P118Params};

fn b(id: &str, floors: Option<u32>) -> BuildingFloors {
    BuildingFloors { id: id.to_string(), floors }
}

#[test]
fn only_the_two_tallest_are_chosen_by_default() {
    let bs = vec![b("SHORT", Some(1)), b("MED", Some(4)), b("TALL", Some(7))];
    let max = P118Params::defaults().max_gardens;
    assert_eq!(max, 2);
    assert_eq!(tallest_building_ids(&bs, max), vec!["TALL".to_string(), "MED".to_string()]);
}

#[test]
fn a_majority_floor_count_cluster_does_not_all_get_gardened() {
    let bs = vec![b("A", Some(2)), b("B", Some(2)), b("C", Some(6)), b("D", Some(2)), b("E", Some(7))];
    assert_eq!(tallest_building_ids(&bs, 2), vec!["E".to_string(), "C".to_string()]);
}

#[test]
fn ties_are_broken_deterministically_by_id() {
    let bs = vec![b("Z", Some(3)), b("B", Some(3)), b("M", Some(3))];
    assert_eq!(tallest_building_ids(&bs, 2), vec!["B".to_string(), "M".to_string()]);
}

#[test]
fn ids_compare_by_bytes() {
    let bs = vec![b("b", Some(3)), b("B", Some(3)), b("a10", Some(3)), b("a2", Some(3))];
    assert_eq!(
        tallest_building_ids(&bs, 4),
        vec!["B".to_string(), "a10".to_string(), "a2".to_string(), "b".to_string()]
    );
}

#[test]
fn a_missing_floor_count_counts_as_one() {
    let bs = vec![b("X", None), b("Y", Some(1)), b("W", Some(2))];
    assert_eq!(tallest_building_ids(&bs, 3), vec!["W".to_string(), "X".to_string(), "Y".to_string()]);
}

#[test]
fn fewer_buildings_than_gardens_gardens_them_all() {
    let bs = vec![b("ONLY", Some(5))];
    assert_eq!(tallest_building_ids(&bs, 6), vec!["ONLY".to_string()]);
    assert!(tallest_building_ids(&Vec::new(), 2).is_empty());
    assert!(tallest_building_ids(&bs, 0).is_empty());
}

#[test]
fn equal_ids_keep_their_list_order() {
    let bs = vec![b("SAME", Some(2)), b("SAME", Some(2)), b("OTHER", Some(1))];
    assert_eq!(tallest_building_ids(&bs, 2), vec!["SAME".to_string(), "SAME".to_string()]);
}
