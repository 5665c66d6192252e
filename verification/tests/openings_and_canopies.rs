use street_smarts_patterns::opening::{ground_floor_outer, OpeningKind, OpeningPlacement};
use street_smarts_patterns::p119_arcades::{canopy_floors, CanopyKind};
use street_smarts_patterns::p129_common_areas_at_the_heart::P129Params;
use street_smarts_patterns::p130_entrance_room::P130Params;

fn o(kind: OpeningKind, on_hole: bool, floor: u32) -> OpeningPlacement {
    OpeningPlacement { kind, ring_index: 0, on_hole, floor }
}

#[test]
fn only_ground_floor_outer_doors_count() {
    let openings = vec![
        o(OpeningKind::Window, false, 0),
        o(OpeningKind::Door, true, 0),
        o(OpeningKind::Door, false, 1),
        o(OpeningKind::Door, false, 0),
        o(OpeningKind::Door, false, 0),
    ];
    assert_eq!(ground_floor_outer(&openings, OpeningKind::Door), vec![3, 4]);
    assert_eq!(ground_floor_outer(&openings, OpeningKind::Window), vec![0]);
    assert!(ground_floor_outer(&Vec::new(), OpeningKind::Door).is_empty());
}

#[test]
fn a_single_story_building_gets_only_a_ground_floor_arcade() {
    assert_eq!(canopy_floors(Some(1)), vec![(CanopyKind::Arcade, 0)]);
    assert_eq!(canopy_floors(None), vec![(CanopyKind::Arcade, 0)]);
    assert_eq!(canopy_floors(Some(0)), vec![(CanopyKind::Arcade, 0)]);
}

#[test]
fn a_multi_story_building_gets_an_arcade_plus_a_gallery_at_every_upper_floor() {
    let plan = canopy_floors(Some(3));
    assert_eq!(plan.len(), 3, "one canopy per real floor (0, 1, 2)");
    assert_eq!(plan, vec![(CanopyKind::Arcade, 0), (CanopyKind::Gallery, 1), (CanopyKind::Gallery, 2)]);
}

#[test]
fn parameterless_operators_have_a_single_default() {
    let _p129: P129Params = P129Params::defaults();
    let _p130: P130Params = P130Params::defaults();
}
