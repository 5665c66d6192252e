use std::collections::HashSet;

use street_smarts_patterns::block_grouping::BlockGrouping;
use street_smarts_patterns::building_shape::BuildingShape;
use street_smarts_patterns::language_graph::{
    language, render_arrow_chain, render_language_doc, validate_order, OrderViolation,
};
use street_smarts_patterns::p100_pedestrian_street::P100PedestrianStreet;
use street_smarts_patterns::p102_family_of_entrances::P102FamilyOfEntrances;
use street_smarts_patterns::p107_wings_of_light::P107WingsOfLight;
use street_smarts_patterns::p108_connected_buildings::P108ConnectedBuildings;
use street_smarts_patterns::p110_main_entrance::P110MainEntrance;
use street_smarts_patterns::p116_cascade_of_roofs::P116CascadeOfRoofs;
use street_smarts_patterns::p117_sheltering_roof::P117ShelteringRoof;
use street_smarts_patterns::p118_roof_garden::P118RoofGarden;
use street_smarts_patterns::p119_arcades::P119Arcades;
use street_smarts_patterns::p124_activity_pockets::P124ActivityPockets;
use street_smarts_patterns::p126_something_roughly_in_the_middle::P126SomethingRoughlyInTheMiddle;
use street_smarts_patterns::p127_intimacy_gradient::P127IntimacyGradient;
use street_smarts_patterns::p129_common_areas_at_the_heart::P129CommonAreasAtTheHeart;
use street_smarts_patterns::p130_entrance_room::P130EntranceRoom;
use street_smarts_patterns::p131_the_flow_through_rooms::P131TheFlowThroughRooms;
use street_smarts_patterns::p133_staircase_as_a_stage::P133StaircaseAsAStage;
use street_smarts_patterns::p160_building_edge::P160BuildingEdge;
use street_smarts_patterns::p161_sunny_place::P161SunnyPlace;
use street_smarts_patterns::p164_street_windows::P164StreetWindows;
use street_smarts_patterns::p165_opening_to_the_street::P165OpeningToTheStreet;
use street_smarts_patterns::p192_windows_overlooking_life::P192WindowsOverlookingLife;
use street_smarts_patterns::p197_thick_walls::P197ThickWalls;
use street_smarts_patterns::p21_four_story_limit::P21FourStoryLimit;
use street_smarts_patterns::PatternOperator;

/// Every operator this crate holds.
fn operators() -> Vec<Box<dyn PatternOperator>> {
    vec![
        Box::new(BlockGrouping),
        Box::new(BuildingShape),
        Box::new(P21FourStoryLimit),
        Box::new(P100PedestrianStreet),
        Box::new(P102FamilyOfEntrances),
        Box::new(P107WingsOfLight),
        Box::new(P108ConnectedBuildings),
        Box::new(P110MainEntrance),
        Box::new(P116CascadeOfRoofs),
        Box::new(P117ShelteringRoof),
        Box::new(P118RoofGarden),
        Box::new(P119Arcades),
        Box::new(P124ActivityPockets),
        Box::new(P126SomethingRoughlyInTheMiddle),
        Box::new(P127IntimacyGradient),
        Box::new(P129CommonAreasAtTheHeart),
        Box::new(P130EntranceRoom),
        Box::new(P131TheFlowThroughRooms),
        Box::new(P133StaircaseAsAStage),
        Box::new(P160BuildingEdge),
        Box::new(P161SunnyPlace),
        Box::new(P164StreetWindows),
        Box::new(P165OpeningToTheStreet),
        Box::new(P192WindowsOverlookingLife),
        Box::new(P197ThickWalls),
    ]
}

/// Stages of the pattern language whose generators live outside this crate.
const STAGES_WITHOUT_AN_OPERATOR_HERE: [&str; 7] = [
    "p29_density_rings",
    "p37_house_cluster",
    "path_network",
    "p61_small_public_squares",
    "p95_building_complex",
    "p96_number_of_stories",
    "p221_natural_doors_and_windows",
];

#[test]
fn language_ids_match_real_operator_names() {
    let ops = operators();
    let real_names: HashSet<&str> = ops.iter().map(|op| op.name()).collect();
    for node in language() {
        if STAGES_WITHOUT_AN_OPERATOR_HERE.contains(&node.id) {
            continue;
        }
        assert!(
            real_names.contains(node.id),
            "LANGUAGE node {:?} doesn't match any real operator's name() -- real names are: {real_names:?}",
            node.id
        );
    }
}

#[test]
fn reordering_p108_after_p96_p107_is_caught() {
    let bad_order = &[
        "p29_density_rings",
        "p37_house_cluster",
        "path_network",
        "p61_small_public_squares",
        "p95_building_complex",
        "p96_number_of_stories",
        "p107_wings_of_light",
        "p108_connected_buildings", // moved to the end, wrong
    ];
    let result = validate_order(bad_order);
    assert!(result.is_err(), "expected reordering P108 after P96/P107 to be caught");
    let violations = result.unwrap_err();
    assert!(violations
        .iter()
        .any(|v| v.node == "p96_number_of_stories" && v.missing_requirement == "p108_connected_buildings"));
}

#[test]
fn arrow_chain_names_every_language_node_in_order() {
    let language = language();
    let chain = render_arrow_chain();
    let parts: Vec<&str> = chain.split(" \u{2192} ").collect();
    assert_eq!(parts.len(), language.len(), "arrow chain should have exactly one entry per LANGUAGE node, got: {chain}");
    for (part, node) in parts.iter().zip(language.iter()) {
        let expected = node.alexander_number.map(|n| format!("P{n}")).unwrap_or_else(|| node.id.to_string());
        assert_eq!(*part, expected, "arrow chain entry doesn't match LANGUAGE's own real order");
    }
}

#[test]
fn the_language_table_order_is_itself_legal() {
    let ids: Vec<&str> = language().iter().map(|n| n.id).collect();
    assert_eq!(validate_order(&ids), Ok(()));
}

#[test]
fn every_prefix_of_the_table_order_is_legal() {
    let ids: Vec<&str> = language().iter().map(|n| n.id).collect();
    for n in 0..=ids.len() {
        assert_eq!(validate_order(&ids[..n]), Ok(()));
    }
}

#[test]
fn an_empty_order_is_legal() {
    assert_eq!(validate_order(&[]), Ok(()));
}

#[test]
fn unknown_ids_are_ignored_but_count_as_run() {
    assert_eq!(validate_order(&["not_a_stage", "p37_house_cluster", "path_network", "also_not_a_stage"]), Ok(()));
    // An unknown id that happens to spell a requirement still counts as having run.
    assert_eq!(validate_order(&["p37_house_cluster", "path_network"]), Ok(()));
}

#[test]
fn every_missing_requirement_is_reported_in_order() {
    let result = validate_order(&["p95_building_complex", "p37_house_cluster", "p61_small_public_squares"]);
    assert_eq!(
        result,
        Err(vec![
            OrderViolation { node: "p95_building_complex", missing_requirement: "p37_house_cluster" },
            OrderViolation { node: "p95_building_complex", missing_requirement: "p29_density_rings" },
            OrderViolation { node: "p95_building_complex", missing_requirement: "p61_small_public_squares" },
        ])
    );
}

#[test]
fn a_repeated_stage_is_checked_each_time_it_runs() {
    let result = validate_order(&["path_network", "p37_house_cluster", "path_network"]);
    assert_eq!(
        result,
        Err(vec![OrderViolation { node: "path_network", missing_requirement: "p37_house_cluster" }])
    );
}

#[test]
fn the_arrow_chain_is_the_pattern_numbers_in_order() {
    assert_eq!(
        render_arrow_chain(),
        "P29 \u{2192} P37 \u{2192} P52 \u{2192} P61 \u{2192} P95 \u{2192} P21 \u{2192} P108 \u{2192} P96 \u{2192} P107 \u{2192} P117 \u{2192} P118 \u{2192} P124 \u{2192} P119 \u{2192} P127 \u{2192} P197 \u{2192} P116 \u{2192} P129 \u{2192} P130 \u{2192} P131 \u{2192} P133 \u{2192} P221 \u{2192} P160"
    );
}

#[test]
fn the_language_doc_has_one_numbered_entry_per_node() {
    let doc = render_language_doc();
    let language = language();
    assert!(doc.starts_with(
        "1. p29_density_rings [P29]\n   requires: (nothing -- runs first)\n   why: computes a real density FIELD"
    ));
    assert!(doc.contains(
        "5. p95_building_complex [P95]\n   requires: p37_house_cluster, p29_density_rings, p61_small_public_squares\n   why: "
    ));
    assert!(doc.contains(
        "7. p108_connected_buildings [P108]\n   requires: p95_building_complex\n   completes: p95_building_complex\n   why: "
    ));
    assert!(doc.contains("22. p160_building_edge [P160]\n"));
    assert_eq!(doc.matches("   why: ").count(), language.len());
    assert!(doc.ends_with("unlike P118/P119/P133 above\n"));
}
