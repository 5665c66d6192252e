use street_smarts_patterns::p118_roof_garden::P118RoofGarden;
use street_smarts_patterns::p130_entrance_room::P130EntranceRoom;
use street_smarts_patterns::p131_the_flow_through_rooms::P131TheFlowThroughRooms;
use street_smarts_patterns::p164_street_windows::P164StreetWindows;
use street_smarts_patterns::block_grouping::BlockGrouping;
use street_smarts_patterns::p21_four_story_limit::P21FourStoryLimit;
use street_smarts_patterns::PatternOperator;

#[test]
fn operator_names_match_their_pattern_language_ids() {
    assert_eq!(P118RoofGarden.name(), "p118_roof_garden");
    assert_eq!(P130EntranceRoom.name(), "p130_entrance_room");
    assert_eq!(P131TheFlowThroughRooms.name(), "p131_the_flow_through_rooms");
    assert_eq!(P21FourStoryLimit.name(), "p21_four_story_limit");
    assert_eq!(P164StreetWindows.name(), "p164_street_windows");
    assert_eq!(BlockGrouping.name(), "block_grouping");
}

#[test]
fn descriptions_are_the_operators_own() {
    assert_eq!(
        P118RoofGarden.description(),
        "Overwrites the site's own tallest real buildings' sloped P117 roof with a flat, occupiable garden roof."
    );
    assert_eq!(
        P131TheFlowThroughRooms.description(),
        "Connect interior cells into a chain or loop -- courtyard buildings close for free, solid buildings get a passage when short and wide enough, per Pattern 132's cited length threshold."
    );
}

#[test]
fn sources_cite_the_pattern() {
    let s = P118RoofGarden.source();
    assert_eq!(s.id, "alexander_apl_p118");
    assert_eq!(s.display, "Alexander et al., A Pattern Language, Pattern 118 (Roof Garden)");
    assert_eq!(s.url.as_deref(), Some("https://patternlanguage.cc/Patterns/Roof-Garden-(118)"));
    let s = P130EntranceRoom.source();
    assert_eq!(s.id, "alexander_apl_130");
    assert!(s.display.starts_with("Alexander et al., A Pattern Language, Pattern 130 (Entrance Room) -- paraphrased;"));
    assert_eq!(s.url.as_deref(), Some("https://www.patternlanguage.com/apl/direct-130.htm"));
}
