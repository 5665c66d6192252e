//! The pattern-language graph, as data: which generator stages must
//! already have run before each stage, checked by [`validate_order`], plus
//! the two generated, always-in-sync renderings of that ordering
//! ([`render_language_doc`] and [`render_arrow_chain`]).
//!
//! A node lists only `requires` (the stages that must already have run)
//! and a documentation-only `completes` note. [`validate_order`] checks
//! that a given order is legal: every requirement of a node is satisfied
//! by the time that node runs.

use vstd::prelude::*;

use crate::text::{decimal, joined, push_decimal, push_joined, str_eq, str_views};
use vstd::string::StringExecFns;

verus! {

/// Id of the `p29_density_rings` stage.
pub const P29_DENSITY_RINGS: &'static str = "p29_density_rings";

/// Why `p29_density_rings` runs where it does.
pub const WHY_P29_DENSITY_RINGS: &'static str = "computes a real density FIELD over the raw site parcel's own polygon -- Alexander's own true canonical position (29 < 37), needs nothing but the raw parcel every pipeline already starts with. See PATTERN_ORDERING_AUDIT.md for the real bug this closes (this used to run AFTER p37_house_cluster, tagging its blocks directly, purely because the old schema had nowhere else to attach an undivided-land value)";

/// Id of the `p37_house_cluster` stage.
pub const P37_HOUSE_CLUSTER: &'static str = "p37_house_cluster";

/// Why `p37_house_cluster` runs where it does.
pub const WHY_P37_HOUSE_CLUSTER: &'static str = "carves the raw parcel into human-scaled blocks; every later stage operates on P37's BLOCK_n parcels, not the raw site. Samples p29_density_rings's own field (if present) at each new block's centroid to set density_tier/target_stories directly -- not a hard requirement (works fine, just untagged, if P29 didn't run), so not listed as a `requires` entry";

/// Id of the `path_network` stage.
pub const PATH_NETWORK: &'static str = "path_network";

/// Why `path_network` runs where it does.
pub const WHY_PATH_NETWORK: &'static str = "connects P37's blocks to each other; needs real BLOCK_n parcels to route between";

/// Id of the `p61_small_public_squares` stage.
pub const P61_SMALL_PUBLIC_SQUARES: &'static str = "p61_small_public_squares";

/// Why `p61_small_public_squares` runs where it does.
pub const WHY_P61_SMALL_PUBLIC_SQUARES: &'static str = "seeds a site-wide budget of public squares across P37's blocks, before P95 builds pads around whatever land is left";

/// Id of the `p95_building_complex` stage.
pub const P95_BUILDING_COMPLEX: &'static str = "p95_building_complex";

/// Why `p95_building_complex` runs where it does.
pub const WHY_P95_BUILDING_COMPLEX: &'static str = "builds pads around whatever P37/P61 left on each block; each pad inherits its block's P29 density tier";

/// Id of the `p21_four_story_limit` stage.
pub const P21_FOUR_STORY_LIMIT: &'static str = "p21_four_story_limit";

/// Why `p21_four_story_limit` runs where it does.
pub const WHY_P21_FOUR_STORY_LIMIT: &'static str = "caps every pad's field-inherited target at the ordinary ceiling -- a pure per-pad read that needs nothing from p108_connected_buildings, so it runs right after p95_building_complex, before P108 merges any pads (PATTERN_ORDERING_AUDIT.md §4.2, splitting this half out of what used to be a single p96_number_of_stories pass)";

/// Id of the `p108_connected_buildings` stage.
pub const P108_CONNECTED_BUILDINGS: &'static str = "p108_connected_buildings";

/// Why `p108_connected_buildings` runs where it does.
pub const WHY_P108_CONNECTED_BUILDINGS: &'static str = "merges P95 pads separated only by a construction joint into one footprint, before P96/P107 read pad geometry -- they'd see stale, about-to-be-merged boundaries otherwise";

/// Id of the `p96_number_of_stories` stage.
pub const P96_NUMBER_OF_STORIES: &'static str = "p96_number_of_stories";

/// Why `p96_number_of_stories` runs where it does.
pub const WHY_P96_NUMBER_OF_STORIES: &'static str = "picks the very few pads that get to exceed P21's ordinary cap, \"placed with great care... widely spaced\" -- genuinely needs P108's final merged footprint to rank and space them (PATTERN_ORDERING_AUDIT.md §4.2), unlike P21's own ordinary-cap half above. Doesn't strictly require p21_four_story_limit to have run (falls back to its own default_target_stories the same way it always has if P21 didn't), so not listed as a requires entry";

/// Id of the `p107_wings_of_light` stage.
pub const P107_WINGS_OF_LIGHT: &'static str = "p107_wings_of_light";

/// Why `p107_wings_of_light` runs where it does.
pub const WHY_P107_WINGS_OF_LIGHT: &'static str = "shapes every pad for daylight depth using P96's story count for real height; needs P108's merged footprints and P96's story assignment";

/// Id of the `p117_sheltering_roof` stage.
pub const P117_SHELTERING_ROOF: &'static str = "p117_sheltering_roof";

/// Why `p117_sheltering_roof` runs where it does.
pub const WHY_P117_SHELTERING_ROOF: &'static str = "assigns every real P107/P96 building with a real height_m a real shed roof sloped to true north; also closes P162 North Face's own specifically-north claim by the same geometry (P162 has no separate generator of its own to list here) -- needs real height_m, which P107 already guarantees (via P96's story count or its own assumed_height_m fallback). No real dependency on P124/P127/P197 either direction (PATTERN_ORDERING_AUDIT.md §4.3/§4.4: a free reorder) -- placed here to match Alexander's own ascending numbering (117 < 124) at zero cost";

/// Id of the `p118_roof_garden` stage.
pub const P118_ROOF_GARDEN: &'static str = "p118_roof_garden";

/// Why `p118_roof_garden` runs where it does.
pub const WHY_P118_ROOF_GARDEN: &'static str = "overwrites P117's sloped shed roof with a flat, occupiable one on the site's tallest buildings, ranked by real Building.floors -- P107 derives floors itself now (PATTERN_ORDERING_AUDIT.md §4.7), transitively guaranteed the moment p117_sheltering_roof (which itself requires p107_wings_of_light) has run, so this no longer needs p221_natural_doors_and_windows -- placed right after P117 to match Alexander's own ascending numbering (117 < 118) at zero real cost";

/// Id of the `p124_activity_pockets` stage.
pub const P124_ACTIVITY_POCKETS: &'static str = "p124_activity_pockets";

/// Why `p124_activity_pockets` runs where it does.
pub const WHY_P124_ACTIVITY_POCKETS: &'static str = "carves a real pocket from buildings bordering a real Plaza; needs P107's real final footprints and P61's real Plazas, and must run before P127/P197/P119/P221 read the final footprint";

/// Id of the `p119_arcades` stage.
pub const P119_ARCADES: &'static str = "p119_arcades";

/// Why `p119_arcades` runs where it does.
pub const WHY_P119_ARCADES: &'static str = "places a real ground-floor arcade (P119) plus a gallery at every real upper story (P166) on the building's street/open-space-facing wall; needs the FINAL footprint (whatever P124 left it as) and real Building.floors, transitively guaranteed via p107_wings_of_light -- no longer needs p221_natural_doors_and_windows (PATTERN_ORDERING_AUDIT.md §4.7). Doesn't strictly REQUIRE p124_activity_pockets to have run -- same real reason p197_thick_walls doesn't, see that node's own why: P124 is a real but skippable step (currently a no-op on the real eastside-baseline fixture), just needs to run after it if it did, which pipeline.rs's own real call order already guarantees";

/// Id of the `p127_intimacy_gradient` stage.
pub const P127_INTIMACY_GRADIENT: &'static str = "p127_intimacy_gradient";

/// Why `p127_intimacy_gradient` runs where it does.
pub const WHY_P127_INTIMACY_GRADIENT: &'static str = "partitions each P107 building's ground floor into a depth-ordered cell sequence; needs real building footprints. No real dependency on P197 either direction (PATTERN_ORDERING_AUDIT.md §4.4: a free reorder) -- placed here to match Alexander's own ascending numbering (127 < 197) at zero cost";

/// Id of the `p197_thick_walls` stage.
pub const P197_THICK_WALLS: &'static str = "p197_thick_walls";

/// Why `p197_thick_walls` runs where it does.
pub const WHY_P197_THICK_WALLS: &'static str = "assigns every real P107/P124 building a real wall_thickness_m, capped relative to its own footprint; every downstream stage clones-and-mutates from here, so the field survives untouched. Doesn't strictly REQUIRE p124_activity_pockets to have run (P124 is a real but skippable step, not every fixture has a building close enough to a Plaza to qualify) -- just needs to run after it if it did, which pipeline.rs's own real call order already guarantees";

/// Id of the `p116_cascade_of_roofs` stage.
pub const P116_CASCADE_OF_ROOFS: &'static str = "p116_cascade_of_roofs";

/// Why `p116_cascade_of_roofs` runs where it does.
pub const WHY_P116_CASCADE_OF_ROOFS: &'static str = "partitions each P117 whole-building roof into per-cell RoofSegments whose ridge height cascades with P127's own real depth gradient; needs both P117's real roof (possibly P118-flattened by now) and P127's real interior_cells to exist first";

/// Id of the `p129_common_areas_at_the_heart` stage.
pub const P129_COMMON_AREAS_AT_THE_HEART: &'static str = "p129_common_areas_at_the_heart";

/// Why `p129_common_areas_at_the_heart` runs where it does.
pub const WHY_P129_COMMON_AREAS_AT_THE_HEART: &'static str = "marks the P127 cell nearest the plan's center of gravity; needs P127's cells. No real dependency on P130 either direction (PATTERN_ORDERING_AUDIT.md §4.6 -- P130 never changes cell geometry or count) -- placed here to match BOTH Alexander's own ascending numbering (129 < 130) AND his own cited textual sequence (127 -> 128 -> 129 -> 130 -> 131...) at zero cost";

/// Id of the `p130_entrance_room` stage.
pub const P130_ENTRANCE_ROOM: &'static str = "p130_entrance_room";

/// Why `p130_entrance_room` runs where it does.
pub const WHY_P130_ENTRANCE_ROOM: &'static str = "labels the P127 cell at depth 0.0 as the entrance -- a label only, needs P127's cells to exist";

/// Id of the `p131_the_flow_through_rooms` stage.
pub const P131_THE_FLOW_THROUGH_ROOMS: &'static str = "p131_the_flow_through_rooms";

/// Why `p131_the_flow_through_rooms` runs where it does.
pub const WHY_P131_THE_FLOW_THROUGH_ROOMS: &'static str = "connects P127's cells into a chain or loop; needs P127's cells to connect";

/// Id of the `p133_staircase_as_a_stage` stage.
pub const P133_STAIRCASE_AS_A_STAGE: &'static str = "p133_staircase_as_a_stage";

/// Why `p133_staircase_as_a_stage` runs where it does.
pub const WHY_P133_STAIRCASE_AS_A_STAGE: &'static str = "carves a stair core from the common-area cell of multi-story buildings; needs P129/P131's cell structure to carve from and real Building.floors, transitively guaranteed via p107_wings_of_light -- no longer needs p221_natural_doors_and_windows (PATTERN_ORDERING_AUDIT.md §4.7), restoring Alexander's own exact canonical position (131 < 133)";

/// Id of the `p221_natural_doors_and_windows` stage.
pub const P221_NATURAL_DOORS_AND_WINDOWS: &'static str = "p221_natural_doors_and_windows";

/// Why `p221_natural_doors_and_windows` runs where it does.
pub const WHY_P221_NATURAL_DOORS_AND_WINDOWS: &'static str = "places real window/door openings using P107's building geometry; reads (not writes) the real Building.floors P107 already derived, for its own per-floor window-shrinking rule";

/// Id of the `p160_building_edge` stage.
pub const P160_BUILDING_EDGE: &'static str = "p160_building_edge";

/// Why `p160_building_edge` runs where it does.
pub const WHY_P160_BUILDING_EDGE: &'static str = "places a real wall niche flanking every real door P221 already placed, on the same wall edge; needs P221's real door Opening data to flank -- a genuine, non-free dependency (PATTERN_ORDERING_AUDIT.md §4.8), unlike P118/P119/P133 above";


/// One node in the pattern language. `id` matches the name the stage's
/// operator reports for itself.
#[derive(Debug, Clone)]
pub struct PatternNode {
    pub id: &'static str,
    pub alexander_number: Option<u32>,
    /// Other node ids that must already have run before this one.
    pub requires: Vec<&'static str>,
    /// Other node ids this one is a component of / extends --
    /// documentation only, not checked by `validate_order`.
    pub completes: Vec<&'static str>,
    /// One-line "why here".
    pub why: &'static str,
}

/// What a [`PatternNode`] says, as mathematical values.
pub struct NodeView {
    pub id: Seq<char>,
    pub alexander_number: Option<u32>,
    pub requires: Seq<Seq<char>>,
    pub completes: Seq<Seq<char>>,
    pub why: Seq<char>,
}

impl View for PatternNode {
    type V = NodeView;

    open spec fn view(&self) -> NodeView {
        NodeView {
            id: self.id@,
            alexander_number: self.alexander_number,
            requires: str_views(self.requires@),
            completes: str_views(self.completes@),
            why: self.why@,
        }
    }
}

/// The views of a sequence of nodes.
pub open spec fn node_views(nodes: Seq<PatternNode>) -> Seq<NodeView> {
    nodes.map_values(|n: PatternNode| n@)
}

/// The ids of a sequence of node views, in order.
pub open spec fn node_ids(nodes: Seq<NodeView>) -> Seq<Seq<char>> {
    nodes.map_values(|n: NodeView| n.id)
}

/// The pattern language: the stage sequence the corrected pipeline runs,
/// one node per stage, in that order.
pub open spec fn language_view() -> Seq<NodeView> {
    seq![
        NodeView { id: P29_DENSITY_RINGS@, alexander_number: Some(29u32), requires: str_views(seq![]), completes: str_views(seq![]), why: WHY_P29_DENSITY_RINGS@ },
        NodeView { id: P37_HOUSE_CLUSTER@, alexander_number: Some(37u32), requires: str_views(seq![]), completes: str_views(seq![]), why: WHY_P37_HOUSE_CLUSTER@ },
        NodeView { id: PATH_NETWORK@, alexander_number: Some(52u32), requires: str_views(seq![P37_HOUSE_CLUSTER]), completes: str_views(seq![]), why: WHY_PATH_NETWORK@ },
        NodeView { id: P61_SMALL_PUBLIC_SQUARES@, alexander_number: Some(61u32), requires: str_views(seq![P37_HOUSE_CLUSTER]), completes: str_views(seq![]), why: WHY_P61_SMALL_PUBLIC_SQUARES@ },
        NodeView { id: P95_BUILDING_COMPLEX@, alexander_number: Some(95u32), requires: str_views(seq![P37_HOUSE_CLUSTER, P29_DENSITY_RINGS, P61_SMALL_PUBLIC_SQUARES]), completes: str_views(seq![]), why: WHY_P95_BUILDING_COMPLEX@ },
        NodeView { id: P21_FOUR_STORY_LIMIT@, alexander_number: Some(21u32), requires: str_views(seq![P95_BUILDING_COMPLEX]), completes: str_views(seq![]), why: WHY_P21_FOUR_STORY_LIMIT@ },
        NodeView { id: P108_CONNECTED_BUILDINGS@, alexander_number: Some(108u32), requires: str_views(seq![P95_BUILDING_COMPLEX]), completes: str_views(seq![P95_BUILDING_COMPLEX]), why: WHY_P108_CONNECTED_BUILDINGS@ },
        NodeView { id: P96_NUMBER_OF_STORIES@, alexander_number: Some(96u32), requires: str_views(seq![P95_BUILDING_COMPLEX, P108_CONNECTED_BUILDINGS]), completes: str_views(seq![]), why: WHY_P96_NUMBER_OF_STORIES@ },
        NodeView { id: P107_WINGS_OF_LIGHT@, alexander_number: Some(107u32), requires: str_views(seq![P108_CONNECTED_BUILDINGS, P96_NUMBER_OF_STORIES]), completes: str_views(seq![]), why: WHY_P107_WINGS_OF_LIGHT@ },
        NodeView { id: P117_SHELTERING_ROOF@, alexander_number: Some(117u32), requires: str_views(seq![P107_WINGS_OF_LIGHT]), completes: str_views(seq![]), why: WHY_P117_SHELTERING_ROOF@ },
        NodeView { id: P118_ROOF_GARDEN@, alexander_number: Some(118u32), requires: str_views(seq![P117_SHELTERING_ROOF]), completes: str_views(seq![]), why: WHY_P118_ROOF_GARDEN@ },
        NodeView { id: P124_ACTIVITY_POCKETS@, alexander_number: Some(124u32), requires: str_views(seq![P107_WINGS_OF_LIGHT, P61_SMALL_PUBLIC_SQUARES]), completes: str_views(seq![]), why: WHY_P124_ACTIVITY_POCKETS@ },
        NodeView { id: P119_ARCADES@, alexander_number: Some(119u32), requires: str_views(seq![P107_WINGS_OF_LIGHT]), completes: str_views(seq![]), why: WHY_P119_ARCADES@ },
        NodeView { id: P127_INTIMACY_GRADIENT@, alexander_number: Some(127u32), requires: str_views(seq![P107_WINGS_OF_LIGHT]), completes: str_views(seq![]), why: WHY_P127_INTIMACY_GRADIENT@ },
        NodeView { id: P197_THICK_WALLS@, alexander_number: Some(197u32), requires: str_views(seq![P107_WINGS_OF_LIGHT]), completes: str_views(seq![]), why: WHY_P197_THICK_WALLS@ },
        NodeView { id: P116_CASCADE_OF_ROOFS@, alexander_number: Some(116u32), requires: str_views(seq![P117_SHELTERING_ROOF, P127_INTIMACY_GRADIENT]), completes: str_views(seq![]), why: WHY_P116_CASCADE_OF_ROOFS@ },
        NodeView { id: P129_COMMON_AREAS_AT_THE_HEART@, alexander_number: Some(129u32), requires: str_views(seq![P127_INTIMACY_GRADIENT]), completes: str_views(seq![P127_INTIMACY_GRADIENT]), why: WHY_P129_COMMON_AREAS_AT_THE_HEART@ },
        NodeView { id: P130_ENTRANCE_ROOM@, alexander_number: Some(130u32), requires: str_views(seq![P127_INTIMACY_GRADIENT]), completes: str_views(seq![P127_INTIMACY_GRADIENT]), why: WHY_P130_ENTRANCE_ROOM@ },
        NodeView { id: P131_THE_FLOW_THROUGH_ROOMS@, alexander_number: Some(131u32), requires: str_views(seq![P127_INTIMACY_GRADIENT]), completes: str_views(seq![P127_INTIMACY_GRADIENT]), why: WHY_P131_THE_FLOW_THROUGH_ROOMS@ },
        NodeView { id: P133_STAIRCASE_AS_A_STAGE@, alexander_number: Some(133u32), requires: str_views(seq![P129_COMMON_AREAS_AT_THE_HEART, P131_THE_FLOW_THROUGH_ROOMS]), completes: str_views(seq![]), why: WHY_P133_STAIRCASE_AS_A_STAGE@ },
        NodeView { id: P221_NATURAL_DOORS_AND_WINDOWS@, alexander_number: Some(221u32), requires: str_views(seq![P107_WINGS_OF_LIGHT]), completes: str_views(seq![]), why: WHY_P221_NATURAL_DOORS_AND_WINDOWS@ },
        NodeView { id: P160_BUILDING_EDGE@, alexander_number: Some(160u32), requires: str_views(seq![P221_NATURAL_DOORS_AND_WINDOWS]), completes: str_views(seq![]), why: WHY_P160_BUILDING_EDGE@ },
    ]
}

/// The pattern language as executable data: the nodes of
/// [`language_view`], in the same order.
pub fn language() -> (nodes: Vec<PatternNode>)
    ensures
        node_views(nodes@) == language_view(),
{
    let mut nodes: Vec<PatternNode> = Vec::new();
    nodes.push(PatternNode { id: P29_DENSITY_RINGS, alexander_number: Some(29), requires: vec![], completes: vec![], why: WHY_P29_DENSITY_RINGS });
    nodes.push(PatternNode { id: P37_HOUSE_CLUSTER, alexander_number: Some(37), requires: vec![], completes: vec![], why: WHY_P37_HOUSE_CLUSTER });
    nodes.push(PatternNode { id: PATH_NETWORK, alexander_number: Some(52), requires: vec![P37_HOUSE_CLUSTER], completes: vec![], why: WHY_PATH_NETWORK });
    nodes.push(PatternNode { id: P61_SMALL_PUBLIC_SQUARES, alexander_number: Some(61), requires: vec![P37_HOUSE_CLUSTER], completes: vec![], why: WHY_P61_SMALL_PUBLIC_SQUARES });
    nodes.push(PatternNode { id: P95_BUILDING_COMPLEX, alexander_number: Some(95), requires: vec![P37_HOUSE_CLUSTER, P29_DENSITY_RINGS, P61_SMALL_PUBLIC_SQUARES], completes: vec![], why: WHY_P95_BUILDING_COMPLEX });
    nodes.push(PatternNode { id: P21_FOUR_STORY_LIMIT, alexander_number: Some(21), requires: vec![P95_BUILDING_COMPLEX], completes: vec![], why: WHY_P21_FOUR_STORY_LIMIT });
    nodes.push(PatternNode { id: P108_CONNECTED_BUILDINGS, alexander_number: Some(108), requires: vec![P95_BUILDING_COMPLEX], completes: vec![P95_BUILDING_COMPLEX], why: WHY_P108_CONNECTED_BUILDINGS });
    nodes.push(PatternNode { id: P96_NUMBER_OF_STORIES, alexander_number: Some(96), requires: vec![P95_BUILDING_COMPLEX, P108_CONNECTED_BUILDINGS], completes: vec![], why: WHY_P96_NUMBER_OF_STORIES });
    nodes.push(PatternNode { id: P107_WINGS_OF_LIGHT, alexander_number: Some(107), requires: vec![P108_CONNECTED_BUILDINGS, P96_NUMBER_OF_STORIES], completes: vec![], why: WHY_P107_WINGS_OF_LIGHT });
    nodes.push(PatternNode { id: P117_SHELTERING_ROOF, alexander_number: Some(117), requires: vec![P107_WINGS_OF_LIGHT], completes: vec![], why: WHY_P117_SHELTERING_ROOF });
    nodes.push(PatternNode { id: P118_ROOF_GARDEN, alexander_number: Some(118), requires: vec![P117_SHELTERING_ROOF], completes: vec![], why: WHY_P118_ROOF_GARDEN });
    nodes.push(PatternNode { id: P124_ACTIVITY_POCKETS, alexander_number: Some(124), requires: vec![P107_WINGS_OF_LIGHT, P61_SMALL_PUBLIC_SQUARES], completes: vec![], why: WHY_P124_ACTIVITY_POCKETS });
    nodes.push(PatternNode { id: P119_ARCADES, alexander_number: Some(119), requires: vec![P107_WINGS_OF_LIGHT], completes: vec![], why: WHY_P119_ARCADES });
    nodes.push(PatternNode { id: P127_INTIMACY_GRADIENT, alexander_number: Some(127), requires: vec![P107_WINGS_OF_LIGHT], completes: vec![], why: WHY_P127_INTIMACY_GRADIENT });
    nodes.push(PatternNode { id: P197_THICK_WALLS, alexander_number: Some(197), requires: vec![P107_WINGS_OF_LIGHT], completes: vec![], why: WHY_P197_THICK_WALLS });
    nodes.push(PatternNode { id: P116_CASCADE_OF_ROOFS, alexander_number: Some(116), requires: vec![P117_SHELTERING_ROOF, P127_INTIMACY_GRADIENT], completes: vec![], why: WHY_P116_CASCADE_OF_ROOFS });
    nodes.push(PatternNode { id: P129_COMMON_AREAS_AT_THE_HEART, alexander_number: Some(129), requires: vec![P127_INTIMACY_GRADIENT], completes: vec![P127_INTIMACY_GRADIENT], why: WHY_P129_COMMON_AREAS_AT_THE_HEART });
    nodes.push(PatternNode { id: P130_ENTRANCE_ROOM, alexander_number: Some(130), requires: vec![P127_INTIMACY_GRADIENT], completes: vec![P127_INTIMACY_GRADIENT], why: WHY_P130_ENTRANCE_ROOM });
    nodes.push(PatternNode { id: P131_THE_FLOW_THROUGH_ROOMS, alexander_number: Some(131), requires: vec![P127_INTIMACY_GRADIENT], completes: vec![P127_INTIMACY_GRADIENT], why: WHY_P131_THE_FLOW_THROUGH_ROOMS });
    nodes.push(PatternNode { id: P133_STAIRCASE_AS_A_STAGE, alexander_number: Some(133), requires: vec![P129_COMMON_AREAS_AT_THE_HEART, P131_THE_FLOW_THROUGH_ROOMS], completes: vec![], why: WHY_P133_STAIRCASE_AS_A_STAGE });
    nodes.push(PatternNode { id: P221_NATURAL_DOORS_AND_WINDOWS, alexander_number: Some(221), requires: vec![P107_WINGS_OF_LIGHT], completes: vec![], why: WHY_P221_NATURAL_DOORS_AND_WINDOWS });
    nodes.push(PatternNode { id: P160_BUILDING_EDGE, alexander_number: Some(160), requires: vec![P221_NATURAL_DOORS_AND_WINDOWS], completes: vec![], why: WHY_P160_BUILDING_EDGE });
    proof {
        assert(nodes@.len() == 22);
        assert(nodes@[0].requires@ =~= seq![]);
        assert(nodes@[0].completes@ =~= seq![]);
        assert(nodes@[0]@ == language_view()[0]);
        assert(nodes@[1].requires@ =~= seq![]);
        assert(nodes@[1].completes@ =~= seq![]);
        assert(nodes@[1]@ == language_view()[1]);
        assert(nodes@[2].requires@ =~= seq![P37_HOUSE_CLUSTER]);
        assert(nodes@[2].completes@ =~= seq![]);
        assert(nodes@[2]@ == language_view()[2]);
        assert(nodes@[3].requires@ =~= seq![P37_HOUSE_CLUSTER]);
        assert(nodes@[3].completes@ =~= seq![]);
        assert(nodes@[3]@ == language_view()[3]);
        assert(nodes@[4].requires@ =~= seq![P37_HOUSE_CLUSTER, P29_DENSITY_RINGS, P61_SMALL_PUBLIC_SQUARES]);
        assert(nodes@[4].completes@ =~= seq![]);
        assert(nodes@[4]@ == language_view()[4]);
        assert(nodes@[5].requires@ =~= seq![P95_BUILDING_COMPLEX]);
        assert(nodes@[5].completes@ =~= seq![]);
        assert(nodes@[5]@ == language_view()[5]);
        assert(nodes@[6].requires@ =~= seq![P95_BUILDING_COMPLEX]);
        assert(nodes@[6].completes@ =~= seq![P95_BUILDING_COMPLEX]);
        assert(nodes@[6]@ == language_view()[6]);
        assert(nodes@[7].requires@ =~= seq![P95_BUILDING_COMPLEX, P108_CONNECTED_BUILDINGS]);
        assert(nodes@[7].completes@ =~= seq![]);
        assert(nodes@[7]@ == language_view()[7]);
        assert(nodes@[8].requires@ =~= seq![P108_CONNECTED_BUILDINGS, P96_NUMBER_OF_STORIES]);
        assert(nodes@[8].completes@ =~= seq![]);
        assert(nodes@[8]@ == language_view()[8]);
        assert(nodes@[9].requires@ =~= seq![P107_WINGS_OF_LIGHT]);
        assert(nodes@[9].completes@ =~= seq![]);
        assert(nodes@[9]@ == language_view()[9]);
        assert(nodes@[10].requires@ =~= seq![P117_SHELTERING_ROOF]);
        assert(nodes@[10].completes@ =~= seq![]);
        assert(nodes@[10]@ == language_view()[10]);
        assert(nodes@[11].requires@ =~= seq![P107_WINGS_OF_LIGHT, P61_SMALL_PUBLIC_SQUARES]);
        assert(nodes@[11].completes@ =~= seq![]);
        assert(nodes@[11]@ == language_view()[11]);
        assert(nodes@[12].requires@ =~= seq![P107_WINGS_OF_LIGHT]);
        assert(nodes@[12].completes@ =~= seq![]);
        assert(nodes@[12]@ == language_view()[12]);
        assert(nodes@[13].requires@ =~= seq![P107_WINGS_OF_LIGHT]);
        assert(nodes@[13].completes@ =~= seq![]);
        assert(nodes@[13]@ == language_view()[13]);
        assert(nodes@[14].requires@ =~= seq![P107_WINGS_OF_LIGHT]);
        assert(nodes@[14].completes@ =~= seq![]);
        assert(nodes@[14]@ == language_view()[14]);
        assert(nodes@[15].requires@ =~= seq![P117_SHELTERING_ROOF, P127_INTIMACY_GRADIENT]);
        assert(nodes@[15].completes@ =~= seq![]);
        assert(nodes@[15]@ == language_view()[15]);
        assert(nodes@[16].requires@ =~= seq![P127_INTIMACY_GRADIENT]);
        assert(nodes@[16].completes@ =~= seq![P127_INTIMACY_GRADIENT]);
        assert(nodes@[16]@ == language_view()[16]);
        assert(nodes@[17].requires@ =~= seq![P127_INTIMACY_GRADIENT]);
        assert(nodes@[17].completes@ =~= seq![P127_INTIMACY_GRADIENT]);
        assert(nodes@[17]@ == language_view()[17]);
        assert(nodes@[18].requires@ =~= seq![P127_INTIMACY_GRADIENT]);
        assert(nodes@[18].completes@ =~= seq![P127_INTIMACY_GRADIENT]);
        assert(nodes@[18]@ == language_view()[18]);
        assert(nodes@[19].requires@ =~= seq![P129_COMMON_AREAS_AT_THE_HEART, P131_THE_FLOW_THROUGH_ROOMS]);
        assert(nodes@[19].completes@ =~= seq![]);
        assert(nodes@[19]@ == language_view()[19]);
        assert(nodes@[20].requires@ =~= seq![P107_WINGS_OF_LIGHT]);
        assert(nodes@[20].completes@ =~= seq![]);
        assert(nodes@[20]@ == language_view()[20]);
        assert(nodes@[21].requires@ =~= seq![P221_NATURAL_DOORS_AND_WINDOWS]);
        assert(nodes@[21].completes@ =~= seq![]);
        assert(nodes@[21]@ == language_view()[21]);
        assert(node_views(nodes@) =~= language_view());
    }
    nodes
}

/// A requirement that was not yet satisfied when its node ran.
#[derive(Debug, Clone, PartialEq, Eq)]
pub struct OrderViolation {
    pub node: &'static str,
    pub missing_requirement: &'static str,
}

/// The views of a sequence of violations: `(node, missing requirement)`.
pub open spec fn violation_views(vs: Seq<OrderViolation>) -> Seq<(Seq<char>, Seq<char>)> {
    vs.map_values(|v: OrderViolation| (v.node@, v.missing_requirement@))
}

/// The index of the first entry of `ids` equal to `id`, or `ids.len()`
/// when there is none.
pub open spec fn position_of(ids: Seq<Seq<char>>, id: Seq<char>) -> int
    decreases ids.len(),
{
    if ids.len() == 0 {
        0
    } else if ids[0] == id {
        0
    } else {
        1 + position_of(ids.drop_first(), id)
    }
}

/// The requirements among `reqs` (in order) that `available` does not
/// hold, each paired with the requiring node's id.
pub open spec fn unmet(node: Seq<char>, reqs: Seq<Seq<char>>, available: Seq<Seq<char>>) -> Seq<(Seq<char>, Seq<char>)>
    decreases reqs.len(),
{
    if reqs.len() == 0 {
        Seq::empty()
    } else {
        let rest = unmet(node, reqs.drop_last(), available);
        if available.contains(reqs.last()) {
            rest
        } else {
            rest.push((node, reqs.last()))
        }
    }
}

/// The violations found at step `i` of `order`: the first node of `lang`
/// whose id is `order[i]` (none for an unknown id), against everything
/// that ran before step `i`.
pub open spec fn violations_at(lang: Seq<NodeView>, order: Seq<Seq<char>>, i: int) -> Seq<(Seq<char>, Seq<char>)> {
    let k = position_of(node_ids(lang), order[i]);
    if k < lang.len() {
        unmet(lang[k].id, lang[k].requires, order.take(i))
    } else {
        Seq::empty()
    }
}

/// The violations of the first `n` steps of `order`, step by step.
pub open spec fn violations_upto(lang: Seq<NodeView>, order: Seq<Seq<char>>, n: int) -> Seq<(Seq<char>, Seq<char>)>
    decreases n,
{
    if n <= 0 {
        Seq::empty()
    } else {
        violations_upto(lang, order, n - 1) + violations_at(lang, order, n - 1)
    }
}

/// Every violation of running `order` against `lang`.
pub open spec fn order_violations(lang: Seq<NodeView>, order: Seq<Seq<char>>) -> Seq<(Seq<char>, Seq<char>)> {
    violations_upto(lang, order, order.len() as int)
}

proof fn lemma_position_of(ids: Seq<Seq<char>>, id: Seq<char>)
    ensures
        0 <= position_of(ids, id) <= ids.len(),
        position_of(ids, id) < ids.len() ==> ids[position_of(ids, id)] == id,
        forall|j: int| 0 <= j < position_of(ids, id) ==> ids[j] != id,
    decreases ids.len(),
{
    if ids.len() > 0 && ids[0] != id {
        lemma_position_of(ids.drop_first(), id);
        assert forall|j: int| 0 <= j < position_of(ids, id) implies ids[j] != id by {
            if j > 0 {
                assert(ids[j] == ids.drop_first()[j - 1]);
            }
        }
    }
}

/// The index of the first node of `lang` whose id is `id`.
fn find_node(lang: &Vec<PatternNode>, id: &str) -> (r: Option<usize>)
    ensures
        ({
            let k = position_of(node_ids(node_views(lang@)), id@);
            match r {
                Some(i) => i == k && k < lang@.len(),
                None => k == lang@.len(),
            }
        }),
{
    let ghost ids = node_ids(node_views(lang@));
    proof {
        lemma_position_of(ids, id@);
    }
    let n = lang.len();
    let mut i: usize = 0;
    while i < n
        invariant
            n == lang@.len(),
            ids == node_ids(node_views(lang@)),
            ids.len() == n,
            i <= n,
            i <= position_of(ids, id@),
            0 <= position_of(ids, id@) <= n,
            position_of(ids, id@) < n ==> ids[position_of(ids, id@)] == id@,
            forall|j: int| 0 <= j < position_of(ids, id@) ==> ids[j] != id@,
        decreases n - i,
    {
        if str_eq(lang[i].id, id) {
            assert(ids[i as int] == id@);
            return Some(i);
        }
        assert(ids[i as int] != id@);
        i = i + 1;
    }
    None
}

/// Whether `available` holds `s`.
fn holds(available: &Vec<&str>, s: &str) -> (r: bool)
    ensures
        r == str_views(available@).contains(s@),
{
    let n = available.len();
    let mut i: usize = 0;
    while i < n
        invariant
            n == available@.len(),
            i <= n,
            forall|j: int| 0 <= j < i ==> available@[j]@ != s@,
        decreases n - i,
    {
        if str_eq(available[i], s) {
            assert(str_views(available@)[i as int] == s@);
            return true;
        }
        i = i + 1;
    }
    assert(!str_views(available@).contains(s@)) by {
        if str_views(available@).contains(s@) {
            let j = choose|j: int| 0 <= j < str_views(available@).len() && str_views(available@)[j] == s@;
            assert(available@[j]@ == s@);
        }
    }
    false
}

/// Checks `order` (a sequence of node ids) against the pattern language:
/// every requirement of each node must already have run by the time the
/// node runs. Unknown ids are ignored, but still count as having run.
/// Returns every violation, in the order found.
pub fn validate_order(order: &[&str]) -> (r: Result<(), Vec<OrderViolation>>)
    ensures
        match r {
            Ok(()) => order_violations(language_view(), str_views(order@)).len() == 0,
            Err(vs) => violation_views(vs@) == order_violations(language_view(), str_views(order@))
                && vs@.len() > 0,
        },
{
    let lang = language();
    let ghost lv = language_view();
    let ghost ov = str_views(order@);
    let mut available: Vec<&str> = Vec::new();
    let mut violations: Vec<OrderViolation> = Vec::new();
    let n = order.len();
    let mut i: usize = 0;
    while i < n
        invariant
            n == order@.len(),
            ov == str_views(order@),
            lv == language_view(),
            node_views(lang@) == lv,
            i <= n,
            str_views(available@) == ov.take(i as int),
            violation_views(violations@) == violations_upto(lv, ov, i as int),
        decreases n - i,
    {
        let id = order[i];
        let found = find_node(&lang, id);
        proof {
            lemma_position_of(node_ids(lv), id@);
            assert(ov[i as int] == id@);
        }
        let ghost before = violation_views(violations@);
        match found {
            Some(k) => {
                let node = &lang[k];
                let reqs = &node.requires;
                let m = reqs.len();
                let mut j: usize = 0;
                assert(lv[k as int] == node@);
                while j < m
                    invariant
                        m == reqs@.len(),
                        k < lang@.len(),
                        reqs == &lang@[k as int].requires,
                        node == &lang@[k as int],
                        j <= m,
                        str_views(available@) == ov.take(i as int),
                        violation_views(violations@) == before + unmet(
                            node.id@,
                            str_views(reqs@).take(j as int),
                            ov.take(i as int),
                        ),
                    decreases m - j,
                {
                    let req = reqs[j];
                    let ghost rq = str_views(reqs@).take(j + 1);
                    proof {
                        assert(rq.drop_last() =~= str_views(reqs@).take(j as int));
                        assert(rq.last() == req@);
                    }
                    if !holds(&available, req) {
                        let ghost prior = violations@;
                        violations.push(OrderViolation { node: node.id, missing_requirement: req });
                        proof {
                            assert(violation_views(violations@) =~= violation_views(prior).push((node.id@, req@)));
                            assert(unmet(node.id@, rq, ov.take(i as int)) == unmet(
                                node.id@,
                                str_views(reqs@).take(j as int),
                                ov.take(i as int),
                            ).push((node.id@, req@)));
                            assert(violation_views(violations@) =~= before + unmet(
                                node.id@,
                                rq,
                                ov.take(i as int),
                            ));
                        }
                    } else {
                        proof {
                            assert(unmet(node.id@, rq, ov.take(i as int)) == unmet(
                                node.id@,
                                str_views(reqs@).take(j as int),
                                ov.take(i as int),
                            ));
                        }
                    }
                    j = j + 1;
                }
                proof {
                    assert(str_views(reqs@).take(m as int) =~= str_views(reqs@));
                    assert(node_ids(lv)[k as int] == id@);
                }
            },
            None => {},
        }
        proof {
            assert(violations_at(lv, ov, i as int) == violations_upto(lv, ov, i + 1) .subrange(before.len() as int, violations_upto(lv, ov, i + 1).len() as int)) by {
                assert(violations_upto(lv, ov, i + 1) =~= violations_upto(lv, ov, i as int) + violations_at(lv, ov, i as int));
            }
            assert(violation_views(violations@) =~= violations_upto(lv, ov, i + 1));
        }
        let ghost prior_available = available@;
        available.push(id);
        proof {
            assert(str_views(available@) =~= str_views(prior_available).push(id@));
            assert(ov.take(i + 1) =~= ov.take(i as int).push(ov[i as int]));
            assert(str_views(available@) =~= ov.take(i + 1));
        }
        i = i + 1;
    }
    proof {
        assert(ov.take(n as int) =~= ov);
    }
    if violations.len() == 0 {
        Ok(())
    } else {
        Err(violations)
    }
}

/// What separates two stages in [`render_arrow_chain`].
pub const ARROW_SEPARATOR: &'static str = " \u{2192} ";

/// A node's short label: `P` and its pattern number, or its id when it has
/// no number.
pub open spec fn node_label(n: NodeView) -> Seq<char> {
    match n.alexander_number {
        Some(k) => "P"@ + decimal(k as nat),
        None => n.id,
    }
}

/// The labels of `lang`'s nodes, in order, joined by [`ARROW_SEPARATOR`].
pub open spec fn arrow_chain(lang: Seq<NodeView>) -> Seq<char> {
    joined(lang.map_values(|n: NodeView| node_label(n)), ARROW_SEPARATOR@)
}

/// The number shown in a node's heading in [`render_language_doc`].
pub open spec fn number_heading(n: NodeView) -> Seq<char> {
    match n.alexander_number {
        Some(k) => "P"@ + decimal(k as nat),
        None => "(unnumbered)"@,
    }
}

/// The `requires:` line of a node's entry in [`render_language_doc`].
pub open spec fn requires_line(n: NodeView) -> Seq<char> {
    if n.requires.len() == 0 {
        "   requires: (nothing -- runs first)\n"@
    } else {
        "   requires: "@ + joined(n.requires, ", "@) + "\n"@
    }
}

/// The `completes:` line of a node's entry, absent when it completes
/// nothing.
pub open spec fn completes_line(n: NodeView) -> Seq<char> {
    if n.completes.len() == 0 {
        Seq::empty()
    } else {
        "   completes: "@ + joined(n.completes, ", "@) + "\n"@
    }
}

/// The entry of the node at (zero-based) position `i`.
pub open spec fn doc_entry(i: nat, n: NodeView) -> Seq<char> {
    decimal(i + 1) + ". "@ + n.id + " ["@ + number_heading(n) + "]\n"@ + requires_line(n)
        + completes_line(n) + "   why: "@ + n.why + "\n"@
}

/// The entries of the first `k` nodes of `lang`.
pub open spec fn doc_upto(lang: Seq<NodeView>, k: int) -> Seq<char>
    decreases k,
{
    if k <= 0 {
        Seq::empty()
    } else {
        doc_upto(lang, k - 1) + doc_entry((k - 1) as nat, lang[k - 1])
    }
}

/// The whole ordering document for `lang`.
pub open spec fn language_doc(lang: Seq<NodeView>) -> Seq<char> {
    doc_upto(lang, lang.len() as int)
}

fn push_label(out: &mut String, node: &PatternNode)
    ensures
        final(out)@ == old(out)@ + node_label(node@),
{
    match node.alexander_number {
        Some(k) => {
            out.append("P");
            push_decimal(out, k as u64);
            proof {
                assert(final(out)@ =~= old(out)@ + node_label(node@));
            }
        },
        None => {
            out.append(node.id);
        },
    }
}

/// The pattern language's stage order as one compact line of labels
/// (`P29 -> P37 -> ...`), one per node, in order.
pub fn render_arrow_chain() -> (chain: String)
    ensures
        chain@ == arrow_chain(language_view()),
{
    let lang = language();
    let ghost labels = language_view().map_values(|n: NodeView| node_label(n));
    let mut out = String::new();
    let n = lang.len();
    let mut i: usize = 0;
    while i < n
        invariant
            n == lang@.len(),
            node_views(lang@) == language_view(),
            labels == language_view().map_values(|n: NodeView| node_label(n)),
            labels.len() == n,
            i <= n,
            out@ == joined(labels.take(i as int), ARROW_SEPARATOR@),
        decreases n - i,
    {
        let ghost prior = out@;
        proof {
            assert(labels.take(i + 1).drop_last() =~= labels.take(i as int));
            assert(labels[i as int] == node_label(lang@[i as int]@));
        }
        if i > 0 {
            out.append(ARROW_SEPARATOR);
        }
        push_label(&mut out, &lang[i]);
        proof {
            if i == 0 {
                assert(labels.take(1) =~= seq![labels[0]]);
                assert(out@ =~= joined(labels.take(1), ARROW_SEPARATOR@));
            } else {
                assert(out@ =~= joined(labels.take(i + 1), ARROW_SEPARATOR@));
            }
        }
        i = i + 1;
    }
    proof {
        assert(labels.take(n as int) =~= labels);
    }
    out
}

fn push_heading(out: &mut String, i: usize, node: &PatternNode)
    requires
        i < usize::MAX,
    ensures
        final(out)@ == old(out)@ + decimal((i + 1) as nat) + ". "@ + node.id@ + " ["@
            + number_heading(node@) + "]\n"@,
{
    push_decimal(out, (i + 1) as u64);
    out.append(". ");
    out.append(node.id);
    out.append(" [");
    match node.alexander_number {
        Some(k) => {
            out.append("P");
            push_decimal(out, k as u64);
        },
        None => {
            out.append("(unnumbered)");
        },
    }
    out.append("]\n");
    proof {
        assert(final(out)@ =~= old(out)@ + decimal((i + 1) as nat) + ". "@ + node.id@ + " ["@
            + number_heading(node@) + "]\n"@);
    }
}

fn push_requires_line(out: &mut String, node: &PatternNode)
    ensures
        final(out)@ == old(out)@ + requires_line(node@),
{
    if node.requires.len() == 0 {
        out.append("   requires: (nothing -- runs first)\n");
    } else {
        out.append("   requires: ");
        push_joined(out, &node.requires, ", ");
        out.append("\n");
    }
    proof {
        assert(final(out)@ =~= old(out)@ + requires_line(node@));
    }
}

fn push_completes_line(out: &mut String, node: &PatternNode)
    ensures
        final(out)@ == old(out)@ + completes_line(node@),
{
    if node.completes.len() != 0 {
        out.append("   completes: ");
        push_joined(out, &node.completes, ", ");
        out.append("\n");
    }
    proof {
        assert(final(out)@ =~= old(out)@ + completes_line(node@));
    }
}

fn push_entry(out: &mut String, i: usize, node: &PatternNode)
    requires
        i < usize::MAX,
    ensures
        final(out)@ == old(out)@ + doc_entry(i as nat, node@),
{
    push_heading(out, i, node);
    push_requires_line(out, node);
    push_completes_line(out, node);
    out.append("   why: ");
    out.append(node.why);
    out.append("\n");
    proof {
        assert(final(out)@ =~= old(out)@ + doc_entry(i as nat, node@));
    }
}

/// The pattern language as a human-readable ordering document: one
/// numbered entry per node, in order, giving its id and pattern number,
/// what it requires, what it completes (when anything) and why it runs
/// where it does.
pub fn render_language_doc() -> (doc: String)
    ensures
        doc@ == language_doc(language_view()),
{
    let lang = language();
    let mut out = String::new();
    let n = lang.len();
    let mut i: usize = 0;
    while i < n
        invariant
            n == lang@.len(),
            node_views(lang@) == language_view(),
            i <= n,
            out@ == doc_upto(language_view(), i as int),
        decreases n - i,
    {
        push_entry(&mut out, i, &lang[i]);
        proof {
            assert(language_view()[i as int] == lang@[i as int]@);
            assert(out@ =~= doc_upto(language_view(), i + 1));
        }
        i = i + 1;
    }
    out
}

/// Every requirement of every node is the id of a node listed before it.
pub open spec fn requirements_come_earlier(lang: Seq<NodeView>) -> bool {
    forall|k: int, j: int|
        0 <= k < lang.len() && 0 <= j < lang[k].requires.len() ==> #[trigger] node_ids(lang).take(
            k,
        ).contains(lang[k].requires[j])
}

/// At every step of `order`, the node that runs (if any) finds each of its
/// requirements among the ids that ran before it.
pub open spec fn legal_order(lang: Seq<NodeView>, order: Seq<Seq<char>>) -> bool {
    forall|i: int, j: int|
        0 <= i < order.len() && position_of(node_ids(lang), order[i]) < lang.len() && 0 <= j
            < lang[position_of(node_ids(lang), order[i])].requires.len() ==> #[trigger] order.take(
            i,
        ).contains(#[trigger] lang[position_of(node_ids(lang), order[i])].requires[j])
}

proof fn lemma_unmet_empty(node: Seq<char>, reqs: Seq<Seq<char>>, available: Seq<Seq<char>>)
    ensures
        unmet(node, reqs, available).len() == 0 <==> forall|j: int|
            0 <= j < reqs.len() ==> available.contains(#[trigger] reqs[j]),
    decreases reqs.len(),
{
    if reqs.len() > 0 {
        lemma_unmet_empty(node, reqs.drop_last(), available);
        assert forall|j: int| 0 <= j < reqs.len() - 1 implies reqs.drop_last()[j] == reqs[j] by {}
    }
}

proof fn lemma_violations_upto_empty(lang: Seq<NodeView>, order: Seq<Seq<char>>, n: int)
    requires
        0 <= n <= order.len(),
    ensures
        violations_upto(lang, order, n).len() == 0 <==> forall|i: int|
            0 <= i < n ==> (#[trigger] violations_at(lang, order, i)).len() == 0,
    decreases n,
{
    if n > 0 {
        lemma_violations_upto_empty(lang, order, n - 1);
    }
}

proof fn lemma_violations_upto_take(lang: Seq<NodeView>, order: Seq<Seq<char>>, m: int, n: int)
    requires
        0 <= n <= m <= order.len(),
    ensures
        violations_upto(lang, order.take(m), n) == violations_upto(lang, order, n),
    decreases n,
{
    if n > 0 {
        lemma_violations_upto_take(lang, order, m, n - 1);
        assert(order.take(m)[n - 1] == order[n - 1]);
        assert(order.take(m).take(n - 1) =~= order.take(n - 1));
    }
}

proof fn lemma_violations_upto_grows(lang: Seq<NodeView>, order: Seq<Seq<char>>, n: int, m: int)
    requires
        0 <= n <= m,
    ensures
        violations_upto(lang, order, n).len() <= violations_upto(lang, order, m).len(),
    decreases m - n,
{
    if n < m {
        lemma_violations_upto_grows(lang, order, n, m - 1);
    }
}

/// An order is free of violations exactly when it is legal: each node
/// that runs finds every one of its requirements among the ids that ran
/// before it.
pub proof fn law_no_violations_iff_legal(lang: Seq<NodeView>, order: Seq<Seq<char>>)
    ensures
        order_violations(lang, order).len() == 0 <==> legal_order(lang, order),
{
    lemma_violations_upto_empty(lang, order, order.len() as int);
    if order_violations(lang, order).len() == 0 {
        assert forall|i: int, j: int|
            0 <= i < order.len() && position_of(node_ids(lang), order[i]) < lang.len() && 0 <= j
                < lang[position_of(node_ids(lang), order[i])].requires.len() implies #[trigger] order.take(
            i,
        ).contains(#[trigger] lang[position_of(node_ids(lang), order[i])].requires[j]) by {
            let k = position_of(node_ids(lang), order[i]);
            assert(violations_at(lang, order, i).len() == 0);
            lemma_unmet_empty(lang[k].id, lang[k].requires, order.take(i));
        }
    }
    if legal_order(lang, order) {
        assert forall|i: int| 0 <= i < order.len() implies (#[trigger] violations_at(
            lang,
            order,
            i,
        )).len() == 0 by {
            let k = position_of(node_ids(lang), order[i]);
            if k < lang.len() {
                lemma_unmet_empty(lang[k].id, lang[k].requires, order.take(i));
                assert forall|j: int| 0 <= j < lang[k].requires.len() implies order.take(i).contains(
                    #[trigger] lang[k].requires[j],
                ) by {
                    assert(order.take(i).contains(lang[position_of(node_ids(lang), order[i])].requires[j]));
                }
            }
        }
    }
}

/// A legal order stays legal when cut short: every prefix of an order
/// without violations is itself without violations.
pub proof fn law_prefix_of_legal_order_is_legal(lang: Seq<NodeView>, order: Seq<Seq<char>>, n: int)
    requires
        0 <= n <= order.len(),
        order_violations(lang, order).len() == 0,
    ensures
        order_violations(lang, order.take(n)).len() == 0,
{
    lemma_violations_upto_take(lang, order, n, n);
    lemma_violations_upto_grows(lang, order, n, order.len() as int);
}

/// Unknown ids are ignored: running an id that names no node, after any
/// order, adds no violation.
pub proof fn law_unknown_id_adds_no_violation(lang: Seq<NodeView>, order: Seq<Seq<char>>, id: Seq<char>)
    requires
        !node_ids(lang).contains(id),
    ensures
        order_violations(lang, order.push(id)) == order_violations(lang, order),
{
    let longer = order.push(id);
    lemma_position_of(node_ids(lang), id);
    if position_of(node_ids(lang), id) < lang.len() {
        assert(node_ids(lang)[position_of(node_ids(lang), id)] == id);
    }
    assert(longer.take(order.len() as int) =~= order);
    lemma_violations_upto_take(lang, longer, order.len() as int, order.len() as int);
    assert(violations_at(lang, longer, order.len() as int) =~= Seq::empty());
    assert(order_violations(lang, longer) =~= violations_upto(lang, longer, order.len() as int));
}

/// In a table whose requirements always name earlier nodes, the table's
/// own order of ids is legal.
pub proof fn law_table_order_is_legal(lang: Seq<NodeView>)
    requires
        requirements_come_earlier(lang),
    ensures
        order_violations(lang, node_ids(lang)).len() == 0,
{
    let ids = node_ids(lang);
    assert forall|i: int, j: int|
        0 <= i < ids.len() && position_of(ids, ids[i]) < lang.len() && 0 <= j < lang[position_of(
            ids,
            ids[i],
        )].requires.len() implies #[trigger] ids.take(i).contains(
        #[trigger] lang[position_of(ids, ids[i])].requires[j],
    ) by {
        lemma_position_of(ids, ids[i]);
        let k = position_of(ids, ids[i]);
        assert(k <= i);
        assert(ids.take(k).contains(lang[k].requires[j]));
        let w = choose|w: int| 0 <= w < ids.take(k).len() && ids.take(k)[w] == lang[k].requires[j];
        assert(ids.take(i)[w] == lang[k].requires[j]);
    }
    law_no_violations_iff_legal(lang, ids);
}

/// The pattern language's own table: every requirement names a stage
/// listed before it, so running the stages in table order is legal.
pub proof fn law_language_order_is_legal()
    ensures
        requirements_come_earlier(language_view()),
        order_violations(language_view(), node_ids(language_view())).len() == 0,
{
    let lv = language_view();
    let ids = node_ids(lv);
    assert(lv.len() == 22);
    assert forall|k: int, j: int|
        0 <= k < lv.len() && 0 <= j < lv[k].requires.len() implies #[trigger] ids.take(k).contains(
        lv[k].requires[j],
    ) by {
            if k == 2 {
                assert(lv[2].requires[0] == ids[1]);
                assert(ids.take(2)[1] == ids[1]);
            } else if k == 3 {
                assert(lv[3].requires[0] == ids[1]);
                assert(ids.take(3)[1] == ids[1]);
            } else if k == 4 {
                assert(lv[4].requires[0] == ids[1]);
                assert(ids.take(4)[1] == ids[1]);
                assert(lv[4].requires[1] == ids[0]);
                assert(ids.take(4)[0] == ids[0]);
                assert(lv[4].requires[2] == ids[3]);
                assert(ids.take(4)[3] == ids[3]);
            } else if k == 5 {
                assert(lv[5].requires[0] == ids[4]);
                assert(ids.take(5)[4] == ids[4]);
            } else if k == 6 {
                assert(lv[6].requires[0] == ids[4]);
                assert(ids.take(6)[4] == ids[4]);
            } else if k == 7 {
                assert(lv[7].requires[0] == ids[4]);
                assert(ids.take(7)[4] == ids[4]);
                assert(lv[7].requires[1] == ids[6]);
                assert(ids.take(7)[6] == ids[6]);
            } else if k == 8 {
                assert(lv[8].requires[0] == ids[6]);
                assert(ids.take(8)[6] == ids[6]);
                assert(lv[8].requires[1] == ids[7]);
                assert(ids.take(8)[7] == ids[7]);
            } else if k == 9 {
                assert(lv[9].requires[0] == ids[8]);
                assert(ids.take(9)[8] == ids[8]);
            } else if k == 10 {
                assert(lv[10].requires[0] == ids[9]);
                assert(ids.take(10)[9] == ids[9]);
            } else if k == 11 {
                assert(lv[11].requires[0] == ids[8]);
                assert(ids.take(11)[8] == ids[8]);
                assert(lv[11].requires[1] == ids[3]);
                assert(ids.take(11)[3] == ids[3]);
            } else if k == 12 {
                assert(lv[12].requires[0] == ids[8]);
                assert(ids.take(12)[8] == ids[8]);
            } else if k == 13 {
                assert(lv[13].requires[0] == ids[8]);
                assert(ids.take(13)[8] == ids[8]);
            } else if k == 14 {
                assert(lv[14].requires[0] == ids[8]);
                assert(ids.take(14)[8] == ids[8]);
            } else if k == 15 {
                assert(lv[15].requires[0] == ids[9]);
                assert(ids.take(15)[9] == ids[9]);
                assert(lv[15].requires[1] == ids[13]);
                assert(ids.take(15)[13] == ids[13]);
            } else if k == 16 {
                assert(lv[16].requires[0] == ids[13]);
                assert(ids.take(16)[13] == ids[13]);
            } else if k == 17 {
                assert(lv[17].requires[0] == ids[13]);
                assert(ids.take(17)[13] == ids[13]);
            } else if k == 18 {
                assert(lv[18].requires[0] == ids[13]);
                assert(ids.take(18)[13] == ids[13]);
            } else if k == 19 {
                assert(lv[19].requires[0] == ids[16]);
                assert(ids.take(19)[16] == ids[16]);
                assert(lv[19].requires[1] == ids[18]);
                assert(ids.take(19)[18] == ids[18]);
            } else if k == 20 {
                assert(lv[20].requires[0] == ids[8]);
                assert(ids.take(20)[8] == ids[8]);
            } else if k == 21 {
                assert(lv[21].requires[0] == ids[20]);
                assert(ids.take(21)[20] == ids[20]);
            }
    }
    law_table_order_is_legal(lv);
}

} // verus!
