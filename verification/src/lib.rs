//! The decision logic of Christopher Alexander's pattern-language pipeline
//! for neighborhood imagination: the pattern-language ordering graph, the
//! operator catalogue, and the discrete choices each operator makes.

pub mod text;
pub mod language_graph;
pub mod citation;
pub mod operator;
pub mod interior;
pub mod order;
pub mod opening;
pub mod block_grouping;
pub mod building_shape;
pub mod p100_pedestrian_street;
pub mod p102_family_of_entrances;
pub mod p107_wings_of_light;
pub mod p108_connected_buildings;
pub mod p110_main_entrance;
pub mod p116_cascade_of_roofs;
pub mod p117_sheltering_roof;
pub mod p118_roof_garden;
pub mod p119_arcades;
pub mod p124_activity_pockets;
pub mod p126_something_roughly_in_the_middle;
pub mod p127_intimacy_gradient;
pub mod p129_common_areas_at_the_heart;
pub mod p130_entrance_room;
pub mod p131_the_flow_through_rooms;
pub mod p133_staircase_as_a_stage;
pub mod p160_building_edge;
pub mod p161_sunny_place;
pub mod p164_street_windows;
pub mod p165_opening_to_the_street;
pub mod p192_windows_overlooking_life;
pub mod p197_thick_walls;
pub mod p21_four_story_limit;

pub use citation::SourceCitation;
pub use operator::PatternOperator;
