//! P107 Wings of Light — shape a building footprint so no interior point is
//! farther than `max_wing_width_m` from an exterior wall.
//!
//! The operator's own description and source citation stand here; what it
//! decides without measuring geometry stands beside them.

use vstd::prelude::*;

use crate::citation::{cite, CitationView, SourceCitation};
use crate::operator::PatternOperator;

verus! {

/// The operator.
pub struct P107WingsOfLight;

/// The operator's one-line description.
pub const DESCRIPTION: &'static str = "Shape a building footprint (solid or courtyard-ring) so no interior point is farther than max_wing_width_m from an exterior wall.";

/// The id of the source the operator cites.
pub const SOURCE_ID: &'static str = "alexander_apl_p107";

/// The display text of the source the operator cites.
pub const SOURCE_DISPLAY: &'static str = "Alexander et al., A Pattern Language, Pattern 107 (Wings of Light)";

/// The link to the source the operator cites.
pub const SOURCE_URL: &'static str = "https://patternlanguage.com/apl/aplsample/apl107/apl107.htm";

impl PatternOperator for P107WingsOfLight {
    fn name(&self) -> (r: &'static str)
        ensures
            r@ == crate::language_graph::P107_WINGS_OF_LIGHT@,
    {
        crate::language_graph::P107_WINGS_OF_LIGHT
    }

    fn description(&self) -> (r: &'static str)
        ensures
            r@ == DESCRIPTION@,
    {
        DESCRIPTION
    }

    fn source(&self) -> (r: SourceCitation)
        ensures
            r@ == (CitationView { id: SOURCE_ID@, display: SOURCE_DISPLAY@, url: Some(SOURCE_URL@) }),
    {
        cite(SOURCE_ID, SOURCE_DISPLAY, SOURCE_URL)
    }
}

} // verus!
