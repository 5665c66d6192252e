//! P160 Building Edge — treat a building's perimeter as a real zone with
//! volume, not a flat line -- "deep enough to contain seats, bookshelves,
//! bay windows."
//!
//! The operator's own description and source citation stand here; what it
//! decides without measuring geometry stands beside them.

use vstd::prelude::*;

use crate::citation::{cite, CitationView, SourceCitation};
use crate::operator::PatternOperator;

verus! {

/// The operator.
pub struct P160BuildingEdge;

/// The operator's one-line description.
pub const DESCRIPTION: &'static str = "Places a real WallNiche flanking each real door opening, on the same wall edge.";

/// The id of the source the operator cites.
pub const SOURCE_ID: &'static str = "alexander_apl_p160";

/// The display text of the source the operator cites.
pub const SOURCE_DISPLAY: &'static str = "Alexander et al., A Pattern Language, Pattern 160 (Building Edge)";

/// The link to the source the operator cites.
pub const SOURCE_URL: &'static str = "https://patternlanguage.cc/Patterns/Building-Edge-(160)";

impl PatternOperator for P160BuildingEdge {
    fn name(&self) -> (r: &'static str)
        ensures
            r@ == crate::language_graph::P160_BUILDING_EDGE@,
    {
        crate::language_graph::P160_BUILDING_EDGE
    }

    fn description(&self) -> (r: &'static str)
        ensures
            r@ == DESCRIPTION@,
    {
        DESCRIPTION
    }

    fn source(&self) -> (r: SourceCitation)
        ensures
            r@ == (CitationView { id: SOURCE_ID@, display: SOURCE_DISPLAY@, url: Some(SOURCE_URL@) }),
    {
        cite(SOURCE_ID, SOURCE_DISPLAY, SOURCE_URL)
    }
}

} // verus!
