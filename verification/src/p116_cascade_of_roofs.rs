//! P116 Cascade of Roofs — partition each already-roofed building's roof
//! into real per-wing `RoofSegment`s that step down with `p127_intimacy_
//! gradient`'s own depth-ordered cell graph, closing the real generator gap
//! `p117_sheltering_roof` and `p116_cascade_of_roofs` (the opinion) both
//! document at length: the schema (`Building.roof_segments`) and the check
//! (`street-smarts-opinions/src/pattern/p116_cascade_of_roofs.rs`) existed
//! first; this is the generator that actually populates the field.
//!
//! The operator's own description and source citation stand here; what it
//! decides without measuring geometry stands beside them.

use vstd::prelude::*;

use crate::citation::{cite, CitationView, SourceCitation};
use crate::operator::PatternOperator;

verus! {

/// The operator.
pub struct P116CascadeOfRoofs;

/// The operator's one-line description.
pub const DESCRIPTION: &'static str = "Partition each roofed building's roof into per-cell RoofSegments whose ridge height cascades with p127_intimacy_gradient's own depth, per P116 Cascade of Roofs.";

/// The id of the source the operator cites.
pub const SOURCE_ID: &'static str = "alexander_apl_p116";

/// The display text of the source the operator cites.
pub const SOURCE_DISPLAY: &'static str = "Alexander et al., A Pattern Language, Pattern 116 (Cascade of Roofs)";

/// The link to the source the operator cites.
pub const SOURCE_URL: &'static str = "https://patternlanguage.cc/Patterns/Cascade-of-Roofs-(116)";

impl PatternOperator for P116CascadeOfRoofs {
    fn name(&self) -> (r: &'static str)
        ensures
            r@ == crate::language_graph::P116_CASCADE_OF_ROOFS@,
    {
        crate::language_graph::P116_CASCADE_OF_ROOFS
    }

    fn description(&self) -> (r: &'static str)
        ensures
            r@ == DESCRIPTION@,
    {
        DESCRIPTION
    }

    fn source(&self) -> (r: SourceCitation)
        ensures
            r@ == (CitationView { id: SOURCE_ID@, display: SOURCE_DISPLAY@, url: Some(SOURCE_URL@) }),
    {
        cite(SOURCE_ID, SOURCE_DISPLAY, SOURCE_URL)
    }
}

} // verus!
