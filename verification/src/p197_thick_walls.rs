//! P197 Thick Walls — assigns every real building a real, nonzero exterior
//! wall depth, closing the schema's own zero-depth-membrane gap.
//!
//! The operator's own description and source citation stand here; what it
//! decides without measuring geometry stands beside them.

use vstd::prelude::*;

use crate::citation::{cite, CitationView, SourceCitation};
use crate::operator::PatternOperator;

verus! {

/// The operator.
pub struct P197ThickWalls;

/// The operator's one-line description.
pub const DESCRIPTION: &'static str = "Assigns every real building a real, nonzero exterior wall depth, capped relative to its own footprint.";

/// The id of the source the operator cites.
pub const SOURCE_ID: &'static str = "alexander_apl_p197";

/// The display text of the source the operator cites.
pub const SOURCE_DISPLAY: &'static str = "Alexander et al., A Pattern Language, Pattern 197 (Thick Walls)";

/// The link to the source the operator cites.
pub const SOURCE_URL: &'static str = "https://patternlanguage.cc/Patterns/Thick-Walls-(197)";

impl PatternOperator for P197ThickWalls {
    fn name(&self) -> (r: &'static str)
        ensures
            r@ == crate::language_graph::P197_THICK_WALLS@,
    {
        crate::language_graph::P197_THICK_WALLS
    }

    fn description(&self) -> (r: &'static str)
        ensures
            r@ == DESCRIPTION@,
    {
        DESCRIPTION
    }

    fn source(&self) -> (r: SourceCitation)
        ensures
            r@ == (CitationView { id: SOURCE_ID@, display: SOURCE_DISPLAY@, url: Some(SOURCE_URL@) }),
    {
        cite(SOURCE_ID, SOURCE_DISPLAY, SOURCE_URL)
    }
}

} // verus!
