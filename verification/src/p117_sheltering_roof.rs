//! P117 Sheltering Roof — assigns every real building a real, sloped shed
//! roof, closing this pipeline's "no roof geometry at all" gap.
//!
//! The operator's own description and source citation stand here; what it
//! decides without measuring geometry stands beside them.

use vstd::prelude::*;

use crate::citation::{cite, CitationView, SourceCitation};
use crate::operator::PatternOperator;

verus! {

/// The operator.
pub struct P117ShelteringRoof;

/// The operator's one-line description.
pub const DESCRIPTION: &'static str = "Assigns every real building a real shed roof, ridge above its own height_m, sloped down to true north, per P117 Sheltering Roof and P162 North Face.";

/// The id of the source the operator cites.
pub const SOURCE_ID: &'static str = "alexander_apl_p117";

/// The display text of the source the operator cites.
pub const SOURCE_DISPLAY: &'static str = "Alexander et al., A Pattern Language, Pattern 117 (Sheltering Roof)";

/// The link to the source the operator cites.
pub const SOURCE_URL: &'static str = "https://patternlanguage.cc/Patterns/Sheltering-Roof-(117)";

impl PatternOperator for P117ShelteringRoof {
    fn name(&self) -> (r: &'static str)
        ensures
            r@ == crate::language_graph::P117_SHELTERING_ROOF@,
    {
        crate::language_graph::P117_SHELTERING_ROOF
    }

    fn description(&self) -> (r: &'static str)
        ensures
            r@ == DESCRIPTION@,
    {
        DESCRIPTION
    }

    fn source(&self) -> (r: SourceCitation)
        ensures
            r@ == (CitationView { id: SOURCE_ID@, display: SOURCE_DISPLAY@, url: Some(SOURCE_URL@) }),
    {
        cite(SOURCE_ID, SOURCE_DISPLAY, SOURCE_URL)
    }
}

} // verus!
