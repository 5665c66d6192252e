//! Building shape — places a building footprint inside each building-pad parcel.
//!
//! The operator's own description and source citation stand here; what it
//! decides without measuring geometry stands beside them.

use vstd::prelude::*;

use crate::citation::{cite, CitationView, SourceCitation};
use crate::operator::PatternOperator;

verus! {

/// The operator.
pub struct BuildingShape;

/// The operator's name.
pub const NAME: &'static str = "building_shape";

/// The operator's one-line description.
pub const DESCRIPTION: &'static str = "Inscribe a building footprint inside each building-pad parcel.";

/// The id of the source the operator cites.
pub const SOURCE_ID: &'static str = "alexander_apl_p102_p106_p107_v01";

/// The display text of the source the operator cites.
pub const SOURCE_DISPLAY: &'static str = "Alexander et al., APL — Patterns 102 / 106 / 107 (v0.1 stub: simple inscribed rectangle, daylight-wings deferred)";

/// The link to the source the operator cites.
pub const SOURCE_URL: &'static str = "https://patternlanguage.com/apl/aplsample/apl107/apl107.htm";

impl PatternOperator for BuildingShape {
    fn name(&self) -> (r: &'static str)
        ensures
            r@ == NAME@,
    {
        NAME
    }

    fn description(&self) -> (r: &'static str)
        ensures
            r@ == DESCRIPTION@,
    {
        DESCRIPTION
    }

    fn source(&self) -> (r: SourceCitation)
        ensures
            r@ == (CitationView { id: SOURCE_ID@, display: SOURCE_DISPLAY@, url: Some(SOURCE_URL@) }),
    {
        cite(SOURCE_ID, SOURCE_DISPLAY, SOURCE_URL)
    }
}

} // verus!
