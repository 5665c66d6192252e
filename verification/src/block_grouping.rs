//! Block grouping — clusters building pads into shared-edge blocks.
//!
//! The operator's own description and source citation stand here; what it
//! decides without measuring geometry stands beside them.

use vstd::prelude::*;

use crate::citation::{cite, CitationView, SourceCitation};
use crate::operator::PatternOperator;

verus! {

/// The operator.
pub struct BlockGrouping;

/// The operator's name.
pub const NAME: &'static str = "block_grouping";

/// The operator's one-line description.
pub const DESCRIPTION: &'static str = "Group building pads into blocks of 3–7 (House Cluster scale).";

/// The id of the source the operator cites.
pub const SOURCE_ID: &'static str = "alexander_apl_p14_p36_p37";

/// The display text of the source the operator cites.
pub const SOURCE_DISPLAY: &'static str = "Alexander et al., APL — Patterns 14/36/37 (Identifiable Neighborhood, Degrees of Publicness, House Cluster)";

/// The link to the source the operator cites.
pub const SOURCE_URL: &'static str = "https://patternlanguage.com/apl/aplsample/apl37/apl37.htm";

impl PatternOperator for BlockGrouping {
    fn name(&self) -> (r: &'static str)
        ensures
            r@ == NAME@,
    {
        NAME
    }

    fn description(&self) -> (r: &'static str)
        ensures
            r@ == DESCRIPTION@,
    {
        DESCRIPTION
    }

    fn source(&self) -> (r: SourceCitation)
        ensures
            r@ == (CitationView { id: SOURCE_ID@, display: SOURCE_DISPLAY@, url: Some(SOURCE_URL@) }),
    {
        cite(SOURCE_ID, SOURCE_DISPLAY, SOURCE_URL)
    }
}

} // verus!
