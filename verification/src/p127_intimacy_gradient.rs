//! P127 Intimacy Gradient — partition each building's ground floor into a
//! depth-ordered sequence of cells, from the public-facing wall (or, for a
//! courtyard building, the entrance bay) to the deepest point.
//!
//! The operator's own description and source citation stand here; what it
//! decides without measuring geometry stands beside them.

use vstd::prelude::*;

use crate::citation::{cite, CitationView, SourceCitation};
use crate::operator::PatternOperator;

verus! {

/// The operator.
pub struct P127IntimacyGradient;

/// The operator's one-line description.
pub const DESCRIPTION: &'static str = "Partition each building's ground floor into a depth-ordered sequence of cells, from the public wall (or entrance bay) to the deepest point.";

/// The id of the source the operator cites.
pub const SOURCE_ID: &'static str = "alexander_apl_p127";

/// The display text of the source the operator cites.
pub const SOURCE_DISPLAY: &'static str = "Alexander et al., A Pattern Language, Pattern 127 (Intimacy Gradient)";

/// The link to the source the operator cites.
pub const SOURCE_URL: &'static str = "https://patternlanguage.com/apl/aplsample/apl127/apl127.htm";

impl PatternOperator for P127IntimacyGradient {
    fn name(&self) -> (r: &'static str)
        ensures
            r@ == crate::language_graph::P127_INTIMACY_GRADIENT@,
    {
        crate::language_graph::P127_INTIMACY_GRADIENT
    }

    fn description(&self) -> (r: &'static str)
        ensures
            r@ == DESCRIPTION@,
    {
        DESCRIPTION
    }

    fn source(&self) -> (r: SourceCitation)
        ensures
            r@ == (CitationView { id: SOURCE_ID@, display: SOURCE_DISPLAY@, url: Some(SOURCE_URL@) }),
    {
        cite(SOURCE_ID, SOURCE_DISPLAY, SOURCE_URL)
    }
}

} // verus!
