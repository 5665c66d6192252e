//! P126 Something Roughly in the Middle — every public square needs a
//! real focal object roughly (not exactly) at its center.
//!
//! The operator's own description and source citation stand here; what it
//! decides without measuring geometry stands beside them.

use vstd::prelude::*;

use crate::citation::{cite, CitationView, SourceCitation};
use crate::operator::PatternOperator;

verus! {

/// The operator.
pub struct P126SomethingRoughlyInTheMiddle;

/// The operator's name.
pub const NAME: &'static str = "p126_something_roughly_in_the_middle";

/// The operator's one-line description.
pub const DESCRIPTION: &'static str = "Place a generic activity node roughly (not exactly) at the center of plazas that lack one, closing P126's real gap.";

/// The id of the source the operator cites.
pub const SOURCE_ID: &'static str = "alexander_apl_p126";

/// The display text of the source the operator cites.
pub const SOURCE_DISPLAY: &'static str = "Alexander et al., A Pattern Language, Pattern 126 (Something Roughly in the Middle)";

/// The link to the source the operator cites.
pub const SOURCE_URL: &'static str = "https://patternlanguage.cc/Patterns/Something-Roughly-in-the-Middle-(126)";

impl PatternOperator for P126SomethingRoughlyInTheMiddle {
    fn name(&self) -> (r: &'static str)
        ensures
            r@ == NAME@,
    {
        NAME
    }

    fn description(&self) -> (r: &'static str)
        ensures
            r@ == DESCRIPTION@,
    {
        DESCRIPTION
    }

    fn source(&self) -> (r: SourceCitation)
        ensures
            r@ == (CitationView { id: SOURCE_ID@, display: SOURCE_DISPLAY@, url: Some(SOURCE_URL@) }),
    {
        cite(SOURCE_ID, SOURCE_DISPLAY, SOURCE_URL)
    }
}

} // verus!
