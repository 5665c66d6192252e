//! P21 Four-Story Limit — cap every building pad's aspirational story
//! count at Alexander's own ordinary ceiling, the moment a pad has one to
//! cap.
//!
//! The operator's own description and source citation stand here; what it
//! decides without measuring geometry stands beside them.

use vstd::prelude::*;

use crate::citation::{cite, CitationView, SourceCitation};
use crate::operator::PatternOperator;

verus! {

/// The operator.
pub struct P21FourStoryLimit;

/// The operator's one-line description.
pub const DESCRIPTION: &'static str = "Cap every building pad's field-inherited story target at the ordinary ceiling, before P108 merges any pads.";

/// The id of the source the operator cites.
pub const SOURCE_ID: &'static str = "alexander_apl_p21";

/// The display text of the source the operator cites.
pub const SOURCE_DISPLAY: &'static str = "Alexander et al., A Pattern Language, Pattern 21 (Four-Story Limit)";

/// The link to the source the operator cites.
pub const SOURCE_URL: &'static str = "https://patternlanguage.com/apl/aplsample/apl21/apl21.htm";

impl PatternOperator for P21FourStoryLimit {
    fn name(&self) -> (r: &'static str)
        ensures
            r@ == crate::language_graph::P21_FOUR_STORY_LIMIT@,
    {
        crate::language_graph::P21_FOUR_STORY_LIMIT
    }

    fn description(&self) -> (r: &'static str)
        ensures
            r@ == DESCRIPTION@,
    {
        DESCRIPTION
    }

    fn source(&self) -> (r: SourceCitation)
        ensures
            r@ == (CitationView { id: SOURCE_ID@, display: SOURCE_DISPLAY@, url: Some(SOURCE_URL@) }),
    {
        cite(SOURCE_ID, SOURCE_DISPLAY, SOURCE_URL)
    }
}

} // verus!
