//! P161 Sunny Place — every building needs a real, wind-protected sunny
//! spot immediately outside it, at least 6 feet deep.
//!
//! The operator's own description and source citation stand here; what it
//! decides without measuring geometry stands beside them.

use vstd::prelude::*;

use crate::citation::{cite, CitationView, SourceCitation};
use crate::operator::PatternOperator;

verus! {

/// The operator.
pub struct P161SunnyPlace;

/// The operator's name.
pub const NAME: &'static str = "p161_sunny_place";

/// The operator's one-line description.
pub const DESCRIPTION: &'static str = "Adds a real rectangular OpenSpace immediately south of each building that lacks a qualifying sunny place.";

/// The id of the source the operator cites.
pub const SOURCE_ID: &'static str = "alexander_apl_p161";

/// The display text of the source the operator cites.
pub const SOURCE_DISPLAY: &'static str = "Alexander et al., A Pattern Language, Pattern 161 (Sunny Place)";

/// The link to the source the operator cites.
pub const SOURCE_URL: &'static str = "https://patternlanguage.cc/Patterns/Sunny-Place-(161)";

impl PatternOperator for P161SunnyPlace {
    fn name(&self) -> (r: &'static str)
        ensures
            r@ == NAME@,
    {
        NAME
    }

    fn description(&self) -> (r: &'static str)
        ensures
            r@ == DESCRIPTION@,
    {
        DESCRIPTION
    }

    fn source(&self) -> (r: SourceCitation)
        ensures
            r@ == (CitationView { id: SOURCE_ID@, display: SOURCE_DISPLAY@, url: Some(SOURCE_URL@) }),
    {
        cite(SOURCE_ID, SOURCE_DISPLAY, SOURCE_URL)
    }
}

} // verus!
