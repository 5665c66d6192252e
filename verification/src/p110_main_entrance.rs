//! P110 Main Entrance — a building's entrance should be immediately visible
//! from the main paths of approach, not buried on a far side wall.
//!
//! The operator's own description and source citation stand here; what it
//! decides without measuring geometry stands beside them.

use vstd::prelude::*;

use crate::citation::{cite, CitationView, SourceCitation};
use crate::operator::PatternOperator;

verus! {

/// The operator.
pub struct P110MainEntrance;

/// The operator's name.
pub const NAME: &'static str = "p110_main_entrance";

/// The operator's one-line description.
pub const DESCRIPTION: &'static str = "Relocates a building's first ground-floor door closer to the nearest real street for better street visibility.";

/// The id of the source the operator cites.
pub const SOURCE_ID: &'static str = "alexander_apl_p110";

/// The display text of the source the operator cites.
pub const SOURCE_DISPLAY: &'static str = "Alexander et al., A Pattern Language, Pattern 110 (Main Entrance)";

/// The link to the source the operator cites.
pub const SOURCE_URL: &'static str = "https://patternlanguage.cc/Patterns/Main-Entrance-(110)";

impl PatternOperator for P110MainEntrance {
    fn name(&self) -> (r: &'static str)
        ensures
            r@ == NAME@,
    {
        NAME
    }

    fn description(&self) -> (r: &'static str)
        ensures
            r@ == DESCRIPTION@,
    {
        DESCRIPTION
    }

    fn source(&self) -> (r: SourceCitation)
        ensures
            r@ == (CitationView { id: SOURCE_ID@, display: SOURCE_DISPLAY@, url: Some(SOURCE_URL@) }),
    {
        cite(SOURCE_ID, SOURCE_DISPLAY, SOURCE_URL)
    }
}

} // verus!
