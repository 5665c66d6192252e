//! P164 Street Windows — buildings alongside real streets need real windows
//! looking out onto them, not blind walls.
//!
//! The operator's own description and source citation stand here; what it
//! decides without measuring geometry stands beside them.

use vstd::prelude::*;

use crate::citation::{cite, CitationView, SourceCitation};
use crate::operator::PatternOperator;
use crate::text::str_eq;

verus! {

/// The operator.
pub struct P164StreetWindows;

/// The operator's name.
pub const NAME: &'static str = "p164_street_windows";

/// The operator's one-line description.
pub const DESCRIPTION: &'static str = "Places one real ground-floor Window opening on each blind street-adjacent building, on the edge nearest a walkable street.";

/// The id of the source the operator cites.
pub const SOURCE_ID: &'static str = "alexander_apl_p164";

/// The display text of the source the operator cites.
pub const SOURCE_DISPLAY: &'static str = "Alexander et al., A Pattern Language, Pattern 164 (Street Windows)";

/// The link to the source the operator cites.
pub const SOURCE_URL: &'static str = "https://patternlanguage.cc/Patterns/Street-Windows-(164)";

impl PatternOperator for P164StreetWindows {
    fn name(&self) -> (r: &'static str)
        ensures
            r@ == NAME@,
    {
        NAME
    }

    fn description(&self) -> (r: &'static str)
        ensures
            r@ == DESCRIPTION@,
    {
        DESCRIPTION
    }

    fn source(&self) -> (r: SourceCitation)
        ensures
            r@ == (CitationView { id: SOURCE_ID@, display: SOURCE_DISPLAY@, url: Some(SOURCE_URL@) }),
    {
        cite(SOURCE_ID, SOURCE_DISPLAY, SOURCE_URL)
    }
}

/// A street classification counts as walkable when it is `local` or
/// `pedestrian`.
pub open spec fn walkable(classification: Option<String>) -> bool {
    match classification {
        Some(c) => c@ == "local"@ || c@ == "pedestrian"@,
        None => false,
    }
}

/// Whether a street with this classification is walkable (local or
/// pedestrian): the streets a street window must look out onto.
pub fn is_walkable(classification: &Option<String>) -> (r: bool)
    ensures
        r == walkable(*classification),
{
    match classification {
        Some(c) => str_eq(c.as_str(), "local") || str_eq(c.as_str(), "pedestrian"),
        None => false,
    }
}

} // verus!
