//! P129 Common Areas at the Heart — identify which of a building's
//! `InteriorCell`s (from `p127_intimacy_gradient`) is the common area: the
//! one nearest the whole footprint's center of gravity.
//!
//! The operator's own description and source citation stand here; what it
//! decides without measuring geometry stands beside them.

use vstd::prelude::*;

use crate::citation::{cite, CitationView, SourceCitation};
use crate::operator::PatternOperator;

verus! {

/// The operator.
pub struct P129CommonAreasAtTheHeart;

/// The operator's one-line description.
pub const DESCRIPTION: &'static str = "Identify which interior cell sits nearest the building's center of gravity -- the common area.";

/// The id of the source the operator cites.
pub const SOURCE_ID: &'static str = "alexander_apl_p129";

/// The display text of the source the operator cites.
pub const SOURCE_DISPLAY: &'static str = "Alexander et al., A Pattern Language, Pattern 129 (Common Areas at the Heart)";

/// The link to the source the operator cites.
pub const SOURCE_URL: &'static str = "https://patternlanguage.com/apl/aplsample/apl129/apl129.htm";

impl PatternOperator for P129CommonAreasAtTheHeart {
    fn name(&self) -> (r: &'static str)
        ensures
            r@ == crate::language_graph::P129_COMMON_AREAS_AT_THE_HEART@,
    {
        crate::language_graph::P129_COMMON_AREAS_AT_THE_HEART
    }

    fn description(&self) -> (r: &'static str)
        ensures
            r@ == DESCRIPTION@,
    {
        DESCRIPTION
    }

    fn source(&self) -> (r: SourceCitation)
        ensures
            r@ == (CitationView { id: SOURCE_ID@, display: SOURCE_DISPLAY@, url: Some(SOURCE_URL@) }),
    {
        cite(SOURCE_ID, SOURCE_DISPLAY, SOURCE_URL)
    }
}

/// The operator has no tunable parameters.
#[derive(Debug, Clone, Copy)]
pub struct P129Params;

impl P129Params {
    /// The (only) parameter set.
    pub fn defaults() -> (p: Self)
        ensures
            p == P129Params,
    {
        P129Params
    }
}

} // verus!
