//! P102 Family of Entrances — improve the similarity sub-score by narrowing door-width
//! variance across a complex's main entrances.
//!
//! The operator's own description and source citation stand here; what it
//! decides without measuring geometry stands beside them.

use vstd::prelude::*;

use crate::citation::{cite, CitationView, SourceCitation};
use crate::operator::PatternOperator;

verus! {

/// The operator.
pub struct P102FamilyOfEntrances;

/// The operator's name.
pub const NAME: &'static str = "p102_family_of_entrances";

/// The operator's one-line description.
pub const DESCRIPTION: &'static str = "Improves door-width similarity across a complex's entrances by adjusting outliers to the tolerance band, per P102 Family of Entrances.";

/// The id of the source the operator cites.
pub const SOURCE_ID: &'static str = "alexander_apl_p102";

/// The display text of the source the operator cites.
pub const SOURCE_DISPLAY: &'static str = "Alexander et al., A Pattern Language, Pattern 102 (Family of Entrances)";

/// The link to the source the operator cites.
pub const SOURCE_URL: &'static str = "https://patternlanguage.cc/Patterns/Family-of-Entrances-(102)";

impl PatternOperator for P102FamilyOfEntrances {
    fn name(&self) -> (r: &'static str)
        ensures
            r@ == NAME@,
    {
        NAME
    }

    fn description(&self) -> (r: &'static str)
        ensures
            r@ == DESCRIPTION@,
    {
        DESCRIPTION
    }

    fn source(&self) -> (r: SourceCitation)
        ensures
            r@ == (CitationView { id: SOURCE_ID@, display: SOURCE_DISPLAY@, url: Some(SOURCE_URL@) }),
    {
        cite(SOURCE_ID, SOURCE_DISPLAY, SOURCE_URL)
    }
}

} // verus!
