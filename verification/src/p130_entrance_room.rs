//! P130 Entrance Room — mark the cell `p127_intimacy_gradient` built at
//! depth 0.0 (the public-facing band/bay, guaranteed unique by that
//! operator's own construction -- see the module doc there) as a real
//! `kind: "entrance"` cell, not just another undifferentiated `"room"`.
//!
//! The operator's own description and source citation stand here; what it
//! decides without measuring geometry stands beside them.

use vstd::prelude::*;

use crate::citation::{cite, CitationView, SourceCitation};
use crate::operator::PatternOperator;

verus! {

/// The operator.
pub struct P130EntranceRoom;

/// The operator's one-line description.
pub const DESCRIPTION: &'static str = "Tag the cell p127_intimacy_gradient placed at depth 0.0 as a real entrance room, not an undifferentiated band/bay.";

/// The id of the source the operator cites.
pub const SOURCE_ID: &'static str = "alexander_apl_130";

/// The display text of the source the operator cites.
pub const SOURCE_DISPLAY: &'static str = "Alexander et al., A Pattern Language, Pattern 130 (Entrance Room) -- \
                      paraphrased; patternlanguage.com's sample pages for this pattern 404'd \
                      this session, see this operator's own module doc.";

/// The link to the source the operator cites.
pub const SOURCE_URL: &'static str = "https://www.patternlanguage.com/apl/direct-130.htm";

impl PatternOperator for P130EntranceRoom {
    fn name(&self) -> (r: &'static str)
        ensures
            r@ == crate::language_graph::P130_ENTRANCE_ROOM@,
    {
        crate::language_graph::P130_ENTRANCE_ROOM
    }

    fn description(&self) -> (r: &'static str)
        ensures
            r@ == DESCRIPTION@,
    {
        DESCRIPTION
    }

    fn source(&self) -> (r: SourceCitation)
        ensures
            r@ == (CitationView { id: SOURCE_ID@, display: SOURCE_DISPLAY@, url: Some(SOURCE_URL@) }),
    {
        cite(SOURCE_ID, SOURCE_DISPLAY, SOURCE_URL)
    }
}

/// The operator has no tunable parameters.
#[derive(Debug, Clone, Copy)]
pub struct P130Params;

impl P130Params {
    /// The (only) parameter set.
    pub fn defaults() -> (p: Self)
        ensures
            p == P130Params,
    {
        P130Params
    }
}

} // verus!
