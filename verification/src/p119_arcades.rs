//! P119 Arcades / P166 Gallery Surround — covered walkways at a
//! building's edge, at ground level (P119) and at every story (P166).
//!
//! The operator's own description and source citation stand here; what it
//! decides without measuring geometry stands beside them.

use vstd::prelude::*;

use crate::citation::{cite, CitationView, SourceCitation};
use crate::operator::PatternOperator;

verus! {

/// The operator.
pub struct P119Arcades;

/// The operator's one-line description.
pub const DESCRIPTION: &'static str = "Places a real ground-floor arcade (P119) and upper-story galleries (P166) on each building's real street/open-space-facing wall.";

/// The id of the source the operator cites.
pub const SOURCE_ID: &'static str = "alexander_apl_p119";

/// The display text of the source the operator cites.
pub const SOURCE_DISPLAY: &'static str = "Alexander et al., A Pattern Language, Pattern 119 (Arcades)";

/// The link to the source the operator cites.
pub const SOURCE_URL: &'static str = "https://patternlanguage.cc/Patterns/Arcades-(119)";

impl PatternOperator for P119Arcades {
    fn name(&self) -> (r: &'static str)
        ensures
            r@ == crate::language_graph::P119_ARCADES@,
    {
        crate::language_graph::P119_ARCADES
    }

    fn description(&self) -> (r: &'static str)
        ensures
            r@ == DESCRIPTION@,
    {
        DESCRIPTION
    }

    fn source(&self) -> (r: SourceCitation)
        ensures
            r@ == (CitationView { id: SOURCE_ID@, display: SOURCE_DISPLAY@, url: Some(SOURCE_URL@) }),
    {
        cite(SOURCE_ID, SOURCE_DISPLAY, SOURCE_URL)
    }
}

/// A covered walkway along a building's wall.
#[derive(Debug, Clone, Copy, PartialEq, Eq)]
pub enum CanopyKind {
    /// The ground-floor arcade.
    Arcade,
    /// A gallery along an upper story.
    Gallery,
}

/// A building's story count for canopies: its recorded floors, at least
/// one, one when none is recorded.
pub open spec fn canopy_stories(floors: Option<u32>) -> u32 {
    match floors {
        Some(f) => if f >= 1 {
            f
        } else {
            1
        },
        None => 1,
    }
}

/// The canopy on floor `floor`: an arcade on the ground floor, a gallery
/// above it.
pub open spec fn canopy_on(floor: u32) -> (CanopyKind, u32) {
    if floor == 0 {
        (CanopyKind::Arcade, floor)
    } else {
        (CanopyKind::Gallery, floor)
    }
}

/// The canopies a building facing public life gets, floor by floor from
/// the ground: one per real story, an arcade on the ground floor and a
/// gallery on every story above it.
pub fn canopy_floors(floors: Option<u32>) -> (plan: Vec<(CanopyKind, u32)>)
    ensures
        plan@.len() == canopy_stories(floors),
        forall|t: int| 0 <= t < plan@.len() ==> #[trigger] plan@[t] == canopy_on(t as u32),
        floors matches Some(f) ==> (f >= 1 ==> plan@.len() == f),
        floors is None || floors == Some(0u32) ==> plan@.len() == 1,
        plan@[0] == (CanopyKind::Arcade, 0u32),
        forall|t: int| 1 <= t < plan@.len() ==> #[trigger] plan@[t] == (CanopyKind::Gallery, t as u32),
{
    let stories = match floors {
        Some(f) => if f >= 1 {
            f
        } else {
            1
        },
        None => 1,
    };
    let mut plan: Vec<(CanopyKind, u32)> = Vec::new();
    let mut floor: u32 = 0;
    while floor < stories
        invariant
            floor <= stories,
            stories == canopy_stories(floors),
            plan@.len() == floor,
            forall|t: int| 0 <= t < plan@.len() ==> #[trigger] plan@[t] == canopy_on(t as u32),
        decreases stories - floor,
    {
        if floor == 0 {
            plan.push((CanopyKind::Arcade, floor));
        } else {
            plan.push((CanopyKind::Gallery, floor));
        }
        floor = floor + 1;
    }
    proof {
        law_one_canopy_per_story(floors);
    }
    plan
}

/// One canopy per story: a building with `f >= 1` recorded floors gets
/// exactly `f` canopies, one with no (or zero) recorded floors gets one;
/// the ground floor carries the arcade and every story above a gallery on
/// its own floor.
pub proof fn law_one_canopy_per_story(floors: Option<u32>)
    ensures
        floors matches Some(f) ==> (f >= 1 ==> canopy_stories(floors) == f),
        floors is None || floors == Some(0u32) ==> canopy_stories(floors) == 1,
        canopy_on(0) == (CanopyKind::Arcade, 0u32),
        forall|t: u32| t >= 1 ==> #[trigger] canopy_on(t) == (CanopyKind::Gallery, t),
{
}

} // verus!
