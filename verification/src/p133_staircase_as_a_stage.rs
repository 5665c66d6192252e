//! P133 Staircase as a Stage — carve a real stair-core cell out of the
//! building's own common area (the cell `p129_common_areas_at_the_heart`
//! flagged `is_common`), instead of leaving every multi-story building
//! with no vertical circulation modeled at all.
//!
//! The operator's own description and source citation stand here; what it
//! decides without measuring geometry stands beside them.

use vstd::prelude::*;

use crate::citation::{cite, CitationView, SourceCitation};
use crate::interior::{links_view, mirrored, push_link, with_link};
use crate::operator::PatternOperator;

verus! {

/// The operator.
pub struct P133StaircaseAsAStage;

/// The operator's one-line description.
pub const DESCRIPTION: &'static str = "Carve a real stair-core strip out of the common-area cell of every multi-story building, open to the room it interrupts.";

/// The id of the source the operator cites.
pub const SOURCE_ID: &'static str = "alexander_apl_133";

/// The display text of the source the operator cites.
pub const SOURCE_DISPLAY: &'static str = "Alexander et al., A Pattern Language, Pattern 133 (Staircase as a Stage) -- \
                      paraphrased; patternlanguage.com's sample pages for this pattern 404'd \
                      this session, see this operator's own module doc.";

/// The link to the source the operator cites.
pub const SOURCE_URL: &'static str = "https://www.patternlanguage.com/apl/direct-133.htm";

impl PatternOperator for P133StaircaseAsAStage {
    fn name(&self) -> (r: &'static str)
        ensures
            r@ == crate::language_graph::P133_STAIRCASE_AS_A_STAGE@,
    {
        crate::language_graph::P133_STAIRCASE_AS_A_STAGE
    }

    fn description(&self) -> (r: &'static str)
        ensures
            r@ == DESCRIPTION@,
    {
        DESCRIPTION
    }

    fn source(&self) -> (r: SourceCitation)
        ensures
            r@ == (CitationView { id: SOURCE_ID@, display: SOURCE_DISPLAY@, url: Some(SOURCE_URL@) }),
    {
        cite(SOURCE_ID, SOURCE_DISPLAY, SOURCE_URL)
    }
}

/// The story count a building is taken to have when it records none.
pub open spec fn stories(floors: Option<u32>) -> u32 {
    match floors {
        Some(f) => f,
        None => 1,
    }
}

/// A building gets a stair core when it has more than one story and one of
/// its cells is marked as the common area.
pub fn is_stair_candidate(floors: Option<u32>, is_common: &Vec<bool>) -> (r: bool)
    ensures
        r == (stories(floors) >= 2 && is_common@.contains(true)),
        r <==> ((floors matches Some(f) && f >= 2) && exists|i: int| 0 <= i < is_common@.len() && is_common@[i]),
{
    let f = match floors {
        Some(f) => f,
        None => 1,
    };
    if f < 2 {
        return false;
    }
    let found = first_common_cell(is_common);
    proof {
        law_stair_needs_two_recorded_stories_and_a_common_cell(floors, is_common@);
    }
    found.is_some()
}

/// A building is a stair candidate exactly when it records at least two
/// floors and one of its cells is common: a building recording no floors
/// counts as one story and never qualifies.
pub proof fn law_stair_needs_two_recorded_stories_and_a_common_cell(floors: Option<u32>, is_common: Seq<bool>)
    ensures
        (stories(floors) >= 2 && is_common.contains(true)) <==> ((floors matches Some(f) && f >= 2) && exists|i: int|
            0 <= i < is_common.len() && is_common[i]),
        floors is None ==> stories(floors) == 1,
        floors matches Some(f) ==> stories(floors) == f,
{
    if exists|i: int| 0 <= i < is_common.len() && is_common[i] {
        let i = choose|i: int| 0 <= i < is_common.len() && is_common[i];
        assert(is_common[i] == true);
    }
}

/// The first cell marked as the common area, if any.
pub fn first_common_cell(is_common: &Vec<bool>) -> (r: Option<usize>)
    ensures
        match r {
            Some(i) => i < is_common@.len() && is_common@[i as int] && forall|j: int|
                0 <= j < i ==> !#[trigger] is_common@[j],
            None => !is_common@.contains(true),
        },
{
    let n = is_common.len();
    let mut i: usize = 0;
    while i < n
        invariant
            n == is_common@.len(),
            i <= n,
            forall|j: int| 0 <= j < i ==> !#[trigger] is_common@[j],
        decreases n - i,
    {
        if is_common[i] {
            return Some(i);
        }
        i = i + 1;
    }
    assert(!is_common@.contains(true)) by {
        if is_common@.contains(true) {
            let j = choose|j: int| 0 <= j < is_common@.len() && is_common@[j] == true;
            assert(!is_common@[j]);
        }
    }
    None
}

/// `links` after a stair cell (the new last cell) is carved out of the
/// common cell: the stair opens into the common cell and the common cell
/// into the stair.
pub open spec fn stair_view(links: Seq<Seq<usize>>, common: usize) -> Seq<Seq<usize>> {
    with_link(links.push(seq![common]), common, links.len() as usize)
}

/// Adds the stair cell carved from cell `common`; returns its index.
pub fn add_stair(links: &mut Vec<Vec<usize>>, common: usize) -> (stair: usize)
    requires
        common < old(links)@.len(),
        old(links)@.len() < usize::MAX,
    ensures
        stair == old(links)@.len(),
        links_view(final(links)@) == stair_view(links_view(old(links)@), common),
{
    let stair = links.len();
    let mut cell: Vec<usize> = Vec::new();
    cell.push(common);
    assert(cell@ =~= seq![common]);
    links.push(cell);
    proof {
        assert(links_view(links@) =~= links_view(old(links)@).push(seq![common]));
    }
    push_link(links, common, stair);
    stair
}

/// Carving the stair keeps every door opening from both sides: the common
/// cell opens into the stair, and the stair back into the common cell.
pub proof fn law_stair_opens_to_and_from_the_common_cell(links: Seq<Seq<usize>>, common: usize)
    requires
        mirrored(links),
        common < links.len(),
        links.len() < usize::MAX,
    ensures
        mirrored(stair_view(links, common)),
        stair_view(links, common)[links.len() as int] == seq![common],
        stair_view(links, common)[common as int].contains(links.len() as usize),
{
    let s = links.len() as usize;
    let v = stair_view(links, common);
    assert(v[common as int][links[common as int].len() as int] == s);
    assert forall|x: int, k: int| 0 <= x < v.len() && 0 <= k < v[x].len() implies {
        let y = #[trigger] v[x][k] as int;
        0 <= y < v.len() && v[y].contains(x as usize)
    } by {
        let y = v[x][k] as int;
        if x == s as int {
            assert(y == common as int);
        } else if x == common as int && k == links[x].len() {
            assert(v[y][0] == x as usize);
        } else {
            assert(v[x][k] == links[x][k]);
            let w = choose|w: int| 0 <= w < links[y].len() && links[y][w] == x as usize;
            assert(v[y][w] == x as usize);
        }
    }
}

} // verus!
