//! P165 Opening to the Street — a building's public-facing wall should be
//! substantially open (windows, doors), not a blank face broken only by
//! a single narrow entrance.
//!
//! The operator's own description and source citation stand here; what it
//! decides without measuring geometry stands beside them.

use vstd::prelude::*;

use crate::citation::{cite, CitationView, SourceCitation};
use crate::operator::PatternOperator;

verus! {

/// The operator.
pub struct P165OpeningToTheStreet;

/// The operator's name.
pub const NAME: &'static str = "p165_opening_to_the_street";

/// The operator's one-line description.
pub const DESCRIPTION: &'static str = "Adds ground-floor window openings to building facades to reach target street-facing wall coverage.";

/// The id of the source the operator cites.
pub const SOURCE_ID: &'static str = "alexander_apl_p165";

/// The display text of the source the operator cites.
pub const SOURCE_DISPLAY: &'static str = "Alexander et al., A Pattern Language, Pattern 165 (Opening to the Street)";

/// The link to the source the operator cites.
pub const SOURCE_URL: &'static str = "https://patternlanguage.cc/Patterns/Opening-to-the-Street-(165)";

impl PatternOperator for P165OpeningToTheStreet {
    fn name(&self) -> (r: &'static str)
        ensures
            r@ == NAME@,
    {
        NAME
    }

    fn description(&self) -> (r: &'static str)
        ensures
            r@ == DESCRIPTION@,
    {
        DESCRIPTION
    }

    fn source(&self) -> (r: SourceCitation)
        ensures
            r@ == (CitationView { id: SOURCE_ID@, display: SOURCE_DISPLAY@, url: Some(SOURCE_URL@) }),
    {
        cite(SOURCE_ID, SOURCE_DISPLAY, SOURCE_URL)
    }
}

/// Slot `i`'s span overlaps the span of some slot already placed.
pub open spec fn clashes(overlaps: Seq<Seq<bool>>, i: int, placed: Seq<usize>) -> bool {
    exists|k: int| 0 <= k < placed.len() && #[trigger] overlaps[i][placed[k] as int]
}

/// The slots placed among the first `i` candidate slots along the door's
/// wall, in order: each slot that is usable (inside the wall and clear of
/// the door and of the windows already there) and clear of every slot
/// placed before it, until `needed` windows stand.
pub open spec fn placed_upto(needed: nat, usable: Seq<bool>, overlaps: Seq<Seq<bool>>, i: int) -> Seq<usize>
    decreases i,
{
    if i <= 0 {
        Seq::empty()
    } else {
        let prior = placed_upto(needed, usable, overlaps, i - 1);
        if prior.len() < needed && usable[i - 1] && !clashes(overlaps, i - 1, prior) {
            prior.push((i - 1) as usize)
        } else {
            prior
        }
    }
}

/// Whether slot `i` overlaps one of `placed`.
fn clashes_with_placed(overlaps: &Vec<Vec<bool>>, i: usize, placed: &Vec<usize>) -> (r: bool)
    requires
        i < overlaps@.len(),
        forall|k: int| 0 <= k < placed@.len() ==> (placed@[k] as int) < overlaps@[i as int]@.len(),
    ensures
        r == clashes(nested_view(overlaps@), i as int, placed@),
{
    let row = &overlaps[i];
    let n = placed.len();
    let mut k: usize = 0;
    while k < n
        invariant
            n == placed@.len(),
            k <= n,
            i < overlaps@.len(),
            row@ == overlaps@[i as int]@,
            forall|j: int| 0 <= j < placed@.len() ==> (placed@[j] as int) < row@.len(),
            forall|j: int| 0 <= j < k ==> !row@[placed@[j] as int],
        decreases n - k,
    {
        if row[placed[k]] {
            assert(nested_view(overlaps@)[i as int] == row@);
            assert(nested_view(overlaps@)[i as int][placed@[k as int] as int]);
            return true;
        }
        k = k + 1;
    }
    proof {
        assert forall|j: int| 0 <= j < placed@.len() implies !#[trigger] nested_view(overlaps@)[i as int][placed@[j] as int] by {
            assert(nested_view(overlaps@)[i as int] == row@);
        }
    }
    false
}

/// The views of nested vectors.
pub open spec fn nested_view<T>(v: Seq<Vec<T>>) -> Seq<Seq<T>> {
    v.map_values(|x: Vec<T>| x@)
}

/// Chooses where the new windows go along a door's wall. The candidate
/// slots are evenly spread along the wall and tried in order; `usable[i]`
/// says slot `i` lies inside the wall and clear of the door and of the
/// windows already on it, and `overlaps[i][j]` says slot `i`'s span
/// overlaps slot `j`'s. A slot is taken when it is usable and clear of
/// every slot taken before it, until `needed` windows stand. Returns the
/// slots taken, in order.
pub fn place_windows(needed: usize, usable: &Vec<bool>, overlaps: &Vec<Vec<bool>>) -> (placed: Vec<usize>)
    requires
        overlaps@.len() == usable@.len(),
        forall|i: int| 0 <= i < overlaps@.len() ==> #[trigger] overlaps@[i]@.len() == usable@.len(),
    ensures
        placed@ == placed_upto(needed as nat, usable@, nested_view(overlaps@), usable@.len() as int),
{
    let ghost ov = nested_view(overlaps@);
    let n = usable.len();
    let mut placed: Vec<usize> = Vec::new();
    let mut i: usize = 0;
    while i < n
        invariant
            n == usable@.len(),
            n == overlaps@.len(),
            forall|j: int| 0 <= j < overlaps@.len() ==> #[trigger] overlaps@[j]@.len() == usable@.len(),
            ov == nested_view(overlaps@),
            i <= n,
            placed@ == placed_upto(needed as nat, usable@, ov, i as int),
            forall|k: int| 0 <= k < placed@.len() ==> (placed@[k] as int) < i,
        decreases n - i,
    {
        if placed.len() < needed && usable[i] {
            let hit = clashes_with_placed(overlaps, i, &placed);
            if !hit {
                placed.push(i);
            }
        }
        i = i + 1;
    }
    placed
}

proof fn lemma_placed(needed: nat, usable: Seq<bool>, overlaps: Seq<Seq<bool>>, i: int)
    requires
        0 <= i <= usable.len(),
        usable.len() <= usize::MAX,
    ensures
        placed_upto(needed, usable, overlaps, i).len() <= needed,
        forall|a: int, b: int|
            0 <= a < b < placed_upto(needed, usable, overlaps, i).len() ==> placed_upto(needed, usable, overlaps, i)[a]
                < placed_upto(needed, usable, overlaps, i)[b],
        forall|a: int|
            0 <= a < placed_upto(needed, usable, overlaps, i).len() ==> {
                let s = #[trigger] placed_upto(needed, usable, overlaps, i)[a] as int;
                0 <= s < i && usable[s] && forall|b: int|
                    0 <= b < a ==> !overlaps[s][placed_upto(needed, usable, overlaps, i)[b] as int]
            },
        placed_upto(needed, usable, overlaps, i).len() < needed ==> forall|s: int|
            0 <= s < i && usable[s] && !placed_upto(needed, usable, overlaps, i).contains(s as usize) ==> clashes(
                overlaps,
                s,
                placed_upto(needed, usable, overlaps, i),
            ),
    decreases i,
{
    if i > 0 {
        lemma_placed(needed, usable, overlaps, i - 1);
        let prior = placed_upto(needed, usable, overlaps, i - 1);
        let cur = placed_upto(needed, usable, overlaps, i);
        if prior.len() < needed && usable[i - 1] && !clashes(overlaps, i - 1, prior) {
            assert forall|a: int| 0 <= a < prior.len() implies cur[a] == prior[a] by {}
            assert forall|s: int|
                0 <= s < i && usable[s] && !cur.contains(s as usize) && cur.len() < needed implies clashes(
                overlaps,
                s,
                cur,
            ) by {
                assert(s != i - 1) by {
                    assert(cur[prior.len() as int] == (i - 1) as usize);
                }
                assert(!prior.contains(s as usize)) by {
                    if prior.contains(s as usize) {
                        let w = choose|w: int| 0 <= w < prior.len() && prior[w] == s as usize;
                        assert(cur[w] == s as usize);
                    }
                }
                let k = choose|k: int| 0 <= k < prior.len() && #[trigger] overlaps[s][prior[k] as int];
                assert(cur[k] == prior[k]);
            }
        } else {
            assert forall|s: int|
                0 <= s < i && usable[s] && !cur.contains(s as usize) && cur.len() < needed implies clashes(
                overlaps,
                s,
                cur,
            ) by {
                if s == i - 1 {
                    assert(clashes(overlaps, i - 1, prior));
                }
            }
        }
    }
}

/// The placed windows are usable slots, in increasing order, no more than
/// needed, and no two of them overlap (each is clear of every slot placed
/// before it). When fewer than needed could be placed, every usable slot
/// left out overlaps a placed one: the wall had no more room.
pub proof fn law_placed_windows_never_overlap(needed: nat, usable: Seq<bool>, overlaps: Seq<Seq<bool>>)
    requires
        usable.len() <= usize::MAX,
    ensures
        placed_upto(needed, usable, overlaps, usable.len() as int).len() <= needed,
        forall|a: int, b: int|
            #![trigger placed_upto(needed, usable, overlaps, usable.len() as int)[a], placed_upto(needed, usable, overlaps, usable.len() as int)[b]]
            0 <= a < b < placed_upto(needed, usable, overlaps, usable.len() as int).len() ==> {
                let first = placed_upto(needed, usable, overlaps, usable.len() as int)[a] as int;
                let second = placed_upto(needed, usable, overlaps, usable.len() as int)[b] as int;
                first < second && usable[first] && usable[second] && !overlaps[second][first]
            },
        placed_upto(needed, usable, overlaps, usable.len() as int).len() < needed ==> forall|s: int|
            0 <= s < usable.len() && usable[s] && !placed_upto(needed, usable, overlaps, usable.len() as int).contains(
                s as usize,
            ) ==> clashes(overlaps, s, placed_upto(needed, usable, overlaps, usable.len() as int)),
{
    lemma_placed(needed, usable, overlaps, usable.len() as int);
    let placed = placed_upto(needed, usable, overlaps, usable.len() as int);
    assert forall|a: int, b: int| #![trigger placed[a], placed[b]] 0 <= a < b < placed.len() implies {
        let first = placed[a] as int;
        let second = placed[b] as int;
        first < second && usable[first] && usable[second] && !overlaps[second][first]
    } by {
        let s = placed[b] as int;
        let t = placed[a] as int;
        assert(0 <= s < usable.len() && usable[s]);
        assert(0 <= t < usable.len() && usable[t]);
    }
}

} // verus!
