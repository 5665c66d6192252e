//! P100 Pedestrian Street — a pedestrian street needs many real entrances
//! along it, not a blank wall punctuated by one or two doors.
//!
//! The operator's own description and source citation stand here; what it
//! decides without measuring geometry stands beside them.

use vstd::prelude::*;

use crate::citation::{cite, CitationView, SourceCitation};
use crate::operator::PatternOperator;
use crate::text::str_eq;

verus! {

/// The operator.
pub struct P100PedestrianStreet;

/// The operator's name.
pub const NAME: &'static str = "p100_pedestrian_street";

/// The operator's one-line description.
pub const DESCRIPTION: &'static str = "Adds ground-floor door entrances to buildings adjacent to pedestrian streets, targeting a walkable-frontage entrance density per P100.";

/// The id of the source the operator cites.
pub const SOURCE_ID: &'static str = "alexander_apl_p100";

/// The display text of the source the operator cites.
pub const SOURCE_DISPLAY: &'static str = "Alexander et al., A Pattern Language, Pattern 100 (Pedestrian Street)";

/// The link to the source the operator cites.
pub const SOURCE_URL: &'static str = "https://patternlanguage.cc/Patterns/Pedestrian-Street-(100)";

impl PatternOperator for P100PedestrianStreet {
    fn name(&self) -> (r: &'static str)
        ensures
            r@ == NAME@,
    {
        NAME
    }

    fn description(&self) -> (r: &'static str)
        ensures
            r@ == DESCRIPTION@,
    {
        DESCRIPTION
    }

    fn source(&self) -> (r: SourceCitation)
        ensures
            r@ == (CitationView { id: SOURCE_ID@, display: SOURCE_DISPLAY@, url: Some(SOURCE_URL@) }),
    {
        cite(SOURCE_ID, SOURCE_DISPLAY, SOURCE_URL)
    }
}

/// The candidates in `ranked[0..j]` that are not in `given`, in order.
pub open spec fn unclaimed_upto(ranked: Seq<usize>, given: Seq<usize>, j: int) -> Seq<usize>
    decreases j,
{
    if j <= 0 {
        Seq::empty()
    } else {
        let prior = unclaimed_upto(ranked, given, j - 1);
        if given.contains(ranked[j - 1]) {
            prior
        } else {
            prior.push(ranked[j - 1])
        }
    }
}

/// The buildings `list[0..j]` adds, in order: each one that neither
/// `given` nor an earlier entry already holds.
pub open spec fn picks_upto(list: Seq<usize>, given: Seq<usize>, j: int) -> Seq<usize>
    decreases j,
{
    if j <= 0 {
        Seq::empty()
    } else {
        let prior = picks_upto(list, given, j - 1);
        if (given + prior).contains(list[j - 1]) {
            prior
        } else {
            prior.push(list[j - 1])
        }
    }
}

/// The buildings that get a door while one street is served: its
/// candidates (nearest first) that have no new door yet, cut to the
/// number of doors the street still needs.
pub open spec fn street_doors(ranked: Seq<usize>, needed: usize, given: Seq<usize>) -> Seq<usize> {
    let candidates = unclaimed_upto(ranked, given, ranked.len() as int);
    let m = if (needed as int) < candidates.len() {
        needed as int
    } else {
        candidates.len() as int
    };
    picks_upto(candidates, given, m)
}

/// Every building that has been given a door, street after street.
pub open spec fn claimed(doors: Seq<Seq<usize>>) -> Seq<usize>
    decreases doors.len(),
{
    if doors.len() == 0 {
        Seq::empty()
    } else {
        claimed(doors.drop_last()) + doors.last()
    }
}

/// The doors given while serving the first `s` streets, in street order.
pub open spec fn door_allocation(needed: Seq<usize>, ranked: Seq<Seq<usize>>, s: int) -> Seq<Seq<usize>>
    decreases s,
{
    if s <= 0 {
        Seq::empty()
    } else {
        let prior = door_allocation(needed, ranked, s - 1);
        prior.push(street_doors(ranked[s - 1], needed[s - 1], claimed(prior)))
    }
}

/// The views of nested vectors.
pub open spec fn nested_view(v: Seq<Vec<usize>>) -> Seq<Seq<usize>> {
    v.map_values(|x: Vec<usize>| x@)
}

/// Whether `list` holds `x`.
fn holds_index(list: &Vec<usize>, x: usize) -> (r: bool)
    ensures
        r == list@.contains(x),
{
    let n = list.len();
    let mut i: usize = 0;
    while i < n
        invariant
            n == list@.len(),
            i <= n,
            forall|j: int| 0 <= j < i ==> list@[j] != x,
        decreases n - i,
    {
        if list[i] == x {
            return true;
        }
        i = i + 1;
    }
    false
}

/// Decides which buildings get a new ground-floor door. Streets are served
/// in order; street `s` still needs `needed[s]` entrances, and
/// `ranked[s]` lists the doorless buildings beside it, nearest first. Each
/// street takes its nearest candidates that have no new door yet, up to
/// what it needs; a building gets at most one new door over the whole run.
/// Returns, per street, the buildings given a door while serving it.
pub fn allocate_doors(needed: &Vec<usize>, ranked: &Vec<Vec<usize>>) -> (doors: Vec<Vec<usize>>)
    requires
        needed@.len() == ranked@.len(),
    ensures
        nested_view(doors@) == door_allocation(needed@, nested_view(ranked@), needed@.len() as int),
{
    let ghost rv = nested_view(ranked@);
    let n = needed.len();
    let mut doors: Vec<Vec<usize>> = Vec::new();
    let mut given: Vec<usize> = Vec::new();
    let mut s: usize = 0;
    while s < n
        invariant
            n == needed@.len(),
            n == ranked@.len(),
            rv == nested_view(ranked@),
            s <= n,
            nested_view(doors@) == door_allocation(needed@, rv, s as int),
            given@ == claimed(nested_view(doors@)),
        decreases n - s,
    {
        let street = &ranked[s];
        assert(street@ == rv[s as int]);
        let mut candidates: Vec<usize> = Vec::new();
        let m = street.len();
        let mut j: usize = 0;
        while j < m
            invariant
                m == street@.len(),
                j <= m,
                candidates@ == unclaimed_upto(street@, given@, j as int),
            decreases m - j,
        {
            let b = street[j];
            if !holds_index(&given, b) {
                candidates.push(b);
            }
            j = j + 1;
        }
        let want = needed[s];
        let limit = if want < candidates.len() { want } else { candidates.len() };
        let ghost start = given@;
        let mut picks: Vec<usize> = Vec::new();
        let mut k: usize = 0;
        while k < limit
            invariant
                limit <= candidates@.len(),
                k <= limit,
                picks@ == picks_upto(candidates@, start, k as int),
                given@ == start + picks@,
            decreases limit - k,
        {
            let b = candidates[k];
            if !holds_index(&given, b) {
                picks.push(b);
                given.push(b);
                assert(given@ =~= start + picks@);
            }
            k = k + 1;
        }
        proof {
            assert(picks@ == street_doors(rv[s as int], needed@[s as int], start));
        }
        let ghost prior = doors@;
        doors.push(picks);
        proof {
            assert(nested_view(doors@) =~= nested_view(prior).push(picks@));
            assert(nested_view(doors@).drop_last() =~= nested_view(prior));
            assert(given@ == claimed(nested_view(doors@)));
        }
        s = s + 1;
    }
    doors
}

proof fn lemma_unclaimed(ranked: Seq<usize>, given: Seq<usize>, j: int)
    requires
        0 <= j <= ranked.len(),
    ensures
        forall|x: usize| #[trigger] unclaimed_upto(ranked, given, j).contains(x) ==> ranked.take(j).contains(x)
            && !given.contains(x),
        forall|i: int| 0 <= i < j && !given.contains(ranked[i]) ==> unclaimed_upto(ranked, given, j).contains(
            #[trigger] ranked[i],
        ),
        ranked.take(j).no_duplicates() ==> unclaimed_upto(ranked, given, j).no_duplicates(),
    decreases j,
{
    if j > 0 {
        let jm = j - 1;
        lemma_unclaimed(ranked, given, jm);
        let prior = unclaimed_upto(ranked, given, j - 1);
        let cur = unclaimed_upto(ranked, given, j);
        assert(ranked.take(j - 1) =~= ranked.take(j).drop_last());
        assert forall|x: usize| #[trigger] cur.contains(x) implies ranked.take(j).contains(x) && !given.contains(x) by {
            let w = choose|w: int| 0 <= w < cur.len() && cur[w] == x;
            if w < prior.len() {
                assert(prior[w] == x);
                assert(prior.contains(x));
                let v = choose|v: int| 0 <= v < jm && ranked.take(jm)[v] == x;
                assert(ranked.take(j)[v] == x);
            } else {
                assert(ranked.take(j)[j - 1] == x);
            }
        }
        assert forall|i: int| 0 <= i < j && !given.contains(ranked[i]) implies cur.contains(#[trigger] ranked[i]) by {
            if i < j - 1 {
                assert(prior.contains(ranked[i]));
                let w = choose|w: int| 0 <= w < prior.len() && prior[w] == ranked[i];
                assert(cur[w] == ranked[i]);
            } else {
                assert(cur[prior.len() as int] == ranked[i]);
            }
        }
        if ranked.take(j).no_duplicates() {
            assert(ranked.take(j - 1).no_duplicates()) by {
                let shorter = ranked.take(jm);
                assert forall|a: int, b: int| 0 <= a < jm && 0 <= b < jm && a != b implies #[trigger] shorter[a]
                    != #[trigger] shorter[b] by {
                    assert(ranked.take(j)[a] == shorter[a]);
                    assert(ranked.take(j)[b] == shorter[b]);
                }
            }
            if !given.contains(ranked[j - 1]) {
                assert(!prior.contains(ranked[j - 1])) by {
                    if prior.contains(ranked[j - 1]) {
                        let v = choose|v: int| 0 <= v < jm && ranked.take(jm)[v] == ranked[jm];
                        assert(ranked.take(j)[v] == ranked.take(j)[j - 1]);
                    }
                }
                assert forall|a: int, b: int| 0 <= a < cur.len() && 0 <= b < cur.len() && a != b implies cur[a]
                    != cur[b] by {
                    if a == prior.len() {
                        assert(prior.contains(cur[b]));
                    } else if b == prior.len() {
                        assert(prior.contains(cur[a]));
                    }
                }
            }
        }
    }
}

proof fn lemma_picks(list: Seq<usize>, given: Seq<usize>, j: int)
    requires
        0 <= j <= list.len(),
    ensures
        picks_upto(list, given, j).len() <= j,
        forall|x: usize| #[trigger] picks_upto(list, given, j).contains(x) ==> list.contains(x) && !given.contains(x),
        picks_upto(list, given, j).no_duplicates(),
        list.take(j).no_duplicates() && (forall|i: int| 0 <= i < j ==> !given.contains(#[trigger] list[i]))
            ==> picks_upto(list, given, j) == list.take(j),
    decreases j,
{
    if j > 0 {
        let jm = j - 1;
        lemma_picks(list, given, jm);
        let prior = picks_upto(list, given, j - 1);
        let cur = picks_upto(list, given, j);
        let x = list[j - 1];
        if !(given + prior).contains(x) {
            assert(!prior.contains(x)) by {
                if prior.contains(x) {
                    let w = choose|w: int| 0 <= w < prior.len() && prior[w] == x;
                    assert((given + prior)[given.len() + w] == x);
                }
            }
            assert(!given.contains(x)) by {
                if given.contains(x) {
                    let w = choose|w: int| 0 <= w < given.len() && given[w] == x;
                    assert((given + prior)[w] == x);
                }
            }
            assert forall|y: usize| #[trigger] cur.contains(y) implies list.contains(y) && !given.contains(y) by {
                let w = choose|w: int| 0 <= w < cur.len() && cur[w] == y;
                if w < prior.len() {
                    assert(prior[w] == y);
                    assert(prior.contains(y));
                }
            }
            assert forall|a: int, b: int| 0 <= a < cur.len() && 0 <= b < cur.len() && a != b implies cur[a]
                != cur[b] by {
                if a == prior.len() {
                    assert(prior.contains(cur[b]));
                } else if b == prior.len() {
                    assert(prior.contains(cur[a]));
                }
            }
        }
        if list.take(j).no_duplicates() && (forall|i: int| 0 <= i < j ==> !given.contains(#[trigger] list[i])) {
            assert(list.take(j - 1).no_duplicates()) by {
                let shorter = list.take(jm);
                assert forall|a: int, b: int| 0 <= a < jm && 0 <= b < jm && a != b implies #[trigger] shorter[a]
                    != #[trigger] shorter[b] by {
                    assert(list.take(j)[a] == shorter[a]);
                    assert(list.take(j)[b] == shorter[b]);
                }
            }
            assert(prior == list.take(j - 1));
            assert(!(given + prior).contains(x)) by {
                if (given + prior).contains(x) {
                    let w = choose|w: int| 0 <= w < (given + prior).len() && (given + prior)[w] == x;
                    if w < given.len() {
                        assert(given[w] == x);
                    } else {
                        assert(list.take(j)[w - given.len()] == list.take(j)[j - 1]);
                    }
                }
            }
            assert(cur =~= list.take(j));
        }
    }
}

proof fn lemma_allocation_shape(needed: Seq<usize>, ranked: Seq<Seq<usize>>, s: int)
    requires
        0 <= s,
    ensures
        door_allocation(needed, ranked, s).len() == s,
        forall|t: int|
            0 <= t < s ==> #[trigger] door_allocation(needed, ranked, s)[t] == street_doors(
                ranked[t],
                needed[t],
                claimed(door_allocation(needed, ranked, t)),
            ),
        forall|t: int| 0 <= t <= s ==> #[trigger] door_allocation(needed, ranked, s).take(t) == door_allocation(needed, ranked, t),
    decreases s,
{
    if s > 0 {
        lemma_allocation_shape(needed, ranked, s - 1);
        let prior = door_allocation(needed, ranked, s - 1);
        let cur = door_allocation(needed, ranked, s);
        assert forall|t: int| 0 <= t <= s implies #[trigger] cur.take(t) == door_allocation(needed, ranked, t) by {
            if t == s {
                assert(cur.take(t) =~= cur);
            } else {
                assert(cur.take(t) =~= prior.take(t));
            }
        }
    }
}

/// Each building gets at most one new door over the whole run, however
/// many streets it stands beside; each street gets at most the doors it
/// needs, and only from its own candidates; and a street left short
/// (whose candidate list names no building twice) had every one of its
/// candidates already given a door by the time it was served.
pub proof fn law_one_new_door_per_building(needed: Seq<usize>, ranked: Seq<Seq<usize>>, s: int)
    requires
        0 <= s <= needed.len(),
        needed.len() == ranked.len(),
    ensures
        claimed(door_allocation(needed, ranked, s)).no_duplicates(),
        forall|t: int| 0 <= t < s ==> (#[trigger] door_allocation(needed, ranked, s)[t]).len() <= needed[t],
        forall|t: int, x: usize|
            0 <= t < s && #[trigger] door_allocation(needed, ranked, s)[t].contains(x) ==> ranked[t].contains(x),
        forall|t: int|
            0 <= t < s && ranked[t].no_duplicates() && (#[trigger] door_allocation(needed, ranked, s)[t]).len()
                < needed[t] ==> forall|i: int|
                0 <= i < ranked[t].len() ==> claimed(door_allocation(needed, ranked, t + 1)).contains(
                    #[trigger] ranked[t][i],
                ),
    decreases s,
{
    lemma_allocation_shape(needed, ranked, s);
    if s > 0 {
        law_one_new_door_per_building(needed, ranked, s - 1);
        let prior = door_allocation(needed, ranked, s - 1);
        let cur = door_allocation(needed, ranked, s);
        let t = s - 1;
        let given = claimed(prior);
        let r = ranked[t];
        let cands = unclaimed_upto(r, given, r.len() as int);
        lemma_unclaimed(r, given, r.len() as int);
        assert(r.take(r.len() as int) =~= r);
        let m = if (needed[t] as int) < cands.len() { needed[t] as int } else { cands.len() as int };
        lemma_picks(cands, given, m);
        let picks = cur[t];
        assert(picks == picks_upto(cands, given, m));
        assert(cur.drop_last() =~= prior);
        assert(claimed(cur) == given + picks);
        assert(claimed(cur).no_duplicates()) by {
            assert forall|a: int, b: int| 0 <= a < claimed(cur).len() && 0 <= b < claimed(cur).len() && a != b implies claimed(
                cur,
            )[a] != claimed(cur)[b] by {
                let all = given + picks;
                if a < given.len() && b >= given.len() {
                    assert(picks.contains(all[b]));
                    assert(given.contains(all[a]));
                } else if b < given.len() && a >= given.len() {
                    assert(picks.contains(all[a]));
                    assert(given.contains(all[b]));
                } else if a >= given.len() && b >= given.len() {
                    assert(all[a] == picks[a - given.len()]);
                    assert(all[b] == picks[b - given.len()]);
                }
            }
        }
        assert forall|x: usize| #[trigger] cur[t].contains(x) implies r.contains(x) by {
            assert(cands.contains(x));
            let v = choose|v: int| 0 <= v < r.len() && r.take(r.len() as int)[v] == x;
            assert(r[v] == x);
        }
        if r.no_duplicates() && picks.len() < needed[t] {
            assert(cands.take(m).no_duplicates()) by {
                assert forall|a: int, b: int| 0 <= a < m && 0 <= b < m && a != b implies cands.take(m)[a]
                    != cands.take(m)[b] by {
                    assert(cands.take(m)[a] == cands[a] && cands.take(m)[b] == cands[b]);
                }
            }
            assert forall|i: int| 0 <= i < m implies !given.contains(#[trigger] cands[i]) by {
                assert(cands.contains(cands[i]));
            }
            assert(picks == cands.take(m));
            assert(m == cands.len());
            assert(cur.take(t + 1) =~= cur);
            assert forall|i: int| 0 <= i < r.len() implies claimed(door_allocation(needed, ranked, t + 1)).contains(
                #[trigger] r[i],
            ) by {
                let all = given + picks;
                if given.contains(r[i]) {
                    let w = choose|w: int| 0 <= w < given.len() && given[w] == r[i];
                    assert(all[w] == r[i]);
                } else {
                    assert(cands.contains(r[i]));
                    let w = choose|w: int| 0 <= w < cands.len() && cands[w] == r[i];
                    assert(picks[w] == r[i]);
                    assert(all[given.len() + w] == r[i]);
                }
            }
        }
        assert forall|u: int|
            0 <= u < s && ranked[u].no_duplicates() && (#[trigger] cur[u]).len() < needed[u] implies forall|i: int|
            0 <= i < ranked[u].len() ==> claimed(door_allocation(needed, ranked, u + 1)).contains(
                #[trigger] ranked[u][i],
            ) by {
            if u < t {
                assert(cur[u] == prior[u]);
            }
        }
        assert forall|u: int, x: usize| 0 <= u < s && #[trigger] cur[u].contains(x) implies ranked[u].contains(x) by {
            if u < t {
                assert(cur[u] == prior[u]);
            }
        }
        assert forall|u: int| 0 <= u < s implies (#[trigger] cur[u]).len() <= needed[u] by {
            if u < t {
                assert(cur[u] == prior[u]);
            }
        }
    }
}

/// A street with this classification is a pedestrian street.
pub open spec fn pedestrian(classification: Option<String>) -> bool {
    match classification {
        Some(c) => c@ == "pedestrian"@,
        None => false,
    }
}

/// Whether a street with this classification is a pedestrian street, the
/// only kind this operator adds entrances along.
pub fn is_pedestrian(classification: &Option<String>) -> (r: bool)
    ensures
        r == pedestrian(*classification),
{
    match classification {
        Some(c) => str_eq(c.as_str(), "pedestrian"),
        None => false,
    }
}

} // verus!
