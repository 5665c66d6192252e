//! P124 Activity Pockets — a real, small, partly enclosed bump projecting
//! from a building's own footprint into the open space at the point it
//! borders a real Plaza, not just a proxy for "buildings are near
//! squares."
//!
//! The operator's own description and source citation stand here; what it
//! decides without measuring geometry stands beside them.

use vstd::prelude::*;

use crate::citation::{cite, CitationView, SourceCitation};
use crate::operator::PatternOperator;

verus! {

/// The operator.
pub struct P124ActivityPockets;

/// The operator's one-line description.
pub const DESCRIPTION: &'static str = "Bumps a small, real, partly enclosed pocket out from each of up to max_pockets_per_plaza buildings bordering a real Plaza.";

/// The id of the source the operator cites.
pub const SOURCE_ID: &'static str = "alexander_apl_p124";

/// The display text of the source the operator cites.
pub const SOURCE_DISPLAY: &'static str = "Alexander et al., A Pattern Language, Pattern 124 (Activity Pockets)";

/// The link to the source the operator cites.
pub const SOURCE_URL: &'static str = "https://patternlanguage.cc/Patterns/Activity-Pockets-(124)";

impl PatternOperator for P124ActivityPockets {
    fn name(&self) -> (r: &'static str)
        ensures
            r@ == crate::language_graph::P124_ACTIVITY_POCKETS@,
    {
        crate::language_graph::P124_ACTIVITY_POCKETS
    }

    fn description(&self) -> (r: &'static str)
        ensures
            r@ == DESCRIPTION@,
    {
        DESCRIPTION
    }

    fn source(&self) -> (r: SourceCitation)
        ensures
            r@ == (CitationView { id: SOURCE_ID@, display: SOURCE_DISPLAY@, url: Some(SOURCE_URL@) }),
    {
        cite(SOURCE_ID, SOURCE_DISPLAY, SOURCE_URL)
    }
}

/// The buildings a plaza gets pockets from, among `ranked[0..j]` (the
/// buildings bordering it, nearest first): each one no earlier plaza took
/// whose pocket fits, until the plaza has `max_per_plaza`.
pub open spec fn plaza_picks(ranked: Seq<usize>, fits: Seq<bool>, taken: Seq<usize>, max_per_plaza: nat, j: int) -> Seq<usize>
    decreases j,
{
    if j <= 0 {
        Seq::empty()
    } else {
        let prior = plaza_picks(ranked, fits, taken, max_per_plaza, j - 1);
        if taken.contains(ranked[j - 1]) || prior.len() >= max_per_plaza || !fits[j - 1] {
            prior
        } else {
            prior.push(ranked[j - 1])
        }
    }
}

/// Every building that has been given a pocket, plaza after plaza.
pub open spec fn pocketed(pockets: Seq<Seq<usize>>) -> Seq<usize>
    decreases pockets.len(),
{
    if pockets.len() == 0 {
        Seq::empty()
    } else {
        pocketed(pockets.drop_last()) + pockets.last()
    }
}

/// The pockets carved for the first `s` plazas, in plaza order.
pub open spec fn pocket_allocation(
    max_per_plaza: nat,
    ranked: Seq<Seq<usize>>,
    fits: Seq<Seq<bool>>,
    s: int,
) -> Seq<Seq<usize>>
    decreases s,
{
    if s <= 0 {
        Seq::empty()
    } else {
        let prior = pocket_allocation(max_per_plaza, ranked, fits, s - 1);
        prior.push(plaza_picks(ranked[s - 1], fits[s - 1], pocketed(prior), max_per_plaza, ranked[s - 1].len() as int))
    }
}

/// The views of nested vectors.
pub open spec fn nested_view<T>(v: Seq<Vec<T>>) -> Seq<Seq<T>> {
    v.map_values(|x: Vec<T>| x@)
}

/// Whether `list` holds `x`.
fn holds_index(list: &Vec<usize>, x: usize) -> (r: bool)
    ensures
        r == list@.contains(x),
{
    let n = list.len();
    let mut i: usize = 0;
    while i < n
        invariant
            n == list@.len(),
            i <= n,
            forall|j: int| 0 <= j < i ==> list@[j] != x,
        decreases n - i,
    {
        if list[i] == x {
            return true;
        }
        i = i + 1;
    }
    false
}

/// Decides which buildings get an activity pocket. Plazas are served in
/// order; `ranked[p]` lists the solid buildings bordering plaza `p`,
/// nearest first, and `fits[p][k]` says whether a pocket from building
/// `ranked[p][k]` fits against that plaza. Each plaza takes, in rank
/// order, the buildings no earlier plaza took whose pocket fits, up to
/// `max_per_plaza`. Returns, per plaza, the buildings it took.
pub fn allocate_pockets(max_per_plaza: usize, ranked: &Vec<Vec<usize>>, fits: &Vec<Vec<bool>>) -> (pockets: Vec<Vec<usize>>)
    requires
        ranked@.len() == fits@.len(),
        forall|p: int| 0 <= p < ranked@.len() ==> (#[trigger] ranked@[p])@.len() == fits@[p]@.len(),
    ensures
        nested_view(pockets@) == pocket_allocation(
            max_per_plaza as nat,
            nested_view(ranked@),
            nested_view(fits@),
            ranked@.len() as int,
        ),
        pockets@.len() == ranked@.len(),
        forall|p: int, k: int|
            0 <= p < pockets@.len() && 0 <= k < ranked@[p]@.len() && fits@[p]@[k] && pockets@[p]@.len()
                < max_per_plaza && (forall|q: int| 0 <= q < p ==> !(#[trigger] pockets@[q])@.contains(ranked@[p]@[k]))
                ==> #[trigger] pockets@[p]@.contains(ranked@[p]@[k]),
{
    let ghost rv = nested_view(ranked@);
    let ghost fv = nested_view(fits@);
    let n = ranked.len();
    let mut pockets: Vec<Vec<usize>> = Vec::new();
    let mut taken: Vec<usize> = Vec::new();
    let mut p: usize = 0;
    while p < n
        invariant
            n == ranked@.len(),
            n == fits@.len(),
            rv == nested_view(ranked@),
            fv == nested_view(fits@),
            forall|q: int| 0 <= q < ranked@.len() ==> (#[trigger] ranked@[q])@.len() == fits@[q]@.len(),
            p <= n,
            nested_view(pockets@) == pocket_allocation(max_per_plaza as nat, rv, fv, p as int),
            taken@ == pocketed(nested_view(pockets@)),
        decreases n - p,
    {
        let plaza = &ranked[p];
        let fit = &fits[p];
        assert(plaza@ == rv[p as int] && fit@ == fv[p as int]);
        let ghost before = taken@;
        let m = plaza.len();
        let mut picks: Vec<usize> = Vec::new();
        let mut k: usize = 0;
        while k < m
            invariant
                m == plaza@.len(),
                m == fit@.len(),
                k <= m,
                picks@ == plaza_picks(plaza@, fit@, before, max_per_plaza as nat, k as int),
                taken@ == before,
            decreases m - k,
        {
            let b = plaza[k];
            if !holds_index(&taken, b) && picks.len() < max_per_plaza && fit[k] {
                picks.push(b);
            }
            k = k + 1;
        }
        let mut t: usize = 0;
        let ghost mid = taken@;
        while t < picks.len()
            invariant
                t <= picks@.len(),
                taken@ == mid + picks@.take(t as int),
            decreases picks@.len() - t,
        {
            taken.push(picks[t]);
            assert(picks@.take(t + 1) =~= picks@.take(t as int).push(picks@[t as int]));
            assert(taken@ =~= mid + picks@.take(t + 1));
            t = t + 1;
        }
        assert(picks@.take(picks@.len() as int) =~= picks@);
        let ghost prior = pockets@;
        pockets.push(picks);
        proof {
            assert(nested_view(pockets@) =~= nested_view(prior).push(picks@));
            assert(nested_view(pockets@).drop_last() =~= nested_view(prior));
        }
        p = p + 1;
    }
    proof {
        let s = ranked@.len() as int;
        law_short_plaza_took_every_free_fitting_building(max_per_plaza as nat, rv, fv, s);
        lemma_pocket_allocation_shape(max_per_plaza as nat, rv, fv, s);
        let alloc = pocket_allocation(max_per_plaza as nat, rv, fv, s);
        assert forall|p: int, k: int|
            0 <= p < pockets@.len() && 0 <= k < ranked@[p]@.len() && fits@[p]@[k] && pockets@[p]@.len()
                < max_per_plaza && (forall|q: int| 0 <= q < p ==> !(#[trigger] pockets@[q])@.contains(ranked@[p]@[k]))
                implies #[trigger] pockets@[p]@.contains(ranked@[p]@[k]) by {
            assert(pockets@[p]@ == alloc[p]);
            assert(rv[p] == ranked@[p]@ && fv[p] == fits@[p]@);
            assert forall|q: int| 0 <= q < p implies !(#[trigger] alloc[q]).contains(rv[p][k]) by {
                assert(pockets@[q]@ == alloc[q]);
            }
        }
    }
    pockets
}

proof fn lemma_plaza_picks(ranked: Seq<usize>, fits: Seq<bool>, taken: Seq<usize>, max_per_plaza: nat, j: int)
    requires
        0 <= j <= ranked.len(),
        ranked.len() == fits.len(),
    ensures
        plaza_picks(ranked, fits, taken, max_per_plaza, j).len() <= max_per_plaza,
        forall|t: int|
            0 <= t < plaza_picks(ranked, fits, taken, max_per_plaza, j).len() ==> {
                let x = #[trigger] plaza_picks(ranked, fits, taken, max_per_plaza, j)[t];
                !taken.contains(x) && exists|k: int| 0 <= k < j && ranked[k] == x && fits[k]
            },
        ranked.take(j).no_duplicates() ==> plaza_picks(ranked, fits, taken, max_per_plaza, j).no_duplicates(),
    decreases j,
{
    if j > 0 {
        let jm = j - 1;
        lemma_plaza_picks(ranked, fits, taken, max_per_plaza, jm);
        let prior = plaza_picks(ranked, fits, taken, max_per_plaza, jm);
        let cur = plaza_picks(ranked, fits, taken, max_per_plaza, j);
        assert forall|t: int| 0 <= t < cur.len() implies {
            let x = #[trigger] cur[t];
            !taken.contains(x) && exists|k: int| 0 <= k < j && ranked[k] == x && fits[k]
        } by {
            if t < prior.len() {
                assert(cur[t] == prior[t]);
                let x = prior[t];
                let k = choose|k: int| 0 <= k < jm && ranked[k] == x && fits[k];
                assert(0 <= k < j && ranked[k] == x && fits[k]);
            } else {
                assert(0 <= jm < j && ranked[jm] == cur[t] && fits[jm]);
            }
        }
        if ranked.take(j).no_duplicates() {
            let shorter = ranked.take(jm);
            assert(shorter.no_duplicates()) by {
                assert forall|a: int, b: int| 0 <= a < jm && 0 <= b < jm && a != b implies #[trigger] shorter[a]
                    != #[trigger] shorter[b] by {
                    assert(ranked.take(j)[a] == shorter[a]);
                    assert(ranked.take(j)[b] == shorter[b]);
                }
            }
            if cur.len() > prior.len() {
                assert forall|a: int, b: int| 0 <= a < cur.len() && 0 <= b < cur.len() && a != b implies cur[a]
                    != cur[b] by {
                    if a == prior.len() || b == prior.len() {
                        let o = if a == prior.len() { b } else { a };
                        let k = choose|k: int| 0 <= k < jm && ranked[k] == prior[o] && fits[k];
                        assert(ranked.take(j)[k] == ranked[k]);
                        assert(ranked.take(j)[jm] == ranked[jm]);
                    }
                }
            }
        }
    }
}

proof fn lemma_pocket_allocation_shape(max_per_plaza: nat, ranked: Seq<Seq<usize>>, fits: Seq<Seq<bool>>, s: int)
    requires
        0 <= s,
    ensures
        pocket_allocation(max_per_plaza, ranked, fits, s).len() == s,
        forall|t: int|
            0 <= t < s ==> #[trigger] pocket_allocation(max_per_plaza, ranked, fits, s)[t] == plaza_picks(
                ranked[t],
                fits[t],
                pocketed(pocket_allocation(max_per_plaza, ranked, fits, t)),
                max_per_plaza,
                ranked[t].len() as int,
            ),
    decreases s,
{
    if s > 0 {
        lemma_pocket_allocation_shape(max_per_plaza, ranked, fits, s - 1);
    }
}

/// No building gets two pockets, provided no plaza lists a building twice;
/// no plaza gets more than `max_per_plaza` pockets; and every pocket comes
/// from a building that borders its plaza and whose pocket fits there.
pub proof fn law_one_pocket_per_building(max_per_plaza: nat, ranked: Seq<Seq<usize>>, fits: Seq<Seq<bool>>, s: int)
    requires
        0 <= s <= ranked.len(),
        ranked.len() == fits.len(),
        forall|p: int| 0 <= p < ranked.len() ==> (#[trigger] ranked[p]).len() == fits[p].len(),
    ensures
        (forall|p: int| 0 <= p < s ==> (#[trigger] ranked[p]).no_duplicates()) ==> pocketed(
            pocket_allocation(max_per_plaza, ranked, fits, s),
        ).no_duplicates(),
        forall|p: int| 0 <= p < s ==> (#[trigger] pocket_allocation(max_per_plaza, ranked, fits, s)[p]).len() <= max_per_plaza,
        forall|p: int, t: int|
            0 <= p < s && 0 <= t < pocket_allocation(max_per_plaza, ranked, fits, s)[p].len() ==> exists|k: int|
                0 <= k < ranked[p].len() && ranked[p][k] == #[trigger] pocket_allocation(
                    max_per_plaza,
                    ranked,
                    fits,
                    s,
                )[p][t] && fits[p][k],
    decreases s,
{
    lemma_pocket_allocation_shape(max_per_plaza, ranked, fits, s);
    if s > 0 {
        law_one_pocket_per_building(max_per_plaza, ranked, fits, s - 1);
        let prior = pocket_allocation(max_per_plaza, ranked, fits, s - 1);
        let cur = pocket_allocation(max_per_plaza, ranked, fits, s);
        let q = s - 1;
        let taken = pocketed(prior);
        let r = ranked[q];
        lemma_plaza_picks(r, fits[q], taken, max_per_plaza, r.len() as int);
        assert(r.take(r.len() as int) =~= r);
        let picks = cur[q];
        assert(cur.drop_last() =~= prior);
        assert(pocketed(cur) == taken + picks);
        assert forall|p: int| 0 <= p < s implies (#[trigger] cur[p]).len() <= max_per_plaza by {
            if p < q {
                assert(cur[p] == prior[p]);
            }
        }
        assert forall|p: int, t: int| 0 <= p < s && 0 <= t < cur[p].len() implies exists|k: int|
            0 <= k < ranked[p].len() && ranked[p][k] == #[trigger] cur[p][t] && fits[p][k] by {
            if p < q {
                assert(cur[p] == prior[p]);
                assert(prior[p][t] == cur[p][t]);
            } else {
                assert(cur[p][t] == picks[t]);
            }
        }
        if forall|p: int| 0 <= p < s ==> (#[trigger] ranked[p]).no_duplicates() {
            assert(forall|p: int| 0 <= p < s - 1 ==> (#[trigger] ranked[p]).no_duplicates());
            assert(r.no_duplicates());
            let all = taken + picks;
            assert forall|a: int, b: int| 0 <= a < all.len() && 0 <= b < all.len() && a != b implies all[a]
                != all[b] by {
                if a < taken.len() && b >= taken.len() {
                    assert(all[b] == picks[b - taken.len()]);
                    assert(taken.contains(all[a]));
                } else if b < taken.len() && a >= taken.len() {
                    assert(all[a] == picks[a - taken.len()]);
                    assert(taken.contains(all[b]));
                } else if a >= taken.len() && b >= taken.len() {
                    assert(all[a] == picks[a - taken.len()]);
                    assert(all[b] == picks[b - taken.len()]);
                }
            }
        }
    }
}

proof fn lemma_plaza_picks_maximal(ranked: Seq<usize>, fits: Seq<bool>, taken: Seq<usize>, max_per_plaza: nat, j: int)
    requires
        0 <= j <= ranked.len(),
        ranked.len() == fits.len(),
    ensures
        forall|k: int| 0 <= k < j ==> plaza_picks(ranked, fits, taken, max_per_plaza, k).len() <= plaza_picks(
            ranked,
            fits,
            taken,
            max_per_plaza,
            j,
        ).len(),
        plaza_picks(ranked, fits, taken, max_per_plaza, j).len() < max_per_plaza ==> forall|k: int|
            0 <= k < j && fits[k] && !taken.contains(#[trigger] ranked[k]) ==> plaza_picks(
                ranked,
                fits,
                taken,
                max_per_plaza,
                j,
            ).contains(ranked[k]),
    decreases j,
{
    if j > 0 {
        lemma_plaza_picks_maximal(ranked, fits, taken, max_per_plaza, j - 1);
        let prior = plaza_picks(ranked, fits, taken, max_per_plaza, j - 1);
        let cur = plaza_picks(ranked, fits, taken, max_per_plaza, j);
        if cur.len() < max_per_plaza {
            assert forall|k: int| 0 <= k < j && fits[k] && !taken.contains(#[trigger] ranked[k]) implies cur.contains(
                ranked[k],
            ) by {
                if k < j - 1 {
                    assert(prior.contains(ranked[k]));
                    let w = choose|w: int| 0 <= w < prior.len() && prior[w] == ranked[k];
                    assert(cur[w] == ranked[k]);
                } else {
                    assert(cur[prior.len() as int] == ranked[k]);
                }
            }
        }
    }
}

proof fn lemma_pocketed_contains(pockets: Seq<Seq<usize>>, x: usize)
    ensures
        pocketed(pockets).contains(x) <==> exists|q: int| 0 <= q < pockets.len() && #[trigger] pockets[q].contains(x),
    decreases pockets.len(),
{
    if pockets.len() > 0 {
        let init = pockets.drop_last();
        lemma_pocketed_contains(init, x);
        let all = pocketed(init) + pockets.last();
        if all.contains(x) {
            let w = choose|w: int| 0 <= w < all.len() && all[w] == x;
            if w < pocketed(init).len() {
                assert(pocketed(init)[w] == x);
                let q = choose|q: int| 0 <= q < init.len() && #[trigger] init[q].contains(x);
                assert(pockets[q] == init[q]);
            } else {
                assert(pockets.last()[w - pocketed(init).len()] == x);
                assert(pockets[pockets.len() - 1].contains(x));
            }
        }
        if exists|q: int| 0 <= q < pockets.len() && #[trigger] pockets[q].contains(x) {
            let q = choose|q: int| 0 <= q < pockets.len() && #[trigger] pockets[q].contains(x);
            if q < pockets.len() - 1 {
                assert(init[q] == pockets[q]);
                assert(pocketed(init).contains(x));
                let w = choose|w: int| 0 <= w < pocketed(init).len() && pocketed(init)[w] == x;
                assert(all[w] == x);
            } else {
                let w = choose|w: int| 0 <= w < pockets.last().len() && pockets.last()[w] == x;
                assert(all[pocketed(init).len() + w] == x);
            }
        }
    }
}

proof fn lemma_pocket_allocation_prefix(max_per_plaza: nat, ranked: Seq<Seq<usize>>, fits: Seq<Seq<bool>>, s: int, t: int)
    requires
        0 <= t <= s,
    ensures
        pocket_allocation(max_per_plaza, ranked, fits, s).take(t) == pocket_allocation(max_per_plaza, ranked, fits, t),
    decreases s,
{
    lemma_pocket_allocation_shape(max_per_plaza, ranked, fits, s);
    lemma_pocket_allocation_shape(max_per_plaza, ranked, fits, t);
    if t < s {
        lemma_pocket_allocation_prefix(max_per_plaza, ranked, fits, s - 1, t);
        let cur = pocket_allocation(max_per_plaza, ranked, fits, s);
        let prior = pocket_allocation(max_per_plaza, ranked, fits, s - 1);
        assert(cur.take(t) =~= prior.take(t));
    } else {
        assert(pocket_allocation(max_per_plaza, ranked, fits, s).take(t) =~= pocket_allocation(
            max_per_plaza,
            ranked,
            fits,
            s,
        ));
    }
}

/// A plaza that ends with fewer than `max_per_plaza` pockets took every
/// building on its list whose pocket fits and that no earlier plaza took:
/// a plaza is only left short when it ran out of such buildings.
pub proof fn law_short_plaza_took_every_free_fitting_building(
    max_per_plaza: nat,
    ranked: Seq<Seq<usize>>,
    fits: Seq<Seq<bool>>,
    s: int,
)
    requires
        0 <= s <= ranked.len(),
        ranked.len() == fits.len(),
        forall|p: int| 0 <= p < ranked.len() ==> (#[trigger] ranked[p]).len() == fits[p].len(),
    ensures
        forall|p: int, k: int|
            0 <= p < s && 0 <= k < ranked[p].len() && fits[p][k] && pocket_allocation(max_per_plaza, ranked, fits, s)[p].len()
                < max_per_plaza && (forall|q: int|
                0 <= q < p ==> !(#[trigger] pocket_allocation(max_per_plaza, ranked, fits, s)[q]).contains(ranked[p][k]))
                ==> #[trigger] pocket_allocation(max_per_plaza, ranked, fits, s)[p].contains(ranked[p][k]),
{
    let alloc = pocket_allocation(max_per_plaza, ranked, fits, s);
    lemma_pocket_allocation_shape(max_per_plaza, ranked, fits, s);
    assert forall|p: int, k: int|
        0 <= p < s && 0 <= k < ranked[p].len() && fits[p][k] && alloc[p].len() < max_per_plaza && (forall|q: int|
            0 <= q < p ==> !(#[trigger] alloc[q]).contains(ranked[p][k])) implies #[trigger] alloc[p].contains(
        ranked[p][k],
    ) by {
        let earlier = pocket_allocation(max_per_plaza, ranked, fits, p);
        lemma_pocket_allocation_prefix(max_per_plaza, ranked, fits, s, p);
        lemma_pocket_allocation_shape(max_per_plaza, ranked, fits, p);
        let x = ranked[p][k];
        lemma_pocketed_contains(earlier, x);
        assert(!pocketed(earlier).contains(x)) by {
            if pocketed(earlier).contains(x) {
                let q = choose|q: int| 0 <= q < earlier.len() && #[trigger] earlier[q].contains(x);
                assert(earlier[q] == alloc[q]);
            }
        }
        lemma_plaza_picks_maximal(ranked[p], fits[p], pocketed(earlier), max_per_plaza, ranked[p].len() as int);
    }
}

} // verus!
