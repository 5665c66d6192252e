//! P118 Roof Garden — flat, usable sections of roof should be developed
//! as real gardens.
//!
//! The operator's own description and source citation stand here; what it
//! decides without measuring geometry stands beside them.

use vstd::prelude::*;

use crate::citation::{cite, CitationView, SourceCitation};
use crate::operator::PatternOperator;
use crate::order::{bytes_less, bytes_lt, lemma_bytes_lt_total, lemma_bytes_lt_transitive};
use vstd::string::StringSliceAdditionalSpecFns;

verus! {

/// The operator.
pub struct P118RoofGarden;

/// The operator's one-line description.
pub const DESCRIPTION: &'static str = "Overwrites the site's own tallest real buildings' sloped P117 roof with a flat, occupiable garden roof.";

/// The id of the source the operator cites.
pub const SOURCE_ID: &'static str = "alexander_apl_p118";

/// The display text of the source the operator cites.
pub const SOURCE_DISPLAY: &'static str = "Alexander et al., A Pattern Language, Pattern 118 (Roof Garden)";

/// The link to the source the operator cites.
pub const SOURCE_URL: &'static str = "https://patternlanguage.cc/Patterns/Roof-Garden-(118)";

impl PatternOperator for P118RoofGarden {
    fn name(&self) -> (r: &'static str)
        ensures
            r@ == crate::language_graph::P118_ROOF_GARDEN@,
    {
        crate::language_graph::P118_ROOF_GARDEN
    }

    fn description(&self) -> (r: &'static str)
        ensures
            r@ == DESCRIPTION@,
    {
        DESCRIPTION
    }

    fn source(&self) -> (r: SourceCitation)
        ensures
            r@ == (CitationView { id: SOURCE_ID@, display: SOURCE_DISPLAY@, url: Some(SOURCE_URL@) }),
    {
        cite(SOURCE_ID, SOURCE_DISPLAY, SOURCE_URL)
    }
}

/// How many of the site's tallest buildings get a flat, occupiable garden
/// roof instead of a sloped shed roof.
#[derive(Debug, Clone)]
pub struct P118Params {
    pub max_gardens: u32,
}

impl P118Params {
    /// A small fixed count: the site's two tallest buildings.
    pub fn defaults() -> (p: Self)
        ensures
            p.max_gardens == 2,
    {
        P118Params { max_gardens: 2 }
    }
}

/// What the roof-garden choice reads of a building: its id and its
/// recorded floor count.
#[derive(Debug, Clone)]
pub struct BuildingFloors {
    pub id: String,
    pub floors: Option<u32>,
}

/// A building's floor count, one when none is recorded.
pub open spec fn floor_count(b: BuildingFloors) -> u32 {
    match b.floors {
        Some(f) => f,
        None => 1,
    }
}

/// A building's id as UTF-8 bytes, the order ids are compared in.
pub open spec fn id_bytes(b: BuildingFloors) -> Seq<u8> {
    vstd::utf8::encode_utf8(b.id@)
}

/// Building `i` ranks before building `j`: more floors first, then by id
/// ascending, then (for equal ids) in list order.
pub open spec fn ranks_before(bs: Seq<BuildingFloors>, i: int, j: int) -> bool {
    let a = bs[i];
    let b = bs[j];
    ||| floor_count(a) > floor_count(b)
    ||| floor_count(a) == floor_count(b) && bytes_lt(id_bytes(a), id_bytes(b))
    ||| floor_count(a) == floor_count(b) && id_bytes(a) == id_bytes(b) && i < j
}

/// Building `i` is the highest-ranked one not yet in `chosen`.
pub open spec fn is_next_tallest(bs: Seq<BuildingFloors>, chosen: Seq<int>, i: int) -> bool {
    &&& 0 <= i < bs.len()
    &&& !chosen.contains(i)
    &&& forall|j: int|
        0 <= j < bs.len() && !chosen.contains(j) && j != i ==> #[trigger] ranks_before(bs, i, j)
}

/// The indices of the first `k` buildings in rank order (fewer when the
/// site has fewer than `k` buildings).
pub open spec fn tallest_order(bs: Seq<BuildingFloors>, k: nat) -> Seq<int>
    decreases k,
{
    if k == 0 {
        Seq::empty()
    } else {
        let prev = tallest_order(bs, (k - 1) as nat);
        if exists|i: int| is_next_tallest(bs, prev, i) {
            prev.push(choose|i: int| is_next_tallest(bs, prev, i))
        } else {
            prev
        }
    }
}

proof fn lemma_ranks_before_order(bs: Seq<BuildingFloors>, i: int, j: int, l: int)
    ensures
        !(ranks_before(bs, i, j) && ranks_before(bs, j, i)),
        i != j ==> ranks_before(bs, i, j) || ranks_before(bs, j, i),
        ranks_before(bs, i, j) && ranks_before(bs, j, l) ==> ranks_before(bs, i, l),
{
    lemma_bytes_lt_total(id_bytes(bs[i]), id_bytes(bs[j]));
    lemma_bytes_lt_total(id_bytes(bs[j]), id_bytes(bs[l]));
    lemma_bytes_lt_total(id_bytes(bs[i]), id_bytes(bs[l]));
    if bytes_lt(id_bytes(bs[i]), id_bytes(bs[j])) && bytes_lt(id_bytes(bs[j]), id_bytes(bs[l])) {
        lemma_bytes_lt_transitive(id_bytes(bs[i]), id_bytes(bs[j]), id_bytes(bs[l]));
    }
}

proof fn lemma_next_tallest_unique(bs: Seq<BuildingFloors>, chosen: Seq<int>, i: int, j: int)
    requires
        is_next_tallest(bs, chosen, i),
        is_next_tallest(bs, chosen, j),
    ensures
        i == j,
{
    if i != j {
        assert(ranks_before(bs, i, j));
        assert(ranks_before(bs, j, i));
        lemma_ranks_before_order(bs, i, j, i);
    }
}

proof fn lemma_tallest_order_settles(bs: Seq<BuildingFloors>, t: nat, k: nat)
    requires
        t <= k,
        !exists|i: int| is_next_tallest(bs, tallest_order(bs, t), i),
    ensures
        tallest_order(bs, k) == tallest_order(bs, t),
    decreases k - t,
{
    if k > t {
        lemma_tallest_order_settles(bs, t, (k - 1) as nat);
    }
}

/// Whether building `i` ranks before building `j`.
fn ranks_ahead(buildings: &Vec<BuildingFloors>, i: usize, j: usize) -> (r: bool)
    requires
        i < buildings@.len(),
        j < buildings@.len(),
    ensures
        r == ranks_before(buildings@, i as int, j as int),
{
    let fi = match buildings[i].floors {
        Some(f) => f,
        None => 1,
    };
    let fj = match buildings[j].floors {
        Some(f) => f,
        None => 1,
    };
    if fi != fj {
        return fi > fj;
    }
    let a = buildings[i].id.as_str().as_bytes();
    let b = buildings[j].id.as_str().as_bytes();
    if bytes_less(a, b) {
        return true;
    }
    if bytes_less(b, a) {
        return false;
    }
    proof {
        lemma_bytes_lt_total(a@, b@);
    }
    i < j
}

/// The highest-ranked building not yet chosen, if any.
fn next_tallest(buildings: &Vec<BuildingFloors>, chosen: &Vec<bool>, picked: Ghost<Seq<int>>) -> (r: Option<usize>)
    requires
        chosen@.len() == buildings@.len(),
        forall|i: int| 0 <= i < chosen@.len() ==> (#[trigger] chosen@[i] <==> picked@.contains(i)),
    ensures
        match r {
            Some(b) => is_next_tallest(buildings@, picked@, b as int),
            None => !exists|i: int| is_next_tallest(buildings@, picked@, i),
        },
{
    let n = buildings.len();
    let mut best: Option<usize> = None;
    let mut j: usize = 0;
    while j < n
        invariant
            n == buildings@.len(),
            chosen@.len() == n,
            forall|i: int| 0 <= i < chosen@.len() ==> (#[trigger] chosen@[i] <==> picked@.contains(i)),
            j <= n,
            match best {
                Some(b) => b < j && !picked@.contains(b as int) && forall|x: int|
                    0 <= x < j && !picked@.contains(x) && x != b ==> #[trigger] ranks_before(
                        buildings@,
                        b as int,
                        x,
                    ),
                None => forall|x: int| 0 <= x < j ==> #[trigger] picked@.contains(x),
            },
        decreases n - j,
    {
        if !chosen[j] {
            match best {
                None => {
                    best = Some(j);
                },
                Some(b) => {
                    if ranks_ahead(buildings, j, b) {
                        proof {
                            assert forall|x: int|
                                0 <= x < j + 1 && !picked@.contains(x) && x != j implies #[trigger] ranks_before(
                                buildings@,
                                j as int,
                                x,
                            ) by {
                                if x != b {
                                    lemma_ranks_before_order(buildings@, j as int, b as int, x);
                                }
                            }
                        }
                        best = Some(j);
                    } else {
                        proof {
                            lemma_ranks_before_order(buildings@, j as int, b as int, j as int);
                        }
                    }
                },
            }
        }
        j = j + 1;
    }
    match best {
        Some(b) => {
            assert(is_next_tallest(buildings@, picked@, b as int));
        },
        None => {
            assert(!exists|i: int| is_next_tallest(buildings@, picked@, i));
        },
    }
    best
}

/// The ids of the `max_gardens` buildings with the most floors (one when
/// none is recorded), ties broken by id ascending, then by list order.
pub fn tallest_building_ids(buildings: &Vec<BuildingFloors>, max_gardens: u32) -> (ids: Vec<String>)
    ensures
        ids@.len() == tallest_order(buildings@, max_gardens as nat).len(),
        forall|t: int|
            0 <= t < ids@.len() ==> (#[trigger] ids@[t])@ == buildings@[tallest_order(
                buildings@,
                max_gardens as nat,
            )[t]].id@,
{
    let n = buildings.len();
    let mut chosen: Vec<bool> = Vec::new();
    let mut i: usize = 0;
    while i < n
        invariant
            n == buildings@.len(),
            i <= n,
            chosen@.len() == i,
            forall|x: int| 0 <= x < i ==> !#[trigger] chosen@[x],
        decreases n - i,
    {
        chosen.push(false);
        i = i + 1;
    }
    let mut ids: Vec<String> = Vec::new();
    let ghost mut picked: Seq<int> = Seq::empty();
    let mut t: u32 = 0;
    while t < max_gardens
        invariant
            n == buildings@.len(),
            chosen@.len() == n,
            t <= max_gardens,
            picked == tallest_order(buildings@, t as nat),
            forall|x: int| 0 <= x < chosen@.len() ==> (#[trigger] chosen@[x] <==> picked.contains(x)),
            ids@.len() == picked.len(),
            forall|s: int| 0 <= s < picked.len() ==> 0 <= #[trigger] picked[s] < n,
            forall|s: int| 0 <= s < ids@.len() ==> (#[trigger] ids@[s])@ == buildings@[picked[s]].id@,
        decreases max_gardens - t,
    {
        match next_tallest(&buildings, &chosen, Ghost(picked)) {
            None => {
                proof {
                    lemma_tallest_order_settles(buildings@, t as nat, max_gardens as nat);
                }
                return ids;
            },
            Some(b) => {
                proof {
                    assert(exists|x: int| is_next_tallest(buildings@, picked, x));
                    let c = choose|x: int| is_next_tallest(buildings@, picked, x);
                    lemma_next_tallest_unique(buildings@, picked, c, b as int);
                    assert(tallest_order(buildings@, (t + 1) as nat) == picked.push(b as int));
                }
                chosen.set(b, true);
                ids.push(buildings[b].id.clone());
                let ghost prior = picked;
                proof {
                    picked = picked.push(b as int);
                    assert forall|x: int| 0 <= x < chosen@.len() implies (#[trigger] chosen@[x]
                        <==> picked.contains(x)) by {
                        if x == b as int {
                            assert(picked[prior.len() as int] == x);
                        } else if prior.contains(x) {
                            let w = choose|w: int| 0 <= w < prior.len() && prior[w] == x;
                            assert(picked[w] == x);
                        } else if picked.contains(x) {
                            let w = choose|w: int| 0 <= w < picked.len() && picked[w] == x;
                            assert(w < prior.len());
                            assert(prior[w] == x);
                        }
                    }
                }
                t = t + 1;
            },
        }
    }
    ids
}

proof fn lemma_best_exists(bs: Seq<BuildingFloors>, chosen: Seq<int>, m: int)
    requires
        0 <= m <= bs.len(),
        exists|x: int| 0 <= x < m && !chosen.contains(x),
    ensures
        exists|b: int|
            0 <= b < m && !chosen.contains(b) && forall|x: int|
                0 <= x < m && !chosen.contains(x) && x != b ==> #[trigger] ranks_before(bs, b, x),
    decreases m,
{
    let last = m - 1;
    if exists|x: int| 0 <= x < last && !chosen.contains(x) {
        lemma_best_exists(bs, chosen, last);
        let b = choose|b: int|
            0 <= b < last && !chosen.contains(b) && forall|x: int|
                0 <= x < last && !chosen.contains(x) && x != b ==> #[trigger] ranks_before(bs, b, x);
        if chosen.contains(last) || ranks_before(bs, b, last) {
            assert forall|x: int| 0 <= x < m && !chosen.contains(x) && x != b implies #[trigger] ranks_before(
                bs,
                b,
                x,
            ) by {}
        } else {
            lemma_ranks_before_order(bs, b, last, b);
            assert forall|x: int| 0 <= x < m && !chosen.contains(x) && x != last implies #[trigger] ranks_before(
                bs,
                last,
                x,
            ) by {
                if x != b {
                    lemma_ranks_before_order(bs, last, b, x);
                }
            }
        }
    } else {
        assert(!chosen.contains(last));
        assert forall|x: int| 0 <= x < m && !chosen.contains(x) && x != last implies #[trigger] ranks_before(
            bs,
            last,
            x,
        ) by {}
    }
}

proof fn lemma_some_unchosen(chosen: Seq<int>, n: int)
    requires
        0 <= chosen.len() < n,
    ensures
        exists|x: int| 0 <= x < n && !chosen.contains(x),
{
    if forall|x: int| 0 <= x < n ==> chosen.contains(x) {
        vstd::set_lib::lemma_int_range(0, n);
        vstd::seq_lib::seq_to_set_is_finite(chosen);
        assert(vstd::set_lib::set_int_range(0, n).subset_of(chosen.to_set()));
        vstd::set_lib::lemma_len_subset(vstd::set_lib::set_int_range(0, n), chosen.to_set());
        chosen.lemma_cardinality_of_set();
    }
}

proof fn lemma_no_room_left(chosen: Seq<int>, n: int)
    requires
        0 <= n,
        chosen.no_duplicates(),
        forall|t: int| 0 <= t < chosen.len() ==> 0 <= #[trigger] chosen[t] < n,
    ensures
        chosen.len() <= n,
{
    chosen.unique_seq_to_set();
    vstd::set_lib::lemma_int_range(0, n);
    assert(chosen.to_set().subset_of(vstd::set_lib::set_int_range(0, n)));
    vstd::set_lib::lemma_len_subset(chosen.to_set(), vstd::set_lib::set_int_range(0, n));
}

/// The roof gardens go to the tallest buildings: `min(k, n)` distinct
/// buildings are chosen, listed in rank order, and every building left
/// out ranks below every building chosen -- it has fewer floors, or as
/// many floors and a larger id.
pub proof fn law_gardens_go_to_the_tallest(bs: Seq<BuildingFloors>, k: nat)
    ensures
        tallest_order(bs, k).len() == if k < bs.len() {
            k as int
        } else {
            bs.len() as int
        },
        forall|t: int|
            0 <= t < tallest_order(bs, k).len() ==> 0 <= #[trigger] tallest_order(bs, k)[t] < bs.len(),
        forall|t: int, s: int|
            0 <= t < s < tallest_order(bs, k).len() ==> ranks_before(
                bs,
                #[trigger] tallest_order(bs, k)[t],
                #[trigger] tallest_order(bs, k)[s],
            ),
        forall|t: int, u: int|
            0 <= t < tallest_order(bs, k).len() && 0 <= u < bs.len() && !tallest_order(bs, k).contains(u)
                ==> ranks_before(bs, #[trigger] tallest_order(bs, k)[t], u) && floor_count(
                bs[tallest_order(bs, k)[t]],
            ) >= floor_count(#[trigger] bs[u]),
    decreases k,
{
    let n = bs.len() as int;
    if k > 0 {
        law_gardens_go_to_the_tallest(bs, (k - 1) as nat);
        let prev = tallest_order(bs, (k - 1) as nat);
        if prev.len() < n {
            lemma_some_unchosen(prev, n);
            lemma_best_exists(bs, prev, n);
            let b = choose|b: int|
                0 <= b < n && !prev.contains(b) && forall|x: int|
                    0 <= x < n && !prev.contains(x) && x != b ==> #[trigger] ranks_before(bs, b, x);
            assert(is_next_tallest(bs, prev, b));
            let c = choose|i: int| is_next_tallest(bs, prev, i);
            lemma_next_tallest_unique(bs, prev, c, b);
            let cur = prev.push(b);
            assert(tallest_order(bs, k) == cur);
            assert forall|t: int, u: int|
                0 <= t < cur.len() && 0 <= u < n && !cur.contains(u) implies ranks_before(
                bs,
                #[trigger] cur[t],
                u,
            ) && floor_count(bs[cur[t]]) >= floor_count(#[trigger] bs[u]) by {
                assert(!prev.contains(u)) by {
                    if prev.contains(u) {
                        let w = choose|w: int| 0 <= w < prev.len() && prev[w] == u;
                        assert(cur[w] == u);
                    }
                }
                assert(u != b) by {
                    assert(cur[prev.len() as int] == b);
                }
                if t == prev.len() {
                    assert(ranks_before(bs, b, u));
                } else {
                    assert(cur[t] == prev[t]);
                    assert(ranks_before(bs, prev[t], u));
                }
            }
            assert forall|t: int, s: int| 0 <= t < s < cur.len() implies ranks_before(
                bs,
                #[trigger] cur[t],
                #[trigger] cur[s],
            ) by {
                if s == prev.len() {
                    assert(cur[t] == prev[t]);
                    assert(ranks_before(bs, prev[t], b));
                } else {
                    assert(cur[t] == prev[t] && cur[s] == prev[s]);
                }
            }
        } else {
            assert forall|i: int, j: int| 0 <= i < prev.len() && 0 <= j < prev.len() && i != j implies prev[i]
                != prev[j] by {
                if i < j {
                    assert(ranks_before(bs, prev[i], prev[j]));
                    lemma_ranks_before_order(bs, prev[i], prev[j], prev[i]);
                } else {
                    assert(ranks_before(bs, prev[j], prev[i]));
                    lemma_ranks_before_order(bs, prev[j], prev[i], prev[j]);
                }
            }
            lemma_no_room_left(prev, n);
            assert(!exists|i: int| is_next_tallest(bs, prev, i)) by {
                if exists|i: int| is_next_tallest(bs, prev, i) {
                    let i = choose|i: int| is_next_tallest(bs, prev, i);
                    assert(prev.push(i).no_duplicates()) by {
                        assert forall|a: int, c: int|
                            0 <= a < prev.len() + 1 && 0 <= c < prev.len() + 1 && a != c implies prev.push(i)[a]
                            != prev.push(i)[c] by {
                            if a < prev.len() && c < prev.len() {
                            } else if a == prev.len() {
                                assert(prev.push(i)[c] == prev[c]);
                            } else {
                                assert(prev.push(i)[a] == prev[a]);
                            }
                        }
                    }
                    lemma_no_room_left(prev.push(i), n);
                }
            }
        }
    }
}

} // verus!
