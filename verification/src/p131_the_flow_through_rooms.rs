//! P131 The Flow Through Rooms — wire the actual room-to-room connectivity
//! `p127_intimacy_gradient`'s cells left empty, and (for solid buildings,
//! where the depth-band chain doesn't already close on itself) attempt a
//! real loop by adding one parallel passage cell -- capped at Pattern
//! 132's own cited length threshold.
//!
//! The operator's own description and source citation stand here; what it
//! decides without measuring geometry stands beside them.

use vstd::prelude::*;

use crate::citation::{cite, CitationView, SourceCitation};
use crate::interior::{lemma_door_keeps_mirrored, links_view, mirrored, push_link, with_door, with_link};
use crate::operator::PatternOperator;

verus! {

/// The operator.
pub struct P131TheFlowThroughRooms;

/// The operator's one-line description.
pub const DESCRIPTION: &'static str = "Connect interior cells into a chain or loop -- courtyard buildings close for free, solid buildings get a passage when short and wide enough, per Pattern 132's cited length threshold.";

/// The id of the source the operator cites.
pub const SOURCE_ID: &'static str = "alexander_apl_p131";

/// The display text of the source the operator cites.
pub const SOURCE_DISPLAY: &'static str = "Alexander et al., A Pattern Language, Pattern 131 (The Flow Through Rooms)";

/// The link to the source the operator cites.
pub const SOURCE_URL: &'static str = "https://patternlanguage.com/apl/aplsample/apl131/apl131.htm";

impl PatternOperator for P131TheFlowThroughRooms {
    fn name(&self) -> (r: &'static str)
        ensures
            r@ == crate::language_graph::P131_THE_FLOW_THROUGH_ROOMS@,
    {
        crate::language_graph::P131_THE_FLOW_THROUGH_ROOMS
    }

    fn description(&self) -> (r: &'static str)
        ensures
            r@ == DESCRIPTION@,
    {
        DESCRIPTION
    }

    fn source(&self) -> (r: SourceCitation)
        ensures
            r@ == (CitationView { id: SOURCE_ID@, display: SOURCE_DISPLAY@, url: Some(SOURCE_URL@) }),
    {
        cite(SOURCE_ID, SOURCE_DISPLAY, SOURCE_URL)
    }
}

/// The bay before bay `k` in a ring of `n` bays.
pub open spec fn bay_before(k: int, n: int) -> usize {
    if k == 0 {
        (n - 1) as usize
    } else {
        (k - 1) as usize
    }
}

/// The bay after bay `k` in a ring of `n` bays.
pub open spec fn bay_after(k: int, n: int) -> usize {
    ((k + 1) % n) as usize
}

/// A courtyard building's bays form a ring by construction: bay `k`
/// opens into the bay before it and the bay after it, wrapping around.
pub open spec fn courtyard_loop_view(n: nat) -> Seq<Seq<usize>> {
    Seq::new(n, |k: int| seq![bay_before(k, n as int), bay_after(k, n as int)])
}

/// The links of a courtyard building's `n` bays, closed into a loop.
pub fn courtyard_loop(n: usize) -> (links: Vec<Vec<usize>>)
    requires
        n >= 2,
    ensures
        links_view(links@) == courtyard_loop_view(n as nat),
{
    let mut links: Vec<Vec<usize>> = Vec::new();
    let mut k: usize = 0;
    while k < n
        invariant
            n >= 2,
            k <= n,
            links@.len() == k,
            forall|j: int| 0 <= j < k ==> #[trigger] links@[j]@ == seq![bay_before(j, n as int), bay_after(j, n as int)],
        decreases n - k,
    {
        let before = if k == 0 { n - 1 } else { k - 1 };
        let after = (k + 1) % n;
        let mut pair: Vec<usize> = Vec::new();
        pair.push(before);
        pair.push(after);
        assert(pair@ =~= seq![bay_before(k as int, n as int), bay_after(k as int, n as int)]);
        links.push(pair);
        k = k + 1;
    }
    assert(links_view(links@) =~= courtyard_loop_view(n as nat));
    links
}

proof fn lemma_ring_step(n: int, a: int)
    requires
        2 <= n <= usize::MAX,
        0 <= a < n,
    ensures
        bay_before(a, n) < n,
        bay_after(a, n) < n,
        bay_after(bay_before(a, n) as int, n) == a as usize,
        bay_before(bay_after(a, n) as int, n) == a as usize,
        n >= 3 ==> bay_before(a, n) != bay_after(a, n),
        bay_before(a, n) != a as usize,
        bay_after(a, n) != a as usize,
{
    vstd::arithmetic::div_mod::lemma_mod_self_0(n);
    if a + 1 < n {
        vstd::arithmetic::div_mod::lemma_small_mod((a + 1) as nat, n as nat);
    }
    if a > 0 {
        vstd::arithmetic::div_mod::lemma_small_mod(a as nat, n as nat);
    }
}

/// A courtyard building's loop is a closed ring: every bay opens into
/// exactly two bays, each of which opens back into it, and neither of
/// which is the bay itself; with three or more bays the two are distinct.
pub proof fn law_courtyard_loop_is_a_closed_ring(n: nat)
    requires
        n >= 2,
        n <= usize::MAX,
    ensures
        mirrored(courtyard_loop_view(n)),
        forall|k: int|
            0 <= k < n ==> {
                let l = #[trigger] courtyard_loop_view(n)[k];
                &&& l.len() == 2
                &&& l[0] != k as usize
                &&& l[1] != k as usize
                &&& (n >= 3 ==> l[0] != l[1])
            },
{
    let v = courtyard_loop_view(n);
    assert forall|a: int, k: int| 0 <= a < v.len() && 0 <= k < v[a].len() implies {
        let b = #[trigger] v[a][k] as int;
        0 <= b < v.len() && v[b].contains(a as usize)
    } by {
        lemma_ring_step(n as int, a);
        let b = v[a][k] as int;
        if k == 0 {
            assert(v[b][1] == a as usize);
        } else {
            assert(v[b][0] == a as usize);
        }
    }
    assert forall|k: int| 0 <= k < n implies {
        let l = #[trigger] courtyard_loop_view(n)[k];
        &&& l.len() == 2
        &&& l[0] != k as usize
        &&& l[1] != k as usize
        &&& (n >= 3 ==> l[0] != l[1])
    } by {
        lemma_ring_step(n as int, k);
    }
}

/// `links` after joining `order[0..m]` into a chain: each cell in `order`
/// opens into the next, and the next back into it, one pair at a time.
pub open spec fn chain_view(links: Seq<Seq<usize>>, order: Seq<usize>, m: int) -> Seq<Seq<usize>>
    decreases m,
{
    if m <= 1 {
        links
    } else {
        with_door(chain_view(links, order, m - 1), order[m - 2], order[m - 1])
    }
}

/// Joins the cells of a solid building into a chain, in `order` (the
/// cells by increasing depth): each consecutive pair gets a door.
pub fn link_chain(links: &mut Vec<Vec<usize>>, order: &Vec<usize>)
    requires
        forall|i: int| 0 <= i < order@.len() ==> #[trigger] order@[i] < old(links)@.len(),
    ensures
        links_view(final(links)@) == chain_view(links_view(old(links)@), order@, order@.len() as int),
{
    let ghost start = links_view(links@);
    let n = order.len();
    if n < 2 {
        return;
    }
    let mut i: usize = 1;
    while i < n
        invariant
            n == order@.len(),
            1 <= i <= n,
            links@.len() == start.len(),
            forall|j: int| 0 <= j < order@.len() ==> #[trigger] order@[j] < start.len(),
            links_view(links@) == chain_view(start, order@, i as int),
        decreases n - i,
    {
        let a = order[i - 1];
        let b = order[i];
        push_link(links, a, b);
        push_link(links, b, a);
        i = i + 1;
    }
}

proof fn lemma_chain_keeps_mirrored(links: Seq<Seq<usize>>, order: Seq<usize>, m: int)
    requires
        mirrored(links),
        0 <= m <= order.len(),
        forall|j: int| 0 <= j < order.len() ==> #[trigger] order[j] < links.len(),
    ensures
        mirrored(chain_view(links, order, m)),
        chain_view(links, order, m).len() == links.len(),
    decreases m,
{
    if m > 1 {
        lemma_chain_keeps_mirrored(links, order, m - 1);
        lemma_door_keeps_mirrored(chain_view(links, order, m - 1), order[m - 2], order[m - 1]);
    }
}

proof fn lemma_chain_keeps_mirrored_len(links: Seq<Seq<usize>>, order: Seq<usize>, m: int)
    requires
        0 <= m <= order.len(),
        forall|j: int| 0 <= j < order.len() ==> #[trigger] order[j] < links.len(),
    ensures
        chain_view(links, order, m).len() == links.len(),
    decreases m,
{
    if m > 1 {
        lemma_chain_keeps_mirrored_len(links, order, m - 1);
    }
}

/// Chaining cells keeps every door opening from both sides, and every
/// two cells that follow each other in the depth order end up opening
/// into each other.
pub proof fn law_chain_links_each_cell_to_the_next(links: Seq<Seq<usize>>, order: Seq<usize>)
    requires
        mirrored(links),
        forall|j: int| 0 <= j < order.len() ==> #[trigger] order[j] < links.len(),
    ensures
        mirrored(chain_view(links, order, order.len() as int)),
        forall|i: int|
            0 <= i < order.len() - 1 ==> chain_view(links, order, order.len() as int)[#[trigger] order[i] as int].contains(
                order[i + 1],
            ) && chain_view(links, order, order.len() as int)[order[i + 1] as int].contains(order[i]),
{
    lemma_chain_keeps_mirrored(links, order, order.len() as int);
    assert forall|i: int| 0 <= i < order.len() - 1 implies chain_view(
        links,
        order,
        order.len() as int,
    )[#[trigger] order[i] as int].contains(order[i + 1]) && chain_view(links, order, order.len() as int)[order[i
        + 1] as int].contains(order[i]) by {
        let m = i + 2;
        let prev = chain_view(links, order, m - 1);
        lemma_chain_keeps_mirrored_len(links, order, m - 1);
        let a = order[i];
        let b = order[i + 1];
        let l1 = with_link(prev, a, b);
        let l2 = with_link(l1, b, a);
        assert(l2 == chain_view(links, order, m));
        if a == b {
            assert(l2[a as int][prev[a as int].len() as int] == b);
        } else {
            assert(l2[a as int][prev[a as int].len() as int] == b);
        }
        assert(l2[b as int][l1[b as int].len() as int] == a);
        lemma_chain_keeps_mirrored_len(links, order, m);
        lemma_chain_keeps_links_from(links, order, m, order.len() as int, a as int, b);
        lemma_chain_keeps_links_from(links, order, m, order.len() as int, b as int, a);
    }
}

proof fn lemma_chain_keeps_links_from(links: Seq<Seq<usize>>, order: Seq<usize>, m: int, n: int, c: int, x: usize)
    requires
        0 <= m <= n <= order.len(),
        forall|j: int| 0 <= j < order.len() ==> #[trigger] order[j] < links.len(),
        0 <= c < links.len(),
        chain_view(links, order, m)[c].contains(x),
    ensures
        chain_view(links, order, n)[c].contains(x),
    decreases n - m,
{
    if n > m {
        lemma_chain_keeps_links_from(links, order, m, n - 1, c, x);
        if n > 1 {
            let prev = chain_view(links, order, n - 1);
            lemma_chain_keeps_mirrored_len(links, order, n - 1);
            let w = choose|w: int| 0 <= w < prev[c].len() && prev[c][w] == x;
            let l1 = with_link(prev, order[n - 2], order[n - 1]);
            assert(l1[c][w] == x);
            assert(with_link(l1, order[n - 1], order[n - 2])[c][w] == x);
        }
    }
}

/// `links` after a passage cell (the new last cell) is added alongside a
/// chain: it opens into the chain's first and last cells, and each of them
/// opens into it.
pub open spec fn passage_view(links: Seq<Seq<usize>>, first: usize, last: usize) -> Seq<Seq<usize>> {
    let p = links.len() as usize;
    let with_cell = links.push(seq![first, last]);
    if first == last {
        with_link(with_cell, first, p)
    } else {
        with_link(with_link(with_cell, first, p), last, p)
    }
}

/// Adds the loop-closing passage cell beside a chain whose first and last
/// cells are `first` and `last`; returns the passage's index.
pub fn add_passage(links: &mut Vec<Vec<usize>>, first: usize, last: usize) -> (p: usize)
    requires
        first < old(links)@.len(),
        last < old(links)@.len(),
        old(links)@.len() < usize::MAX,
    ensures
        p == old(links)@.len(),
        links_view(final(links)@) == passage_view(links_view(old(links)@), first, last),
{
    let p = links.len();
    let mut cell: Vec<usize> = Vec::new();
    cell.push(first);
    cell.push(last);
    assert(cell@ =~= seq![first, last]);
    links.push(cell);
    proof {
        assert(links_view(links@) =~= links_view(old(links)@).push(seq![first, last]));
    }
    push_link(links, first, p);
    if first != last {
        push_link(links, last, p);
    }
    p
}

/// Adding the passage keeps every door opening from both sides.
pub proof fn law_passage_keeps_doors_two_sided(links: Seq<Seq<usize>>, first: usize, last: usize)
    requires
        mirrored(links),
        first < links.len(),
        last < links.len(),
        links.len() < usize::MAX,
    ensures
        mirrored(passage_view(links, first, last)),
{
    let p = links.len() as usize;
    let c = links.push(seq![first, last]);
    let v = passage_view(links, first, last);
    assert forall|x: int, k: int| 0 <= x < v.len() && 0 <= k < v[x].len() implies {
        let y = #[trigger] v[x][k] as int;
        0 <= y < v.len() && v[y].contains(x as usize)
    } by {
        let y = v[x][k] as int;
        if x == p as int {
            if k == 0 {
                assert(v[first as int][links[first as int].len() as int] == p);
            } else {
                if first == last {
                    assert(v[last as int][links[last as int].len() as int] == p);
                } else {
                    assert(v[last as int][links[last as int].len() as int] == p);
                }
            }
        } else if k == links[x].len() {
            assert(y == p as int);
            assert(v[y][0] == first && v[y][1] == last);
            if x == first as int {
                assert(v[y][0] == x as usize);
            } else {
                assert(v[y][1] == x as usize);
            }
        } else {
            assert(v[x][k] == links[x][k]);
            let w = choose|w: int| 0 <= w < links[y].len() && links[y][w] == x as usize;
            assert(v[y][w] == x as usize);
        }
    }
}

} // verus!
