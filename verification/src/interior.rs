//! The room-to-room links between a building's interior cells.
//!
//! Cells are named by their index in the building's cell list; `links[i]`
//! lists, in order, the cells that cell `i` opens into.

use vstd::prelude::*;

verus! {

/// The links of every cell, as mathematical sequences.
pub open spec fn links_view(links: Seq<Vec<usize>>) -> Seq<Seq<usize>> {
    links.map_values(|l: Vec<usize>| l@)
}

/// Every link names a cell of the building, and is answered by a link
/// back: a door between two rooms opens from both sides.
pub open spec fn mirrored(links: Seq<Seq<usize>>) -> bool {
    forall|a: int, k: int|
        0 <= a < links.len() && 0 <= k < links[a].len() ==> {
            let b = #[trigger] links[a][k] as int;
            0 <= b < links.len() && links[b].contains(a as usize)
        }
}

/// `links` with `b` appended to cell `a`'s links.
pub open spec fn with_link(links: Seq<Seq<usize>>, a: usize, b: usize) -> Seq<Seq<usize>> {
    links.update(a as int, links[a as int].push(b))
}

/// Appends a link from cell `a` to cell `b`.
pub fn push_link(links: &mut Vec<Vec<usize>>, a: usize, b: usize)
    requires
        a < old(links)@.len(),
    ensures
        final(links)@.len() == old(links)@.len(),
        links_view(final(links)@) == with_link(links_view(old(links)@), a, b),
{
    let mut inner: Vec<usize> = Vec::new();
    links.set_and_swap(a, &mut inner);
    inner.push(b);
    links.set(a, inner);
    proof {
        assert(links_view(final(links)@) =~= with_link(links_view(old(links)@), a, b));
    }
}

/// Links `a` to `b` and `b` back to `a`.
pub open spec fn with_door(links: Seq<Seq<usize>>, a: usize, b: usize) -> Seq<Seq<usize>> {
    with_link(with_link(links, a, b), b, a)
}

/// Adding a door between two cells of a mirrored building keeps it
/// mirrored.
pub proof fn lemma_door_keeps_mirrored(links: Seq<Seq<usize>>, a: usize, b: usize)
    requires
        mirrored(links),
        a < links.len(),
        b < links.len(),
    ensures
        mirrored(with_door(links, a, b)),
        with_door(links, a, b).len() == links.len(),
{
    let l1 = with_link(links, a, b);
    let l2 = with_door(links, a, b);
    let ai = a as int;
    let bi = b as int;
    assert forall|x: int, k: int| 0 <= x < l2.len() && 0 <= k < l2[x].len() implies {
        let y = #[trigger] l2[x][k] as int;
        0 <= y < l2.len() && l2[y].contains(x as usize)
    } by {
        let y = l2[x][k] as int;
        if x == bi && k == l1[bi].len() {
            assert(y == ai);
            if a == b {
                assert(l2[ai][k] == a);
            } else {
                assert(l2[ai] == l1[ai]);
                assert(l1[ai][links[ai].len() as int] == b);
            }
        } else if x == ai && k == links[ai].len() {
            assert(y == bi);
            assert(l2[bi][l1[bi].len() as int] == a);
        } else {
            assert(l2[x][k] == links[x][k]);
            assert(links[y].contains(x as usize));
            let w = choose|w: int| 0 <= w < links[y].len() && links[y][w] == x as usize;
            assert(l2[y][w] == x as usize);
        }
    }
}

} // verus!
