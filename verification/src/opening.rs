//! Where a wall opening sits: what the operators read of a door or a
//! window when they decide which ones count.

use vstd::prelude::*;

verus! {

/// What an opening in a wall is.
#[derive(Debug, Clone, Copy, PartialEq, Eq)]
pub enum OpeningKind {
    Door,
    Window,
}

/// An opening's place on its building: what it is, which ring edge it
/// sits on, whether that edge belongs to a courtyard hole rather than the
/// outer wall, and which floor it is on (0 is the ground floor).
#[derive(Debug, Clone, Copy)]
pub struct OpeningPlacement {
    pub kind: OpeningKind,
    pub ring_index: usize,
    pub on_hole: bool,
    pub floor: u32,
}

/// The opening is of `kind`, on the outer wall, on the ground floor.
pub open spec fn is_ground_floor_outer(o: OpeningPlacement, kind: OpeningKind) -> bool {
    o.kind == kind && !o.on_hole && o.floor == 0
}

/// The indices, in order, of the openings among `openings[0..j]` that are
/// of `kind`, on the outer wall and on the ground floor.
pub open spec fn ground_floor_outer_upto(openings: Seq<OpeningPlacement>, kind: OpeningKind, j: int) -> Seq<usize>
    decreases j,
{
    if j <= 0 {
        Seq::empty()
    } else {
        let prior = ground_floor_outer_upto(openings, kind, j - 1);
        if is_ground_floor_outer(openings[j - 1], kind) {
            prior.push((j - 1) as usize)
        } else {
            prior
        }
    }
}

/// The indices, in order, of the openings of `kind` on the outer wall and
/// the ground floor: the entrances (or street windows) every operator
/// measures.
pub fn ground_floor_outer(openings: &Vec<OpeningPlacement>, kind: OpeningKind) -> (found: Vec<usize>)
    ensures
        found@ == ground_floor_outer_upto(openings@, kind, openings@.len() as int),
{
    let n = openings.len();
    let mut found: Vec<usize> = Vec::new();
    let mut j: usize = 0;
    while j < n
        invariant
            n == openings@.len(),
            j <= n,
            found@ == ground_floor_outer_upto(openings@, kind, j as int),
        decreases n - j,
    {
        let o = openings[j];
        let same_kind = match (o.kind, kind) {
            (OpeningKind::Door, OpeningKind::Door) => true,
            (OpeningKind::Window, OpeningKind::Window) => true,
            _ => false,
        };
        if same_kind && !o.on_hole && o.floor == 0 {
            found.push(j);
        }
        j = j + 1;
    }
    found
}

proof fn lemma_ground_floor_outer(openings: Seq<OpeningPlacement>, kind: OpeningKind, j: int)
    requires
        0 <= j <= openings.len(),
        openings.len() <= usize::MAX,
    ensures
        forall|t: int|
            0 <= t < ground_floor_outer_upto(openings, kind, j).len() ==> {
                let i = #[trigger] ground_floor_outer_upto(openings, kind, j)[t] as int;
                0 <= i < j && is_ground_floor_outer(openings[i], kind)
            },
        forall|i: int|
            0 <= i < j && is_ground_floor_outer(#[trigger] openings[i], kind) ==> ground_floor_outer_upto(
                openings,
                kind,
                j,
            ).contains(i as usize),
        ground_floor_outer_upto(openings, kind, j).len() > 0 ==> forall|i: int|
            0 <= i < ground_floor_outer_upto(openings, kind, j)[0] ==> !is_ground_floor_outer(
                #[trigger] openings[i],
                kind,
            ),
    decreases j,
{
    if j > 0 {
        lemma_ground_floor_outer(openings, kind, j - 1);
        let prior = ground_floor_outer_upto(openings, kind, j - 1);
        let cur = ground_floor_outer_upto(openings, kind, j);
        assert forall|i: int| 0 <= i < j && is_ground_floor_outer(#[trigger] openings[i], kind) implies cur.contains(
            i as usize,
        ) by {
            if i < j - 1 {
                let w = choose|w: int| 0 <= w < prior.len() && prior[w] == i as usize;
                assert(cur[w] == i as usize);
            } else {
                assert(cur[prior.len() as int] == i as usize);
            }
        }
        if prior.len() > 0 {
            assert(cur[0] == prior[0]);
        }
        assert forall|t: int| 0 <= t < cur.len() implies {
            let i = #[trigger] cur[t] as int;
            0 <= i < j && is_ground_floor_outer(openings[i], kind)
        } by {
            if t < prior.len() {
                assert(cur[t] == prior[t]);
            }
        }
    }
}

/// The found openings are exactly the qualifying ones, in order; the
/// first found is the first qualifying opening on the building (the one
/// whose position every entrance measure reads).
pub proof fn law_ground_floor_outer_finds_exactly_the_qualifying(openings: Seq<OpeningPlacement>, kind: OpeningKind)
    requires
        openings.len() <= usize::MAX,
    ensures
        forall|t: int|
            0 <= t < ground_floor_outer_upto(openings, kind, openings.len() as int).len() ==> {
                let i = #[trigger] ground_floor_outer_upto(openings, kind, openings.len() as int)[t] as int;
                0 <= i < openings.len() && is_ground_floor_outer(openings[i], kind)
            },
        forall|i: int|
            0 <= i < openings.len() && is_ground_floor_outer(#[trigger] openings[i], kind)
                ==> ground_floor_outer_upto(openings, kind, openings.len() as int).contains(i as usize),
        ground_floor_outer_upto(openings, kind, openings.len() as int).len() > 0 ==> forall|i: int|
            0 <= i < ground_floor_outer_upto(openings, kind, openings.len() as int)[0]
                ==> !is_ground_floor_outer(#[trigger] openings[i], kind),
{
    lemma_ground_floor_outer(openings, kind, openings.len() as int);
}

} // verus!
