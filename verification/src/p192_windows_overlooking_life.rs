//! P192 Windows Overlooking Life — relocate ground-floor windows to positions
//! where they look out over real activity (a street, a garden, open space),
//! not stare into a blank wall a few feet away.
//!
//! The operator's own description and source citation stand here; what it
//! decides without measuring geometry stands beside them.

use vstd::prelude::*;

use crate::citation::{cite, CitationView, SourceCitation};
use crate::operator::PatternOperator;

verus! {

/// The operator.
pub struct P192WindowsOverlookingLife;

/// The operator's name.
pub const NAME: &'static str = "p192_windows_overlooking_life";

/// The operator's one-line description.
pub const DESCRIPTION: &'static str = "Relocates ground-floor, outer-wall windows to positions where they overlook real street or open-space activity, not blank walls.";

/// The id of the source the operator cites.
pub const SOURCE_ID: &'static str = "alexander_apl_p192";

/// The display text of the source the operator cites.
pub const SOURCE_DISPLAY: &'static str = "Alexander et al., A Pattern Language, Pattern 192 (Windows Overlooking Life)";

/// The link to the source the operator cites.
pub const SOURCE_URL: &'static str = "https://patternlanguage.cc/Patterns/Windows-Overlooking-Life-(192)";

impl PatternOperator for P192WindowsOverlookingLife {
    fn name(&self) -> (r: &'static str)
        ensures
            r@ == NAME@,
    {
        NAME
    }

    fn description(&self) -> (r: &'static str)
        ensures
            r@ == DESCRIPTION@,
    {
        DESCRIPTION
    }

    fn source(&self) -> (r: SourceCitation)
        ensures
            r@ == (CitationView { id: SOURCE_ID@, display: SOURCE_DISPLAY@, url: Some(SOURCE_URL@) }),
    {
        cite(SOURCE_ID, SOURCE_DISPLAY, SOURCE_URL)
    }
}

/// What was measured of one edge of a building's outer ring for a window
/// that may move there: whether the edge is at least as long as the
/// window is wide, and whether a window at the same position along it
/// would overlook life (a street or an open space close enough) without
/// another building's wall too close in front of it.
#[derive(Debug, Clone, Copy, PartialEq, Eq)]
pub struct EdgeSurvey {
    pub fits: bool,
    pub overlooks_life: bool,
}

/// What was measured of one ground-floor, outer-wall window: the edge it
/// sits on, whether it already overlooks life where it is, and the survey
/// of every edge of its ring, in ring order (the closing repeat left out).
#[derive(Debug, Clone)]
pub struct WindowSurvey {
    pub ring_index: usize,
    pub overlooks_life_in_place: bool,
    pub edges: Vec<EdgeSurvey>,
}

/// What becomes of one window.
#[derive(Debug, Clone, Copy, PartialEq, Eq)]
pub enum WindowMove {
    /// It already overlooks life and stays where it is.
    AlreadyOverlooksLife,
    /// It moves to this edge of its ring, at the same position along it.
    MoveTo(usize),
    /// It fails where it is and no other edge can take it; it stays.
    NoBetterEdge,
}

/// Why the operator refuses to run.
#[derive(Debug, Clone, Copy, PartialEq, Eq)]
pub enum WindowRefusal {
    /// Every one of this many windows already overlooks life: nothing to do.
    AllAlreadyOverlookLife(usize),
    /// There is no ground-floor, outer-wall window to check.
    NoWindowsToCheck,
}

/// Edge `e` can take a window that now sits on edge `original`: it is
/// another edge of the ring, long enough for the window, and a window
/// there would overlook life.
pub open spec fn can_take(original: usize, edges: Seq<EdgeSurvey>, e: int) -> bool {
    0 <= e < edges.len() && e != original as int && edges[e].fits && edges[e].overlooks_life
}

/// The first edge at or after `k`, in ring order, that can take the window.
pub open spec fn first_taker_from(original: usize, edges: Seq<EdgeSurvey>, k: int) -> Option<usize>
    decreases edges.len() - k,
{
    if k < 0 || k >= edges.len() {
        None
    } else if can_take(original, edges, k) {
        Some(k as usize)
    } else {
        first_taker_from(original, edges, k + 1)
    }
}

/// What becomes of a window: it stays if it already overlooks life, else
/// it moves to the first edge, in ring order, that can take it, else it
/// stays with no better edge.
pub open spec fn planned_move(ring_index: usize, in_place: bool, edges: Seq<EdgeSurvey>) -> WindowMove {
    if in_place {
        WindowMove::AlreadyOverlooksLife
    } else {
        match first_taker_from(ring_index, edges, 0) {
            Some(e) => WindowMove::MoveTo(e),
            None => WindowMove::NoBetterEdge,
        }
    }
}

proof fn lemma_first_taker(original: usize, edges: Seq<EdgeSurvey>, k: int)
    requires
        0 <= k,
        edges.len() <= usize::MAX,
    ensures
        match first_taker_from(original, edges, k) {
            Some(e) => k <= e && can_take(original, edges, e as int) && forall|j: int|
                k <= j < e ==> !can_take(original, edges, j),
            None => forall|j: int| k <= j ==> !can_take(original, edges, j),
        },
    decreases edges.len() - k,
{
    if k < edges.len() && !can_take(original, edges, k) {
        lemma_first_taker(original, edges, k + 1);
    }
}

/// The edge a failing window moves to: the first edge of its ring, in
/// ring order, other than its own, that is long enough for it and where
/// it would overlook life; `None` when no edge can take it.
pub fn relocation_edge(original: usize, edges: &Vec<EdgeSurvey>) -> (r: Option<usize>)
    ensures
        r == first_taker_from(original, edges@, 0),
        match r {
            Some(e) => can_take(original, edges@, e as int) && forall|j: int|
                0 <= j < e ==> !can_take(original, edges@, j),
            None => forall|j: int| !can_take(original, edges@, j),
        },
{
    let n = edges.len();
    proof {
        lemma_first_taker(original, edges@, 0);
    }
    let mut k: usize = 0;
    while k < n
        invariant
            n == edges@.len(),
            k <= n,
            first_taker_from(original, edges@, k as int) == first_taker_from(original, edges@, 0),
        decreases n - k,
    {
        let edge = edges[k];
        if k != original && edge.fits && edge.overlooks_life {
            assert(first_taker_from(original, edges@, k as int) == Some(k));
            proof {
                lemma_first_taker(original, edges@, 0);
            }
            return Some(k);
        }
        k = k + 1;
    }
    None
}

/// A window that moves lands on another edge of its ring that is long
/// enough for it and where it overlooks life, and every earlier edge in
/// ring order could not take it; a window that finds no better edge had
/// no edge that could take it; a window that already overlooks life is
/// never moved.
pub proof fn law_a_moved_window_lands_on_the_first_edge_that_can_take_it(
    ring_index: usize,
    in_place: bool,
    edges: Seq<EdgeSurvey>,
)
    requires
        edges.len() <= usize::MAX,
    ensures
        in_place ==> planned_move(ring_index, in_place, edges) == WindowMove::AlreadyOverlooksLife,
        planned_move(ring_index, in_place, edges) matches WindowMove::MoveTo(e) ==> !in_place && e
            != ring_index && e < edges.len() && edges[e as int].fits && edges[e as int].overlooks_life
            && forall|j: int| 0 <= j < e ==> !can_take(ring_index, edges, j),
        planned_move(ring_index, in_place, edges) == WindowMove::NoBetterEdge ==> !in_place && forall|j: int|
            !can_take(ring_index, edges, j),
{
    lemma_first_taker(ring_index, edges, 0);
}

/// Decides what becomes of one surveyed window.
pub fn plan_window(w: &WindowSurvey) -> (m: WindowMove)
    ensures
        m == planned_move(w.ring_index, w.overlooks_life_in_place, w.edges@),
{
    if w.overlooks_life_in_place {
        WindowMove::AlreadyOverlooksLife
    } else {
        match relocation_edge(w.ring_index, &w.edges) {
            Some(e) => WindowMove::MoveTo(e),
            None => WindowMove::NoBetterEdge,
        }
    }
}

/// Every window already overlooks life.
pub open spec fn all_in_place(moves: Seq<WindowMove>) -> bool {
    forall|i: int| 0 <= i < moves.len() ==> moves[i] == WindowMove::AlreadyOverlooksLife
}

/// Whether the operator runs, given what becomes of every checked window:
/// it refuses when there is no window to check, and when every window
/// already overlooks life; it runs when at least one window failed where
/// it is, whether or not a better edge was found for it.
pub fn relocation_verdict(moves: &Vec<WindowMove>) -> (r: Result<(), WindowRefusal>)
    ensures
        moves@.len() == 0 ==> r == Err::<(), WindowRefusal>(WindowRefusal::NoWindowsToCheck),
        moves@.len() > 0 && all_in_place(moves@) ==> r == Err::<(), WindowRefusal>(
            WindowRefusal::AllAlreadyOverlookLife(moves@.len() as usize),
        ),
        r is Ok <==> moves@.len() > 0 && !all_in_place(moves@),
{
    let n = moves.len();
    if n == 0 {
        return Err(WindowRefusal::NoWindowsToCheck);
    }
    let mut i: usize = 0;
    while i < n
        invariant
            n == moves@.len(),
            i <= n,
            forall|j: int| 0 <= j < i ==> moves@[j] == WindowMove::AlreadyOverlooksLife,
        decreases n - i,
    {
        match moves[i] {
            WindowMove::AlreadyOverlooksLife => {},
            _ => {
                return Ok(());
            },
        }
        i = i + 1;
    }
    Err(WindowRefusal::AllAlreadyOverlookLife(n))
}

} // verus!
