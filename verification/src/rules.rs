//! The rules of the game as functions on grids: what a step, a flag toggle
//! and a chord do to a grid, and when a grid is cleared.
//!
//! The operations of the engine are specified by these functions; what holds
//! of them for every grid is proved in [`crate::laws`].

use vstd::prelude::*;
use crate::grid::{
    adjacent, adjacent_flags, has_mine, is_flagged, is_hidden, is_hidden_empty, neighbor, Grid,
    Pos,
};
use crate::spot::{SpotKind, SpotState, StepResult};

verus! {

/// The flood passes from `a` on to `b`: `a` is an empty spot with no mine
/// around it, and `b` is a hidden empty spot next to it.
pub open spec fn flows(g: Grid, a: Pos, b: Pos) -> bool {
    &&& g.dom().contains(a)
    &&& g[a].kind == SpotKind::Empty(0)
    &&& adjacent(a, b)
    &&& is_hidden_empty(g, b)
}

/// The flood that starts at `start` arrives at `p` after at most `n` passes.
pub open spec fn reach_within(g: Grid, start: Pos, p: Pos, n: nat) -> bool
    decreases n,
{
    if n == 0 {
        p == start && is_hidden_empty(g, start)
    } else {
        ||| reach_within(g, start, p, (n - 1) as nat)
        ||| exists|q: Pos| reach_within(g, start, q, (n - 1) as nat) && #[trigger] flows(g, q, p)
    }
}

/// The flood that starts at `start` arrives at `p`.
pub open spec fn reached(g: Grid, start: Pos, p: Pos) -> bool {
    exists|n: nat| reach_within(g, start, p, n)
}

/// The spots that a step on the hidden empty spot `start` reveals: `start`
/// itself and, passing on through every spot numbered 0, all hidden empty
/// spots connected to it. Flagged spots are no part of it, and the flood
/// does not pass through them.
pub open spec fn flood_region(g: Grid, start: Pos) -> Set<Pos> {
    Set::new(|p: Pos| reached(g, start, p))
}

/// The grid with the spots of `region` revealed and all others as they were.
pub open spec fn reveal_all(g: Grid, region: Set<Pos>) -> Grid {
    Map::new(
        |p: Pos| g.dom().contains(p),
        |p: Pos| if region.contains(p) { g[p].with_state(SpotState::Revealed) } else { g[p] },
    )
}

/// The grid after a step on `p`. Only a hidden spot reacts: a mine explodes,
/// an empty spot is revealed together with its flood region.
pub open spec fn step_grid(g: Grid, p: Pos) -> Grid {
    if !is_hidden(g, p) {
        g
    } else if g[p].kind is Mine {
        g.insert(p, g[p].with_state(SpotState::Exploded))
    } else {
        reveal_all(g, flood_region(g, p))
    }
}

/// The outcome of a step on `p`: `Boom` exactly on a hidden mine.
pub open spec fn step_outcome(g: Grid, p: Pos) -> StepResult {
    if is_hidden(g, p) && g[p].kind is Mine {
        StepResult::Boom
    } else {
        StepResult::Continue
    }
}

/// The grid after toggling the flag on `p`: hidden becomes flagged, flagged
/// becomes hidden, anything else stays.
pub open spec fn toggle_grid(g: Grid, p: Pos) -> Grid {
    if is_hidden(g, p) {
        g.insert(p, g[p].with_state(SpotState::Flagged))
    } else if is_flagged(g, p) {
        g.insert(p, g[p].with_state(SpotState::Hidden))
    } else {
        g
    }
}

/// By how much toggling the flag on `p` changes the number of flags.
pub open spec fn toggle_delta(g: Grid, p: Pos) -> int {
    if is_hidden(g, p) {
        1
    } else if is_flagged(g, p) {
        -1
    } else {
        0
    }
}

/// A chord on `p` fires: `p` is a revealed spot with a number above 0, and
/// exactly that many of its neighbours are flagged.
pub open spec fn chord_fires(g: Grid, p: Pos) -> bool {
    &&& g.dom().contains(p)
    &&& g[p].state is Revealed
    &&& g[p].kind matches SpotKind::Empty(n)
    &&& n > 0
    &&& adjacent_flags(g, p) == n
}

/// A chord that fires steps on the neighbours of `p` in turn, from the
/// `k`-th on, and stops at the first mine.
pub open spec fn chord_from(g: Grid, p: Pos, k: int) -> (Grid, StepResult)
    decreases 8 - k,
{
    if k >= 8 {
        (g, StepResult::Continue)
    } else if step_outcome(g, neighbor(p, k)) is Boom {
        (step_grid(g, neighbor(p, k)), StepResult::Boom)
    } else {
        chord_from(step_grid(g, neighbor(p, k)), p, k + 1)
    }
}

/// The grid after a chord on `p`.
pub open spec fn resolve_grid(g: Grid, p: Pos) -> Grid {
    if chord_fires(g, p) {
        chord_from(g, p, 0).0
    } else {
        g
    }
}

/// The outcome of a chord on `p`.
pub open spec fn resolve_outcome(g: Grid, p: Pos) -> StepResult {
    if chord_fires(g, p) {
        chord_from(g, p, 0).1
    } else {
        StepResult::Continue
    }
}

/// The game is won: every empty spot is revealed.
pub open spec fn cleared(g: Grid) -> bool {
    forall|p: Pos| #[trigger] g.dom().contains(p) && g[p].kind is Empty ==> g[p].state is Revealed
}

/// No spot has been touched yet: all are hidden.
pub open spec fn untouched(g: Grid) -> bool {
    forall|p: Pos| #[trigger] g.dom().contains(p) ==> g[p].state is Hidden
}

/// No mine has gone off.
pub open spec fn intact(g: Grid) -> bool {
    forall|p: Pos| #[trigger] g.dom().contains(p) ==> !(g[p].state is Exploded)
}

/// The spot at `q` is revealed or has exploded: states that it never leaves.
pub open spec fn settled(g: Grid, q: Pos) -> bool {
    g.dom().contains(q) && (g[q].state is Revealed || g[q].state is Exploded)
}

/// A mine lies hidden at `p`.
pub open spec fn is_hidden_mine(g: Grid, p: Pos) -> bool {
    is_hidden(g, p) && has_mine(g, p)
}

/// The spots that the floods from the first `k` neighbours of `p` reveal.
pub open spec fn chord_region_upto(g: Grid, p: Pos, k: int) -> Set<Pos> {
    Set::new(
        |c: Pos|
            exists|j: int| 0 <= j < k && #[trigger] flood_region(g, neighbor(p, j)).contains(c),
    )
}

/// The spots that a chord on `p` reveals if it sets off no mine: the flood
/// regions of the hidden empty spots around `p`, taken together.
pub open spec fn chord_region(g: Grid, p: Pos) -> Set<Pos> {
    Set::new(|c: Pos| exists|q: Pos| adjacent(p, q) && #[trigger] flood_region(g, q).contains(c))
}

} // verus!
