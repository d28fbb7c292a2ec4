//! The laws of the game: what holds of the rules for every grid.
//!
//! The operations of the engine inherit these properties through their
//! contracts, which say that a field changes as the rules prescribe. The
//! functions named `law_` state what the game promises its players; those
//! named `lemma_` serve the proofs.

use vstd::prelude::*;
use crate::grid::{
    adjacent, adjacent_flags, flag_set, has_mine, is_flagged, is_hidden, is_hidden_empty,
    lemma_neighbors_are_adjacent, lemma_rect_size, lemma_same_kinds_keeps_valid, mine_set,
    neighbor, same_kinds, valid_grid, valid_spot, Grid, Pos,
};
use crate::rules::{
    chord_fires, chord_from, chord_region, chord_region_upto, cleared, flood_region, flows,
    intact, is_hidden_mine, reach_within, reached, resolve_grid, resolve_outcome, reveal_all,
    settled, step_grid, step_outcome, toggle_delta, toggle_grid, untouched,
};
use crate::spot::{SpotKind, SpotState};

verus! {

/// The flood reveals its starting spot.
pub proof fn law_flood_holds_start(g: Grid, start: Pos)
    requires
        is_hidden_empty(g, start),
    ensures
        flood_region(g, start).contains(start),
{
    assert(reach_within(g, start, start, 0));
}

/// The flood region is closed: from each of its spots numbered 0 the flood
/// passes on to every hidden empty spot around it.
pub proof fn law_flood_passes_on(g: Grid, start: Pos, a: Pos, b: Pos)
    requires
        flood_region(g, start).contains(a),
        flows(g, a, b),
    ensures
        flood_region(g, start).contains(b),
{
    let n = choose|n: nat| reach_within(g, start, a, n);
    assert(reach_within(g, start, b, n + 1));
}

/// The flood region holds hidden empty spots only: no mine, no flagged spot
/// and no spot that was revealed before.
pub proof fn law_flood_holds_hidden_empty(g: Grid, start: Pos, p: Pos)
    requires
        flood_region(g, start).contains(p),
    ensures
        is_hidden_empty(g, p),
{
    let n = choose|n: nat| reach_within(g, start, p, n);
    lemma_reach_hidden_empty(g, start, p, n);
}

proof fn lemma_reach_hidden_empty(g: Grid, start: Pos, p: Pos, n: nat)
    requires
        reach_within(g, start, p, n),
    ensures
        is_hidden_empty(g, p),
    decreases n,
{
    if n > 0 && reach_within(g, start, p, (n - 1) as nat) {
        lemma_reach_hidden_empty(g, start, p, (n - 1) as nat);
    }
}

/// The flood reaches nothing unless it starts on a hidden empty spot.
pub proof fn law_flood_needs_open_start(g: Grid, start: Pos, p: Pos)
    requires
        flood_region(g, start).contains(p),
    ensures
        is_hidden_empty(g, start),
{
    let n = choose|n: nat| reach_within(g, start, p, n);
    lemma_reach_open_start(g, start, p, n);
}

proof fn lemma_reach_open_start(g: Grid, start: Pos, p: Pos, n: nat)
    requires
        reach_within(g, start, p, n),
    ensures
        is_hidden_empty(g, start),
    decreases n,
{
    if n > 0 {
        if reach_within(g, start, p, (n - 1) as nat) {
            lemma_reach_open_start(g, start, p, (n - 1) as nat);
        } else {
            let q = choose|q: Pos|
                reach_within(g, start, q, (n - 1) as nat) && #[trigger] flows(g, q, p);
            lemma_reach_open_start(g, start, q, (n - 1) as nat);
        }
    }
}

/// The flood region is bounded: each of its spots but the first lies next to
/// a spot of the region that is numbered 0.
pub proof fn law_flood_came_from(g: Grid, start: Pos, p: Pos)
    requires
        flood_region(g, start).contains(p),
        p != start,
    ensures
        exists|a: Pos| flood_region(g, start).contains(a) && #[trigger] flows(g, a, p),
{
    let n = choose|n: nat| reach_within(g, start, p, n);
    lemma_reach_came_from(g, start, p, n);
}

proof fn lemma_reach_came_from(g: Grid, start: Pos, p: Pos, n: nat)
    requires
        reach_within(g, start, p, n),
        p != start,
    ensures
        exists|a: Pos| flood_region(g, start).contains(a) && #[trigger] flows(g, a, p),
    decreases n,
{
    if n > 0 {
        if reach_within(g, start, p, (n - 1) as nat) {
            lemma_reach_came_from(g, start, p, (n - 1) as nat);
        } else {
            let q = choose|q: Pos| reach_within(g, start, q, (n - 1) as nat) && #[trigger] flows(g, q, p);
            assert(reached(g, start, q));
            assert(flood_region(g, start).contains(q) && flows(g, q, p));
        }
    }
}

/// The flood region is the least set that holds the starting spot and is
/// closed under passing on: any such set holds the whole region.
pub proof fn law_flood_is_least(g: Grid, start: Pos, s: Set<Pos>, p: Pos)
    requires
        s.contains(start),
        forall|a: Pos, b: Pos| s.contains(a) && #[trigger] flows(g, a, b) ==> s.contains(b),
        flood_region(g, start).contains(p),
    ensures
        s.contains(p),
{
    let n = choose|n: nat| reach_within(g, start, p, n);
    lemma_reach_is_least(g, start, s, p, n);
}

proof fn lemma_reach_is_least(g: Grid, start: Pos, s: Set<Pos>, p: Pos, n: nat)
    requires
        s.contains(start),
        forall|a: Pos, b: Pos| s.contains(a) && #[trigger] flows(g, a, b) ==> s.contains(b),
        reach_within(g, start, p, n),
    ensures
        s.contains(p),
    decreases n,
{
    if n > 0 {
        if reach_within(g, start, p, (n - 1) as nat) {
            lemma_reach_is_least(g, start, s, p, (n - 1) as nat);
        } else {
            let q = choose|q: Pos| reach_within(g, start, q, (n - 1) as nat) && #[trigger] flows(g, q, p);
            lemma_reach_is_least(g, start, s, q, (n - 1) as nat);
        }
    }
}

/// From a spot with a number above 0 the flood goes nowhere: the step
/// reveals that spot alone.
pub proof fn law_flood_of_numbered(g: Grid, start: Pos)
    requires
        is_hidden_empty(g, start),
        g[start].kind != SpotKind::Empty(0),
    ensures
        flood_region(g, start) == set![start],
{
    law_flood_holds_start(g, start);
    assert forall|p: Pos| flood_region(g, start).contains(p) implies p == start by {
        if p != start {
            law_flood_is_least(g, start, set![start], p);
        }
    }
    assert(flood_region(g, start) =~= set![start]);
}

/// A step on a hidden empty spot reveals exactly its flood region: every spot
/// of the region ends revealed, and no spot outside it changes. In
/// particular a flagged spot keeps its flag, wherever it lies.
pub proof fn law_step_reveals_flood_region(g: Grid, start: Pos, p: Pos)
    requires
        is_hidden_empty(g, start),
        g.dom().contains(p),
    ensures
        step_outcome(g, start) is Continue,
        step_grid(g, start).dom() == g.dom(),
        step_grid(g, start)[p].kind == g[p].kind,
        flood_region(g, start).contains(p) ==> step_grid(g, start)[p].state is Revealed,
        !flood_region(g, start).contains(p) ==> step_grid(g, start)[p] == g[p],
        g[p].state is Flagged ==> step_grid(g, start)[p].state is Flagged,
{
    if flood_region(g, start).contains(p) {
        law_flood_holds_hidden_empty(g, start, p);
    }
    assert(step_grid(g, start).dom() =~= g.dom());
}

/// A step on a hidden mine yields `Boom`; that spot explodes and no other
/// spot changes.
pub proof fn law_step_on_mine(g: Grid, p: Pos)
    requires
        is_hidden(g, p),
        has_mine(g, p),
    ensures
        step_outcome(g, p) is Boom,
        step_grid(g, p).dom() == g.dom(),
        step_grid(g, p)[p] == g[p].with_state(SpotState::Exploded),
        forall|q: Pos| q != p && g.dom().contains(q) ==> #[trigger] step_grid(g, p)[q] == g[q],
{
    assert(step_grid(g, p).dom() =~= g.dom());
}

/// A step on a spot that is not hidden changes nothing.
pub proof fn law_step_elsewhere_is_idle(g: Grid, p: Pos)
    requires
        !is_hidden(g, p),
    ensures
        step_outcome(g, p) is Continue,
        step_grid(g, p) == g,
{
}

/// A step keeps a well-formed grid well formed, with all its mines, and it
/// leaves the revealed and the exploded spots as they are.
pub proof fn law_step_keeps_valid(g: Grid, w: int, h: int, p: Pos)
    requires
        valid_grid(g, w, h),
    ensures
        valid_grid(step_grid(g, p), w, h),
        same_kinds(g, step_grid(g, p)),
        mine_set(step_grid(g, p)) == mine_set(g),
        forall|q: Pos| #[trigger] settled(g, q) ==> step_grid(g, p)[q] == g[q],
{
    let g2 = step_grid(g, p);
    assert(g2.dom() =~= g.dom());
    assert forall|q: Pos| #[trigger] g2.dom().contains(q) implies g2[q].consistent()
        && g2[q].kind == g[q].kind by {
        assert(g.dom().contains(q));
        assert(valid_spot(g, q));
        if flood_region(g, p).contains(q) {
            law_flood_holds_hidden_empty(g, p, q);
        }
    }
    assert forall|q: Pos| #[trigger] settled(g, q) implies g2[q] == g[q] by {
        if flood_region(g, p).contains(q) {
            law_flood_holds_hidden_empty(g, p, q);
        }
    }
    lemma_same_kinds_keeps_valid(g, g2, w, h);
}

/// A step neither sets nor removes a flag, and it keeps the coordinates.
pub proof fn law_step_keeps_flags(g: Grid, p: Pos)
    ensures
        flag_set(step_grid(g, p)) == flag_set(g),
        step_grid(g, p).dom() == g.dom(),
{
    let g2 = step_grid(g, p);
    assert(g2.dom() =~= g.dom());
    assert forall|q: Pos| is_flagged(g2, q) == is_flagged(g, q) by {
        if flood_region(g, p).contains(q) {
            law_flood_holds_hidden_empty(g, p, q);
        }
    }
    assert(flag_set(g2) =~= flag_set(g));
}

/// A step yields `Boom` exactly when it sets off a mine.
pub proof fn law_step_boom_is_explosion(g: Grid, p: Pos)
    requires
        intact(g),
    ensures
        step_outcome(g, p) is Boom <==> !intact(step_grid(g, p)),
{
    let g2 = step_grid(g, p);
    if step_outcome(g, p) is Boom {
        assert(g2.dom().contains(p) && g2[p].state is Exploded);
    } else {
        assert forall|q: Pos| #[trigger] g2.dom().contains(q) implies !(g2[q].state is Exploded) by {
            assert(g.dom().contains(q));
        }
    }
}

/// Toggling the flag of a hidden spot twice restores the grid, and the two
/// deltas cancel.
pub proof fn law_toggle_twice(g: Grid, p: Pos)
    requires
        is_hidden(g, p),
    ensures
        toggle_grid(toggle_grid(g, p), p) == g,
        toggle_delta(g, p) + toggle_delta(toggle_grid(g, p), p) == 0,
        toggle_grid(g, p)[p].state is Flagged,
{
    assert(toggle_grid(toggle_grid(g, p), p) =~= g);
}

/// Toggling a flag keeps a well-formed grid well formed, with all its mines,
/// and it leaves the revealed and the exploded spots as they are.
pub proof fn law_toggle_keeps_valid(g: Grid, w: int, h: int, p: Pos)
    requires
        valid_grid(g, w, h),
    ensures
        valid_grid(toggle_grid(g, p), w, h),
        same_kinds(g, toggle_grid(g, p)),
        mine_set(toggle_grid(g, p)) == mine_set(g),
        forall|q: Pos| #[trigger] settled(g, q) ==> toggle_grid(g, p)[q] == g[q],
{
    let g2 = toggle_grid(g, p);
    assert(g2.dom() =~= g.dom());
    assert forall|q: Pos| #[trigger] g2.dom().contains(q) implies g2[q].consistent()
        && g2[q].kind == g[q].kind by {
        assert(g.dom().contains(q));
        assert(valid_spot(g, q));
    }
    lemma_same_kinds_keeps_valid(g, g2, w, h);
}

/// Toggling a flag changes the number of flags by the delta it reports, and
/// sets off no mine.
pub proof fn law_toggle_counts_flags(g: Grid, p: Pos)
    requires
        g.dom().finite(),
    ensures
        flag_set(g).finite(),
        flag_set(toggle_grid(g, p)).finite(),
        flag_set(toggle_grid(g, p)).len() == flag_set(g).len() + toggle_delta(g, p),
        toggle_grid(g, p).dom() == g.dom(),
        intact(g) ==> intact(toggle_grid(g, p)),
{
    let g2 = toggle_grid(g, p);
    assert(g2.dom() =~= g.dom());
    assert(flag_set(g).subset_of(g.dom()));
    vstd::set_lib::lemma_set_subset_finite(g.dom(), flag_set(g));
    if is_hidden(g, p) {
        assert(flag_set(g2) =~= flag_set(g).insert(p));
    } else if is_flagged(g, p) {
        assert(flag_set(g2) =~= flag_set(g).remove(p));
    }
    if intact(g) {
        assert forall|q: Pos| #[trigger] g2.dom().contains(q) implies !(g2[q].state is Exploded) by {
            assert(g.dom().contains(q));
        }
    }
}

/// A chord changes nothing unless the number of flags around the spot equals
/// its number exactly: one flag fewer or one more leaves the grid as it is.
pub proof fn law_chord_needs_exact_flags(g: Grid, p: Pos)
    requires
        g.dom().contains(p),
        g[p].kind matches SpotKind::Empty(n) && adjacent_flags(g, p) != n,
    ensures
        resolve_grid(g, p) == g,
        resolve_outcome(g, p) is Continue,
{
}

/// A chord keeps a well-formed grid well formed, with all its mines, and it
/// leaves the revealed and the exploded spots as they are.
pub proof fn law_chord_keeps_valid(g: Grid, w: int, h: int, p: Pos)
    requires
        valid_grid(g, w, h),
    ensures
        valid_grid(resolve_grid(g, p), w, h),
        same_kinds(g, resolve_grid(g, p)),
        mine_set(resolve_grid(g, p)) == mine_set(g),
        forall|q: Pos| #[trigger] settled(g, q) ==> resolve_grid(g, p)[q] == g[q],
{
    lemma_chord_keeps_valid(g, w, h, p, 0);
}

proof fn lemma_chord_keeps_valid(g: Grid, w: int, h: int, p: Pos, k: int)
    requires
        0 <= k <= 8,
        valid_grid(g, w, h),
    ensures
        valid_grid(chord_from(g, p, k).0, w, h),
        same_kinds(g, chord_from(g, p, k).0),
        mine_set(chord_from(g, p, k).0) == mine_set(g),
        forall|q: Pos| #[trigger] settled(g, q) ==> chord_from(g, p, k).0[q] == g[q],
    decreases 8 - k,
{
    if k < 8 {
        let g2 = step_grid(g, neighbor(p, k));
        law_step_keeps_valid(g, w, h, neighbor(p, k));
        if !(step_outcome(g, neighbor(p, k)) is Boom) {
            lemma_chord_keeps_valid(g2, w, h, p, k + 1);
            let g3 = chord_from(g2, p, k + 1).0;
            assert forall|q: Pos| #[trigger] g.dom().contains(q) implies g[q].kind == g3[q].kind by {
                assert(g2.dom().contains(q));
            }
            assert forall|q: Pos| #[trigger] settled(g, q) implies g3[q] == g[q] by {
                assert(settled(g2, q));
            }
        }
    }
}

/// A chord neither sets nor removes a flag, it keeps the coordinates, and it
/// yields `Boom` exactly when it sets off a mine.
pub proof fn law_chord_keeps_flags(g: Grid, p: Pos)
    ensures
        flag_set(resolve_grid(g, p)) == flag_set(g),
        resolve_grid(g, p).dom() == g.dom(),
        intact(g) ==> (resolve_outcome(g, p) is Boom <==> !intact(resolve_grid(g, p))),
{
    lemma_chord_from(g, p, 0);
}

proof fn lemma_chord_from(g: Grid, p: Pos, k: int)
    requires
        0 <= k <= 8,
    ensures
        flag_set(chord_from(g, p, k).0) == flag_set(g),
        chord_from(g, p, k).0.dom() == g.dom(),
        intact(g) ==> (chord_from(g, p, k).1 is Boom <==> !intact(chord_from(g, p, k).0)),
    decreases 8 - k,
{
    if k < 8 {
        let q = neighbor(p, k);
        law_step_keeps_flags(g, q);
        if intact(g) {
            law_step_boom_is_explosion(g, q);
        }
        if !(step_outcome(g, q) is Boom) {
            lemma_chord_from(step_grid(g, q), p, k + 1);
        }
    }
}

/// A chord that fires yields `Boom` exactly if a hidden mine lies next to
/// the spot: in which order the neighbours are stepped on makes no
/// difference to the outcome.
pub proof fn law_chord_boom_is_hidden_mine(g: Grid, p: Pos)
    requires
        chord_fires(g, p),
    ensures
        resolve_outcome(g, p) is Boom <==> exists|q: Pos|
            adjacent(p, q) && #[trigger] is_hidden_mine(g, q),
{
    lemma_chord_boom(g, p, 0);
    if resolve_outcome(g, p) is Boom {
        let j = choose|j: int| 0 <= j < 8 && is_hidden_mine(g, #[trigger] neighbor(p, j));
        lemma_neighbors_are_adjacent(p, neighbor(p, j));
        assert(adjacent(p, neighbor(p, j)) && is_hidden_mine(g, neighbor(p, j)));
    }
    if exists|q: Pos| adjacent(p, q) && #[trigger] is_hidden_mine(g, q) {
        let q = choose|q: Pos| adjacent(p, q) && #[trigger] is_hidden_mine(g, q);
        lemma_neighbors_are_adjacent(p, q);
        let j = choose|j: int| 0 <= j < 8 && #[trigger] neighbor(p, j) == q;
        assert(is_hidden_mine(g, neighbor(p, j)));
    }
}

proof fn lemma_chord_boom(g: Grid, p: Pos, k: int)
    requires
        0 <= k <= 8,
    ensures
        chord_from(g, p, k).1 is Boom <==> exists|j: int|
            k <= j < 8 && is_hidden_mine(g, #[trigger] neighbor(p, j)),
    decreases 8 - k,
{
    if k < 8 {
        let q = neighbor(p, k);
        if step_outcome(g, q) is Boom {
            assert(is_hidden_mine(g, neighbor(p, k)));
        } else {
            let g2 = step_grid(g, q);
            lemma_chord_boom(g2, p, k + 1);
            assert forall|j: int| k + 1 <= j < 8 implies is_hidden_mine(
                g2,
                #[trigger] neighbor(p, j),
            ) == is_hidden_mine(g, neighbor(p, j)) by {
                lemma_step_keeps_hidden_mines(g, q, neighbor(p, j));
            }
            if chord_from(g, p, k).1 is Boom {
                let j = choose|j: int|
                    k + 1 <= j < 8 && is_hidden_mine(g2, #[trigger] neighbor(p, j));
                assert(is_hidden_mine(g, neighbor(p, j)));
            }
            if exists|j: int| k <= j < 8 && is_hidden_mine(g, #[trigger] neighbor(p, j)) {
                let j = choose|j: int| k <= j < 8 && is_hidden_mine(g, #[trigger] neighbor(p, j));
                assert(j != k);
                assert(is_hidden_mine(g2, neighbor(p, j)));
            }
        }
    }
}

proof fn lemma_step_keeps_hidden_mines(g: Grid, q: Pos, r: Pos)
    requires
        step_outcome(g, q) is Continue,
    ensures
        is_hidden_mine(step_grid(g, q), r) == is_hidden_mine(g, r),
{
    if flood_region(g, q).contains(r) {
        law_flood_holds_hidden_empty(g, q, r);
    }
}

/// A chord that fires and sets off no mine reveals the flood regions of the
/// hidden empty spots around it, taken together, and changes nothing else:
/// in which order the neighbours are stepped on makes no difference to the
/// grid either.
pub proof fn law_chord_reveals_flood_regions(g: Grid, p: Pos)
    requires
        chord_fires(g, p),
        resolve_outcome(g, p) is Continue,
    ensures
        resolve_grid(g, p) == reveal_all(g, chord_region(g, p)),
{
    lemma_chord_boom(g, p, 0);
    lemma_chord_reveals(g, p, 0);
    assert(chord_region_upto(g, p, 0) =~= Set::<Pos>::empty());
    assert(reveal_all(g, chord_region_upto(g, p, 0)) =~= g);
    assert forall|c: Pos| chord_region_upto(g, p, 8).contains(c) <==> chord_region(g, p).contains(
        c,
    ) by {
        if chord_region_upto(g, p, 8).contains(c) {
            let j = choose|j: int|
                0 <= j < 8 && #[trigger] flood_region(g, neighbor(p, j)).contains(c);
            lemma_neighbors_are_adjacent(p, neighbor(p, j));
            assert(adjacent(p, neighbor(p, j)) && flood_region(g, neighbor(p, j)).contains(c));
        }
        if chord_region(g, p).contains(c) {
            let q = choose|q: Pos| adjacent(p, q) && #[trigger] flood_region(g, q).contains(c);
            lemma_neighbors_are_adjacent(p, q);
            let j = choose|j: int| 0 <= j < 8 && #[trigger] neighbor(p, j) == q;
            assert(flood_region(g, neighbor(p, j)).contains(c));
        }
    }
    assert(chord_region_upto(g, p, 8) =~= chord_region(g, p));
}

proof fn lemma_chord_reveals(g: Grid, p: Pos, k: int)
    requires
        0 <= k <= 8,
        forall|j: int| 0 <= j < 8 ==> !is_hidden_mine(g, #[trigger] neighbor(p, j)),
    ensures
        chord_from(reveal_all(g, chord_region_upto(g, p, k)), p, k).0 == reveal_all(
            g,
            chord_region_upto(g, p, 8),
        ),
    decreases 8 - k,
{
    if k < 8 {
        lemma_chord_step(g, p, k, neighbor(p, k));
        lemma_chord_reveals(g, p, k + 1);
    }
}

/// After the floods from the first `k` neighbours of `p`, a step on the next
/// neighbour `q` adds the flood region that `q` had at the outset.
proof fn lemma_chord_step(g: Grid, p: Pos, k: int, q: Pos)
    requires
        0 <= k,
        !is_hidden_mine(g, q),
        q == neighbor(p, k),
    ensures
        step_outcome(reveal_all(g, chord_region_upto(g, p, k)), q) is Continue,
        step_grid(reveal_all(g, chord_region_upto(g, p, k)), q) == reveal_all(
            g,
            chord_region_upto(g, p, k + 1),
        ),
{
    let done = chord_region_upto(g, p, k);
    let next = chord_region_upto(g, p, k + 1);
    let gk = reveal_all(g, done);
    assert(gk.dom() =~= g.dom());
    assert forall|c: Pos| done.contains(c) implies is_hidden_empty(g, c) by {
        lemma_chord_region_hidden_empty(g, p, k, c);
    }
    assert forall|c: Pos| next.contains(c) <==> done.contains(c) || flood_region(g, q).contains(
        c,
    ) by {
        if next.contains(c) {
            let j = choose|j: int|
                0 <= j < k + 1 && #[trigger] flood_region(g, neighbor(p, j)).contains(c);
            if j < k {
                assert(flood_region(g, neighbor(p, j)).contains(c));
            }
        }
        if done.contains(c) {
            let j = choose|j: int| 0 <= j < k && #[trigger] flood_region(g, neighbor(p, j)).contains(c);
            assert(0 <= j < k + 1 && flood_region(g, neighbor(p, j)).contains(c));
        }
        if flood_region(g, q).contains(c) {
            assert(flood_region(g, neighbor(p, k)).contains(c));
        }
    }
    let after = step_grid(gk, q);
    let goal = reveal_all(g, next);
    if !is_hidden(gk, q) {
        // Either `q` was never hidden, or an earlier flood has opened it and
        // with it all that the flood from `q` would have reached.
        assert forall|c: Pos| flood_region(g, q).contains(c) implies done.contains(c) by {
            law_flood_needs_open_start(g, q, c);
            assert(done.contains(q));
            assert forall|a: Pos, b: Pos| done.contains(a) && #[trigger] flows(
                g,
                a,
                b,
            ) implies done.contains(b) by {
                lemma_chord_region_closed(g, p, k, a, b);
            }
            law_flood_is_least(g, q, done, c);
        }
        assert(after =~= goal);
    } else {
        assert(is_hidden_empty(gk, q));
        assert(is_hidden_empty(g, q));
        let late = flood_region(gk, q);
        let early = flood_region(g, q);
        assert forall|a: Pos, b: Pos| #[trigger] flows(gk, a, b) implies flows(g, a, b) by {}
        assert forall|c: Pos| late.contains(c) implies early.contains(c) by {
            law_flood_holds_start(g, q);
            assert forall|a: Pos, b: Pos| early.contains(a) && #[trigger] flows(
                gk,
                a,
                b,
            ) implies early.contains(b) by {
                law_flood_passes_on(g, q, a, b);
            }
            law_flood_is_least(gk, q, early, c);
        }
        assert forall|c: Pos| early.contains(c) implies done.contains(c) || late.contains(c) by {
            let both = done.union(late);
            law_flood_holds_start(gk, q);
            assert forall|a: Pos, b: Pos| both.contains(a) && #[trigger] flows(
                g,
                a,
                b,
            ) implies both.contains(b) by {
                if done.contains(a) {
                    lemma_chord_region_closed(g, p, k, a, b);
                } else {
                    law_flood_holds_hidden_empty(gk, q, a);
                    if is_hidden(gk, b) {
                        assert(flows(gk, a, b));
                        law_flood_passes_on(gk, q, a, b);
                    }
                }
            }
            law_flood_is_least(g, q, both, c);
        }
        assert forall|c: Pos| late.contains(c) implies is_hidden_empty(gk, c) by {
            law_flood_holds_hidden_empty(gk, q, c);
        }
        assert(after =~= goal);
    }
}

proof fn lemma_chord_region_closed(g: Grid, p: Pos, k: int, a: Pos, b: Pos)
    requires
        chord_region_upto(g, p, k).contains(a),
        flows(g, a, b),
    ensures
        chord_region_upto(g, p, k).contains(b),
{
    let j = choose|j: int| 0 <= j < k && #[trigger] flood_region(g, neighbor(p, j)).contains(a);
    law_flood_passes_on(g, neighbor(p, j), a, b);
}

proof fn lemma_chord_region_hidden_empty(g: Grid, p: Pos, k: int, c: Pos)
    requires
        chord_region_upto(g, p, k).contains(c),
    ensures
        is_hidden_empty(g, c),
{
    let j = choose|j: int| 0 <= j < k && #[trigger] flood_region(g, neighbor(p, j)).contains(c);
    law_flood_holds_hidden_empty(g, neighbor(p, j), c);
}

/// Whether a grid is cleared depends on its empty spots only: what state the
/// mines are in, flagged or not, makes no difference.
pub proof fn law_cleared_ignores_mines(g1: Grid, g2: Grid)
    requires
        same_kinds(g1, g2),
        forall|p: Pos| #[trigger] g1.dom().contains(p) && g1[p].kind is Empty ==> g1[p].state == g2[p].state,
    ensures
        cleared(g1) == cleared(g2),
{
    if cleared(g1) {
        assert forall|p: Pos| #[trigger] g2.dom().contains(p) && g2[p].kind is Empty implies g2[p].state is Revealed by {
            assert(g1.dom().contains(p));
        }
    }
    if cleared(g2) {
        assert forall|p: Pos| #[trigger] g1.dom().contains(p) && g1[p].kind is Empty implies g1[p].state is Revealed by {
            assert(g2.dom().contains(p));
        }
    }
}

/// A field holds at most as many flags as it has spots.
pub proof fn lemma_flags_bounded(g: Grid, w: int, h: int)
    requires
        valid_grid(g, w, h),
        0 <= w,
        0 <= h,
    ensures
        flag_set(g).finite(),
        flag_set(g).len() <= w * h,
{
    assert(flag_set(g).subset_of(g.dom()));
    vstd::set_lib::lemma_set_subset_finite(g.dom(), flag_set(g));
    vstd::set_lib::lemma_len_subset(flag_set(g), g.dom());
    lemma_rect_size(w, h);
}

/// A fresh field, with fewer mines than spots, is not cleared; no mine has
/// gone off on it, and it carries no flag.
pub proof fn lemma_untouched_field(g: Grid, w: int, h: int)
    requires
        valid_grid(g, w, h),
        0 <= w,
        0 <= h,
        mine_set(g).len() < w * h,
        untouched(g),
    ensures
        !cleared(g),
        intact(g),
        flag_set(g) == Set::<Pos>::empty(),
{
    assert(flag_set(g) =~= Set::<Pos>::empty());
    lemma_rect_size(w, h);
    // With fewer mines than spots, some spot is empty; it is hidden.
    assert(!(mine_set(g) =~= g.dom()));
    let p = choose|p: Pos| g.dom().contains(p) && !mine_set(g).contains(p);
    assert(g.dom().contains(p) && g[p].kind is Empty && g[p].state is Hidden);
}

} // verus!
