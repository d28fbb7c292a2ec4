//! The mathematical model of a field.
//!
//! A grid is a map from coordinates `(x, y)` to spots. What the engine does
//! is specified as functions from grids to grids (see [`crate::rules`]); this
//! module says what a well-formed grid is, and how its spots are counted.

use vstd::prelude::*;
use crate::spot::{Spot, SpotKind, SpotState};

verus! {

/// A coordinate `(x, y)`.
pub type Pos = (int, int);

/// A field as a map from its coordinates to its spots.
pub type Grid = Map<(int, int), Spot>;

/// The coordinates of a grid `w` wide and `h` high.
pub open spec fn rect(w: int, h: int) -> Set<Pos> {
    Set::new(|p: Pos| 0 <= p.0 < w && 0 <= p.1 < h)
}

/// Two distinct coordinates that touch, diagonals included.
pub open spec fn adjacent(p: Pos, q: Pos) -> bool {
    &&& p != q
    &&& p.0 - 1 <= q.0 <= p.0 + 1
    &&& p.1 - 1 <= q.1 <= p.1 + 1
}

/// The `k`-th of the eight coordinates around `p`, row by row.
pub open spec fn neighbor(p: Pos, k: int) -> Pos {
    let j = if k < 4 { k } else { k + 1 };
    (p.0 + j % 3 - 1, p.1 + j / 3 - 1)
}

pub open spec fn has_mine(g: Grid, p: Pos) -> bool {
    g.dom().contains(p) && g[p].kind is Mine
}

pub open spec fn is_hidden(g: Grid, p: Pos) -> bool {
    g.dom().contains(p) && g[p].state is Hidden
}

pub open spec fn is_flagged(g: Grid, p: Pos) -> bool {
    g.dom().contains(p) && g[p].state is Flagged
}

/// A spot that a reveal may open: hidden, and no mine.
pub open spec fn is_hidden_empty(g: Grid, p: Pos) -> bool {
    is_hidden(g, p) && g[p].kind is Empty
}

/// The number of mines among the first `k` neighbours of `p`.
pub open spec fn mines_among(g: Grid, p: Pos, k: int) -> int
    decreases k,
{
    if k <= 0 {
        0
    } else {
        mines_among(g, p, k - 1) + if has_mine(g, neighbor(p, k - 1)) { 1int } else { 0int }
    }
}

/// The number of mines around `p`.
pub open spec fn adjacent_mines(g: Grid, p: Pos) -> int {
    mines_among(g, p, 8)
}

/// The number of flags among the first `k` neighbours of `p`.
pub open spec fn flags_among(g: Grid, p: Pos, k: int) -> int
    decreases k,
{
    if k <= 0 {
        0
    } else {
        flags_among(g, p, k - 1) + if is_flagged(g, neighbor(p, k - 1)) { 1int } else { 0int }
    }
}

/// The number of flagged spots around `p`.
pub open spec fn adjacent_flags(g: Grid, p: Pos) -> int {
    flags_among(g, p, 8)
}

/// The spot at `p` is in a state its kind allows, and the number on an empty
/// spot is the number of mines around it.
pub open spec fn valid_spot(g: Grid, p: Pos) -> bool {
    &&& g[p].consistent()
    &&& g[p].kind matches SpotKind::Empty(n) ==> n == adjacent_mines(g, p)
}

/// A well-formed field of the given size.
pub open spec fn valid_grid(g: Grid, w: int, h: int) -> bool {
    &&& g.dom() == rect(w, h)
    &&& g.dom().finite()
    &&& forall|p: Pos| #[trigger] g.dom().contains(p) ==> valid_spot(g, p)
}

/// The coordinates that hold a mine.
pub open spec fn mine_set(g: Grid) -> Set<Pos> {
    Set::new(|p: Pos| has_mine(g, p))
}

/// The coordinates that carry a flag.
pub open spec fn flag_set(g: Grid) -> Set<Pos> {
    Set::new(|p: Pos| is_flagged(g, p))
}

/// The coordinates that are still hidden.
pub open spec fn hidden_set(g: Grid) -> Set<Pos> {
    Set::new(|p: Pos| is_hidden(g, p))
}

/// Two grids that differ at most in the states of their spots.
pub open spec fn same_kinds(g1: Grid, g2: Grid) -> bool {
    &&& g1.dom() == g2.dom()
    &&& forall|p: Pos| #[trigger] g1.dom().contains(p) ==> g1[p].kind == g2[p].kind
}

/// Two grids with the same mines.
pub open spec fn same_mines(g1: Grid, g2: Grid) -> bool {
    &&& g1.dom() == g2.dom()
    &&& forall|p: Pos| #[trigger] g1.dom().contains(p) ==> (g1[p].kind is Mine <==> g2[p].kind is Mine)
}

/// The coordinate that a pair of machine integers stands for.
pub open spec fn pos_of(at: (u16, u16)) -> Pos {
    (at.0 as int, at.1 as int)
}

/// The grid with the spot at `p` put into another state.
pub open spec fn restate(g: Grid, p: Pos, state: SpotState) -> Grid {
    g.insert(p, g[p].with_state(state))
}

/// The number of mines around a spot depends on where the mines are only.
pub proof fn lemma_mines_among_same_mines(g1: Grid, g2: Grid, p: Pos, k: int)
    requires
        same_mines(g1, g2),
    ensures
        mines_among(g1, p, k) == mines_among(g2, p, k),
    decreases k,
{
    if k > 0 {
        lemma_mines_among_same_mines(g1, g2, p, k - 1);
        let q = neighbor(p, k - 1);
        if g1.dom().contains(q) {
            assert(g1[q].kind is Mine <==> g2[q].kind is Mine);
        }
    }
}

/// Two grids with the same mines have the same set of mines.
pub proof fn lemma_same_mines_same_set(g1: Grid, g2: Grid)
    requires
        same_mines(g1, g2),
    ensures
        mine_set(g2) == mine_set(g1),
{
    assert forall|p: Pos| has_mine(g2, p) == has_mine(g1, p) by {
        if g1.dom().contains(p) {
            assert(g1[p].kind is Mine <==> g2[p].kind is Mine);
        }
    }
    assert(mine_set(g2) =~= mine_set(g1));
}

/// A grid whose spots change state, each within what its kind allows, stays
/// well formed and keeps its mines.
pub proof fn lemma_same_kinds_keeps_valid(g1: Grid, g2: Grid, w: int, h: int)
    requires
        valid_grid(g1, w, h),
        same_kinds(g1, g2),
        forall|p: Pos| #[trigger] g2.dom().contains(p) ==> g2[p].consistent(),
    ensures
        valid_grid(g2, w, h),
        mine_set(g2) == mine_set(g1),
{
    assert(same_mines(g1, g2)) by {
        assert forall|p: Pos| #[trigger] g1.dom().contains(p) implies (g1[p].kind is Mine
            <==> g2[p].kind is Mine) by {
            assert(g1[p].kind == g2[p].kind);
        }
    }
    assert forall|p: Pos| #[trigger] g2.dom().contains(p) implies valid_spot(g2, p) by {
        assert(g1.dom().contains(p));
        lemma_mines_among_same_mines(g1, g2, p, 8);
    }
    lemma_same_mines_same_set(g1, g2);
}

/// Putting one spot into a state that its kind allows keeps the grid well
/// formed and keeps its mines.
pub proof fn lemma_restate_keeps_valid(g: Grid, w: int, h: int, p: Pos, state: SpotState)
    requires
        valid_grid(g, w, h),
        g.dom().contains(p),
        g[p].with_state(state).consistent(),
    ensures
        valid_grid(restate(g, p, state), w, h),
        mine_set(restate(g, p, state)) == mine_set(g),
        same_kinds(g, restate(g, p, state)),
{
    let g2 = restate(g, p, state);
    assert(g2.dom() =~= g.dom());
    assert forall|q: Pos| #[trigger] g2.dom().contains(q) implies g2[q].consistent() by {
        assert(g.dom().contains(q));
        assert(valid_spot(g, q));
    }
    lemma_same_kinds_keeps_valid(g, g2, w, h);
}

/// A grid of `w` by `h` spots has finitely many coordinates, `w * h` of them.
pub proof fn lemma_rect_size(w: int, h: int)
    requires
        0 <= w,
        0 <= h,
    ensures
        rect(w, h).finite(),
        rect(w, h).len() == w * h,
    decreases h,
{
    if h == 0 {
        assert(rect(w, h) =~= Set::<Pos>::empty());
        assert(w * h == 0) by (nonlinear_arith)
            requires
                h == 0,
        ;
    } else {
        lemma_rect_size(w, h - 1);
        lemma_row_size(w, h - 1, w);
        let row = Set::new(|p: Pos| 0 <= p.0 < w && p.1 == h - 1);
        assert(rect(w, h) =~= rect(w, h - 1).union(row));
        assert(rect(w, h - 1).disjoint(row));
        vstd::set_lib::lemma_set_disjoint_lens(rect(w, h - 1), row);
        assert(w * h == w * (h - 1) + w) by (nonlinear_arith);
    }
}

proof fn lemma_row_size(w: int, y: int, n: int)
    requires
        0 <= n <= w,
    ensures
        Set::new(|p: Pos| 0 <= p.0 < n && p.1 == y).finite(),
        Set::new(|p: Pos| 0 <= p.0 < n && p.1 == y).len() == n,
    decreases n,
{
    let row = Set::new(|p: Pos| 0 <= p.0 < n && p.1 == y);
    if n == 0 {
        assert(row =~= Set::<Pos>::empty());
    } else {
        lemma_row_size(w, y, n - 1);
        let shorter = Set::new(|p: Pos| 0 <= p.0 < n - 1 && p.1 == y);
        assert(row =~= shorter.insert((n - 1, y)));
    }
}

/// Every coordinate around `p` is one of its eight neighbours, and no other
/// coordinate is.
pub proof fn lemma_neighbors_are_adjacent(p: Pos, q: Pos)
    ensures
        adjacent(p, q) <==> exists|k: int| 0 <= k < 8 && #[trigger] neighbor(p, k) == q,
{
    if adjacent(p, q) {
        let j = (q.1 - p.1 + 1) * 3 + (q.0 - p.0 + 1);
        let k = if j < 4 { j } else { j - 1 };
        assert(neighbor(p, k) == q);
    }
}

/// The coordinates around `p`.
pub open spec fn around(p: Pos) -> Set<Pos> {
    Set::new(|q: Pos| adjacent(p, q))
}

/// The first `k` of the eight coordinates around `p`.
spec fn first_around(p: Pos, k: int) -> Set<Pos> {
    Set::new(|q: Pos| exists|j: int| 0 <= j < k && #[trigger] neighbor(p, j) == q)
}

/// How many of the first `k` neighbours of `p` lie in `marked`.
spec fn marked_among(marked: Set<Pos>, p: Pos, k: int) -> int
    decreases k,
{
    if k <= 0 {
        0
    } else {
        marked_among(marked, p, k - 1) + if marked.contains(neighbor(p, k - 1)) { 1int } else { 0int }
    }
}

proof fn lemma_marked_among(marked: Set<Pos>, p: Pos, k: int)
    requires
        0 <= k <= 8,
    ensures
        first_around(p, k).finite(),
        marked_among(marked, p, k) == marked.intersect(first_around(p, k)).len(),
    decreases k,
{
    if k == 0 {
        assert(first_around(p, 0) =~= Set::<Pos>::empty());
        assert(marked.intersect(first_around(p, 0)) =~= Set::<Pos>::empty());
    } else {
        lemma_marked_among(marked, p, k - 1);
        let q = neighbor(p, k - 1);
        let before = first_around(p, k - 1);
        assert(!before.contains(q));
        assert(first_around(p, k) =~= before.insert(q));
        if marked.contains(q) {
            assert(marked.intersect(first_around(p, k)) =~= marked.intersect(before).insert(q));
        } else {
            assert(marked.intersect(first_around(p, k)) =~= marked.intersect(before));
        }
    }
}

proof fn lemma_first_around_is_around(p: Pos)
    ensures
        first_around(p, 8) == around(p),
{
    assert forall|q: Pos| first_around(p, 8).contains(q) <==> around(p).contains(q) by {
        lemma_neighbors_are_adjacent(p, q);
    }
    assert(first_around(p, 8) =~= around(p));
}

proof fn lemma_mines_among_is_marked(g: Grid, p: Pos, k: int)
    ensures
        mines_among(g, p, k) == marked_among(mine_set(g), p, k),
    decreases k,
{
    if k > 0 {
        lemma_mines_among_is_marked(g, p, k - 1);
    }
}

proof fn lemma_flags_among_is_marked(g: Grid, p: Pos, k: int)
    ensures
        flags_among(g, p, k) == marked_among(flag_set(g), p, k),
    decreases k,
{
    if k > 0 {
        lemma_flags_among_is_marked(g, p, k - 1);
    }
}

/// The number of mines around `p` is the number of coordinates around `p`
/// that hold a mine: each neighbour is counted, and none twice.
pub proof fn law_adjacent_mines_counts_mines(g: Grid, p: Pos)
    ensures
        around(p).finite(),
        adjacent_mines(g, p) == mine_set(g).intersect(around(p)).len(),
{
    lemma_mines_among_is_marked(g, p, 8);
    lemma_marked_among(mine_set(g), p, 8);
    lemma_first_around_is_around(p);
}

/// The number of flags around `p` is the number of coordinates around `p`
/// that carry a flag.
pub proof fn law_adjacent_flags_counts_flags(g: Grid, p: Pos)
    ensures
        around(p).finite(),
        adjacent_flags(g, p) == flag_set(g).intersect(around(p)).len(),
{
    lemma_flags_among_is_marked(g, p, 8);
    lemma_marked_among(flag_set(g), p, 8);
    lemma_first_around_is_around(p);
}

/// The count over the first `k` neighbours lies between 0 and `k`, and a
/// count of 0 means that none of them is a mine.
pub proof fn lemma_mines_among_bounds(g: Grid, p: Pos, k: int)
    requires
        0 <= k,
    ensures
        0 <= mines_among(g, p, k) <= k,
        mines_among(g, p, k) == 0 ==> forall|j: int| 0 <= j < k ==> !has_mine(g, #[trigger] neighbor(p, j)),
    decreases k,
{
    if k > 0 {
        lemma_mines_among_bounds(g, p, k - 1);
    }
}

/// An empty spot numbered 0 in a well-formed field has no mine next to it.
pub proof fn lemma_zero_has_no_mine_around(g: Grid, w: int, h: int, p: Pos, q: Pos)
    requires
        valid_grid(g, w, h),
        g.dom().contains(p),
        g[p].kind == SpotKind::Empty(0),
        adjacent(p, q),
    ensures
        !has_mine(g, q),
{
    lemma_mines_among_bounds(g, p, 8);
    lemma_neighbors_are_adjacent(p, q);
    let k = choose|k: int| 0 <= k < 8 && #[trigger] neighbor(p, k) == q;
    assert(!has_mine(g, neighbor(p, k)));
}

} // verus!
