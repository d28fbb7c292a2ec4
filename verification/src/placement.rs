//! Building a field: laying the mines, and numbering the empty spots.

use vstd::prelude::*;
use crate::grid::{
    adjacent_mines, lemma_mines_among_bounds, lemma_mines_among_same_mines, mine_set,
    mines_among, pos_of, rect, same_mines, valid_spot, Grid, Pos,
};
use crate::layout::{
    grid_of, lemma_grid_of_dom, lemma_grid_of_spot, lemma_grid_of_update, lemma_spot_count,
    neighbor_within, offset_at,
};
use crate::spot::{FieldError, Spot, SpotKind, SpotState};

verus! {

/// A hidden empty spot that no mine has been counted for yet.
pub open spec fn blank() -> Spot {
    Spot { kind: SpotKind::Empty(0), state: SpotState::Hidden }
}

/// A hidden mine.
pub open spec fn mine() -> Spot {
    Spot { kind: SpotKind::Mine, state: SpotState::Hidden }
}

/// One of the first `n` of the given mines lies at `p`.
pub open spec fn laid(mines: Seq<(u16, u16)>, n: int, p: Pos) -> bool {
    exists|i: int| 0 <= i < n && pos_of(#[trigger] mines[i]) == p
}

/// Why no field of the given size can hold the given mines, if there is a
/// reason: the mines leave no empty spot, one of them lies outside the grid,
/// or two of them lie on the same spot.
pub open spec fn placement_error(w: int, h: int, mines: Seq<(u16, u16)>) -> Option<FieldError> {
    if mines.len() >= w * h {
        Some(FieldError::TooManyMines)
    } else if exists|i: int| 0 <= i < mines.len() && !rect(w, h).contains(pos_of(#[trigger] mines[i])) {
        Some(FieldError::OutOfBounds)
    } else if !mines.no_duplicates() {
        Some(FieldError::DuplicateMine)
    } else {
        None
    }
}

/// The spots of a field without mines.
pub(crate) fn blank_cells(width: u16, height: u16) -> (cells: Vec<Spot>)
    ensures
        cells@.len() == width * height,
        forall|p: Pos| #[trigger]
            rect(width as int, height as int).contains(p) ==> grid_of(
                cells@,
                width as int,
                height as int,
            )[p] == blank(),
{
    proof {
        lemma_spot_count(width as int, height as int);
    }
    let total: usize = width as usize * height as usize;
    let mut cells: Vec<Spot> = Vec::new();
    let mut i: usize = 0;
    while i < total
        invariant
            i <= total,
            cells@.len() == i,
            forall|j: int| 0 <= j < i ==> cells@[j] == blank(),
        decreases total - i,
    {
        cells.push(Spot { kind: SpotKind::Empty(0), state: SpotState::Hidden });
        i += 1;
    }
    proof {
        assert forall|p: Pos| #[trigger]
            rect(width as int, height as int).contains(p) implies grid_of(
            cells@,
            width as int,
            height as int,
        )[p] == blank() by {
            lemma_grid_of_spot(cells@, width as int, height as int, p.0, p.1);
        }
    }
    cells
}

/// Lays the given mines on a field without mines. Returns `false`, and
/// leaves the spots in no particular condition, if two mines lie on the same
/// spot.
pub(crate) fn lay_mines(cells: &mut Vec<Spot>, width: u16, height: u16, mines: &Vec<(u16, u16)>) -> (ok:
    bool)
    requires
        old(cells)@.len() == width * height,
        forall|i: int|
            0 <= i < mines.len() ==> rect(width as int, height as int).contains(
                pos_of(#[trigger] mines[i]),
            ),
        forall|p: Pos| #[trigger]
            rect(width as int, height as int).contains(p) ==> grid_of(
                old(cells)@,
                width as int,
                height as int,
            )[p] == blank(),
    ensures
        final(cells)@.len() == width * height,
        ok == mines@.no_duplicates(),
        ok ==> ({
            let g = grid_of(final(cells)@, width as int, height as int);
            &&& forall|p: Pos| #[trigger]
                g.dom().contains(p) ==> g[p] == if laid(mines@, mines.len() as int, p) {
                    mine()
                } else {
                    blank()
                }
            &&& mine_set(g).finite()
            &&& mine_set(g).len() == mines.len()
        }),
{
    let ghost w = width as int;
    let ghost h = height as int;
    proof {
        lemma_grid_of_dom(cells@, w, h);
        assert(mine_set(grid_of(cells@, w, h)) =~= Set::<Pos>::empty());
    }
    let mut i: usize = 0;
    while i < mines.len()
        invariant
            i <= mines.len(),
            w == width as int,
            h == height as int,
            cells@.len() == w * h,
            forall|j: int| 0 <= j < mines.len() ==> rect(w, h).contains(pos_of(#[trigger] mines[j])),
            grid_of(cells@, w, h).dom() == rect(w, h),
            forall|p: Pos| #[trigger]
                rect(w, h).contains(p) ==> grid_of(cells@, w, h)[p] == if laid(mines@, i as int, p) {
                    mine()
                } else {
                    blank()
                },
            mine_set(grid_of(cells@, w, h)).finite(),
            mine_set(grid_of(cells@, w, h)).len() == i,
            forall|a: int, b: int| 0 <= a < b < i ==> mines@[a] != mines@[b],
        decreases mines.len() - i,
    {
        let (x, y) = mines[i];
        let ghost p = (x as int, y as int);
        let ghost g = grid_of(cells@, w, h);
        assert(rect(w, h).contains(pos_of(mines@[i as int])));
        let at = offset_at(width, height, x, y);
        proof {
            lemma_grid_of_spot(cells@, w, h, x as int, y as int);
            assert(rect(w, h).contains(p));
        }
        match cells[at].kind {
            SpotKind::Mine => {
                proof {
                    assert(laid(mines@, i as int, p));
                    let j = choose|j: int| 0 <= j < i && pos_of(#[trigger] mines@[j]) == p;
                    assert(mines@[j] == mines@[i as int]);
                }
                return false;
            },
            SpotKind::Empty(_) => {},
        }
        proof {
            lemma_grid_of_update(cells@, w, h, x as int, y as int, mine());
        }
        cells.set(at, Spot { kind: SpotKind::Mine, state: SpotState::Hidden });
        proof {
            let g2 = grid_of(cells@, w, h);
            assert(g2 == g.insert(p, mine()));
            assert(g2.dom() =~= rect(w, h));
            assert(!laid(mines@, i as int, p));
            assert forall|q: Pos| #[trigger] rect(w, h).contains(q) implies g2[q] == if laid(
                mines@,
                i + 1,
                q,
            ) {
                mine()
            } else {
                blank()
            } by {
                if q == p {
                    assert(pos_of(mines@[i as int]) == q);
                } else if laid(mines@, i + 1, q) {
                    let j = choose|j: int| 0 <= j < i + 1 && pos_of(#[trigger] mines@[j]) == q;
                    assert(j < i);
                    assert(laid(mines@, i as int, q));
                } else {
                    if laid(mines@, i as int, q) {
                        let j = choose|j: int| 0 <= j < i && pos_of(#[trigger] mines@[j]) == q;
                        assert(0 <= j < i + 1 && pos_of(mines@[j]) == q);
                    }
                }
            }
            assert(mine_set(g2) =~= mine_set(g).insert(p));
            assert(!mine_set(g).contains(p));
            assert forall|a: int, b: int| 0 <= a < b < i + 1 implies mines@[a] != mines@[b] by {
                if b == i && mines@[a] == mines@[b] {
                    assert(pos_of(mines@[a]) == p);
                    assert(laid(mines@, i as int, p));
                }
            }
        }
        i += 1;
    }
    true
}

/// The number of mines around `(x, y)`.
pub(crate) fn mines_around(cells: &Vec<Spot>, width: u16, height: u16, x: u16, y: u16) -> (n: u8)
    requires
        cells@.len() == width * height,
        x < width,
        y < height,
    ensures
        n == adjacent_mines(grid_of(cells@, width as int, height as int), (x as int, y as int)),
        n <= 8,
{
    let ghost g = grid_of(cells@, width as int, height as int);
    let ghost p = (x as int, y as int);
    proof {
        lemma_grid_of_dom(cells@, width as int, height as int);
    }
    let mut n: u8 = 0;
    let mut k: u8 = 0;
    while k < 8
        invariant
            k <= 8,
            n <= k,
            x < width,
            y < height,
            cells@.len() == width * height,
            g == grid_of(cells@, width as int, height as int),
            g.dom() == rect(width as int, height as int),
            p == (x as int, y as int),
            n == mines_among(g, p, k as int),
        decreases 8 - k,
    {
        match neighbor_within(width, height, x, y, k) {
            Some((nx, ny)) => {
                let at = offset_at(width, height, nx, ny);
                proof {
                    lemma_grid_of_spot(cells@, width as int, height as int, nx as int, ny as int);
                }
                match cells[at].kind {
                    SpotKind::Mine => {
                        n += 1;
                    },
                    SpotKind::Empty(_) => {},
                }
            },
            None => {},
        }
        k += 1;
    }
    n
}

/// Writes on every empty spot the number of mines around it.
pub(crate) fn number_cells(cells: &mut Vec<Spot>, width: u16, height: u16)
    requires
        old(cells)@.len() == width * height,
        forall|p: Pos| #[trigger]
            rect(width as int, height as int).contains(p) ==> {
                let spot = grid_of(old(cells)@, width as int, height as int)[p];
                spot == mine() || spot == blank()
            },
    ensures
        final(cells)@.len() == width * height,
        same_mines(
            grid_of(old(cells)@, width as int, height as int),
            grid_of(final(cells)@, width as int, height as int),
        ),
        forall|p: Pos| #[trigger]
            rect(width as int, height as int).contains(p) ==> {
                let g = grid_of(final(cells)@, width as int, height as int);
                g[p].state is Hidden && valid_spot(g, p)
            },
{
    let ghost w = width as int;
    let ghost h = height as int;
    let ghost g0 = grid_of(cells@, w, h);
    proof {
        lemma_grid_of_dom(cells@, w, h);
    }
    let mut y: u16 = 0;
    while y < height
        invariant
            y <= height,
            w == width as int,
            h == height as int,
            cells@.len() == w * h,
            g0.dom() == rect(w, h),
            same_mines(g0, grid_of(cells@, w, h)),
            forall|p: Pos| #[trigger]
                rect(w, h).contains(p) ==> numbered(g0, grid_of(cells@, w, h), p, p.1 < y),
        decreases height - y,
    {
        let mut x: u16 = 0;
        while x < width
            invariant
                y < height,
                x <= width,
                w == width as int,
                h == height as int,
                cells@.len() == w * h,
                g0.dom() == rect(w, h),
                same_mines(g0, grid_of(cells@, w, h)),
                forall|p: Pos| #[trigger]
                    rect(w, h).contains(p) ==> numbered(
                        g0,
                        grid_of(cells@, w, h),
                        p,
                        p.1 < y || (p.1 == y && p.0 < x),
                    ),
            decreases width - x,
        {
            let ghost g = grid_of(cells@, w, h);
            let ghost p = (x as int, y as int);
            let at = offset_at(width, height, x, y);
            proof {
                lemma_grid_of_spot(cells@, w, h, x as int, y as int);
                assert(rect(w, h).contains(p));
                assert(numbered(g0, g, p, false));
            }
            match cells[at].kind {
                SpotKind::Mine => {},
                SpotKind::Empty(_) => {
                    let n = mines_around(cells, width, height, x, y);
                    let spot = Spot { kind: SpotKind::Empty(n), state: SpotState::Hidden };
                    proof {
                        lemma_mines_among_same_mines(g0, g, p, 8);
                        lemma_grid_of_update(cells@, w, h, x as int, y as int, spot);
                    }
                    cells.set(at, spot);
                    proof {
                        let g2 = grid_of(cells@, w, h);
                        assert(g2 == g.insert(p, spot));
                        assert(g2.dom() =~= g.dom());
                        assert forall|q: Pos| #[trigger] g0.dom().contains(q) implies (g0[q].kind is Mine
                            <==> g2[q].kind is Mine) by {
                            assert(g.dom().contains(q));
                        }
                        assert forall|q: Pos| #[trigger] rect(w, h).contains(q) implies numbered(
                            g0,
                            g2,
                            q,
                            q.1 < y || (q.1 == y && q.0 < x + 1),
                        ) by {
                            assert(numbered(g0, g, q, q.1 < y || (q.1 == y && q.0 < x)));
                        }
                    }
                },
            }
            x += 1;
        }
        y += 1;
    }
    proof {
        let g = grid_of(cells@, w, h);
        assert forall|p: Pos| #[trigger] rect(w, h).contains(p) implies g[p].state is Hidden
            && valid_spot(g, p) by {
            assert(numbered(g0, g, p, p.1 < height));
            lemma_mines_among_same_mines(g0, g, p, 8);
            lemma_mines_among_bounds(g, p, 8);
        }
    }
}

/// While the spots are numbered: a spot that is `done` carries its number,
/// any other is as the mines were laid.
spec fn numbered(g0: Grid, g: Grid, p: Pos, done: bool) -> bool {
    &&& g[p].state is Hidden
    &&& g0[p] == mine() || g0[p] == blank()
    &&& g[p].kind is Mine <==> g0[p].kind is Mine
    &&& if done {
        g[p].kind matches SpotKind::Empty(n) ==> n == adjacent_mines(g0, p)
    } else {
        g[p] == g0[p]
    }
}

} // verus!
