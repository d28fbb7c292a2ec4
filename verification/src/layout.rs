//! How a grid is laid out in memory: its rows one after the other.

use vstd::prelude::*;
use crate::grid::{neighbor, rect, Grid, Pos};
use crate::spot::Spot;

verus! {

/// The largest number of spots a field can have.
pub const MAX_SPOTS: usize = 0xFFFF * 0xFFFF;

/// Where the spot at `(x, y)` stands among the rows of a grid laid out one
/// after the other.
pub open spec fn offset_of(w: int, x: int, y: int) -> int {
    y * w + x
}

/// The grid that the rows `cells`, laid out one after the other, stand for.
#[verifier::opaque]
pub open spec fn grid_of(cells: Seq<Spot>, w: int, h: int) -> Grid {
    Map::new(|p: Pos| rect(w, h).contains(p), |p: Pos| cells[offset_of(w, p.0, p.1)])
}

pub(crate) proof fn lemma_offset_in_range(w: int, h: int, x: int, y: int)
    requires
        0 <= x < w,
        0 <= y < h,
    ensures
        0 <= offset_of(w, x, y) < w * h,
{
    assert(0 <= y * w && (y + 1) * w <= h * w && (y + 1) * w == y * w + w && h * w == w * h)
        by (nonlinear_arith)
        requires
            0 <= x < w,
            0 <= y < h,
    ;
}

pub(crate) proof fn lemma_offset_injective(w: int, x1: int, y1: int, x2: int, y2: int)
    requires
        0 <= x1 < w,
        0 <= x2 < w,
        offset_of(w, x1, y1) == offset_of(w, x2, y2),
    ensures
        x1 == x2,
        y1 == y2,
{
    if y1 < y2 {
        assert((y1 + 1) * w <= y2 * w && (y1 + 1) * w == y1 * w + w) by (nonlinear_arith)
            requires
                y1 < y2,
                0 < w,
        ;
    } else if y2 < y1 {
        assert((y2 + 1) * w <= y1 * w && (y2 + 1) * w == y2 * w + w) by (nonlinear_arith)
            requires
                y2 < y1,
                0 < w,
        ;
    }
}

pub(crate) proof fn lemma_spot_count(w: int, h: int)
    requires
        0 <= w <= 0xFFFF,
        0 <= h <= 0xFFFF,
    ensures
        0 <= w * h <= MAX_SPOTS,
{
    assert(0 <= w * h <= 0xFFFF * 0xFFFF) by (nonlinear_arith)
        requires
            0 <= w <= 0xFFFF,
            0 <= h <= 0xFFFF,
    ;
}

pub(crate) proof fn lemma_grid_of_spot(cells: Seq<Spot>, w: int, h: int, x: int, y: int)
    requires
        0 <= x < w,
        0 <= y < h,
    ensures
        grid_of(cells, w, h).dom() == rect(w, h),
        grid_of(cells, w, h)[(x, y)] == cells[offset_of(w, x, y)],
        0 <= offset_of(w, x, y) < w * h,
{
    reveal(grid_of);
    lemma_offset_in_range(w, h, x, y);
    assert(grid_of(cells, w, h).dom() =~= rect(w, h));
}

pub(crate) proof fn lemma_grid_of_dom(cells: Seq<Spot>, w: int, h: int)
    ensures
        grid_of(cells, w, h).dom() == rect(w, h),
{
    reveal(grid_of);
    assert(grid_of(cells, w, h).dom() =~= rect(w, h));
}

pub(crate) proof fn lemma_grid_of_update(cells: Seq<Spot>, w: int, h: int, x: int, y: int, spot: Spot)
    requires
        cells.len() == w * h,
        0 <= x < w,
        0 <= y < h,
    ensures
        grid_of(cells.update(offset_of(w, x, y), spot), w, h) == grid_of(cells, w, h).insert(
            (x, y),
            spot,
        ),
{
    reveal(grid_of);
    lemma_offset_in_range(w, h, x, y);
    let g1 = grid_of(cells.update(offset_of(w, x, y), spot), w, h);
    let g2 = grid_of(cells, w, h).insert((x, y), spot);
    assert forall|q: Pos| g1.dom().contains(q) implies #[trigger] g1[q] == g2[q] by {
        lemma_offset_in_range(w, h, q.0, q.1);
        if q != (x, y) {
            if offset_of(w, q.0, q.1) == offset_of(w, x, y) {
                lemma_offset_injective(w, q.0, q.1, x, y);
            }
        }
    }
    assert(g1 =~= g2);
}

/// The `k`-th of the eight coordinates around `(x, y)`, if it lies on a grid
/// of the given size.
pub(crate) fn neighbor_within(width: u16, height: u16, x: u16, y: u16, k: u8) -> (found: Option<(u16, u16)>)
    requires
        k < 8,
    ensures
        match found {
            Some((nx, ny)) => nx < width && ny < height && (nx as int, ny as int) == neighbor(
                (x as int, y as int),
                k as int,
            ),
            None => !rect(width as int, height as int).contains(
                neighbor((x as int, y as int), k as int),
            ),
        },
{
    let j: u8 = if k < 4 { k } else { k + 1 };
    let nx: i32 = x as i32 + (j % 3) as i32 - 1;
    let ny: i32 = y as i32 + (j / 3) as i32 - 1;
    if 0 <= nx && nx < width as i32 && 0 <= ny && ny < height as i32 {
        Some((nx as u16, ny as u16))
    } else {
        None
    }
}

pub(crate) fn put(cells: &mut Vec<Spot>, i: usize, spot: Spot)
    requires
        i < old(cells)@.len(),
    ensures
        final(cells)@ == old(cells)@.update(i as int, spot),
    no_unwind
{
    cells[i] = spot;
}

/// Where the spot at `(x, y)` stands among the spots of a grid of the given
/// size.
pub(crate) fn offset_at(width: u16, height: u16, x: u16, y: u16) -> (i: usize)
    requires
        x < width,
        y < height,
    ensures
        i == offset_of(width as int, x as int, y as int),
        i < width * height,
{
    proof {
        lemma_offset_in_range(width as int, height as int, x as int, y as int);
        lemma_spot_count(width as int, height as int);
    }
    y as usize * width as usize + x as usize
}

} // verus!
