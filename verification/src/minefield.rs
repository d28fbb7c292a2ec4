//! The field: a fixed rectangular grid of spots, and the operations of the
//! game on it.

use vstd::prelude::*;
use crate::grid::{
    adjacent_flags, flags_among, has_mine, lemma_rect_size, lemma_restate_keeps_valid,
    lemma_same_mines_same_set, mine_set, neighbor, pos_of, rect, restate, valid_grid, Grid, Pos,
};
use crate::layout::{
    grid_of, lemma_grid_of_dom, lemma_grid_of_spot, lemma_grid_of_update, lemma_offset_in_range,
    lemma_offset_injective, lemma_spot_count, neighbor_within, offset_at, offset_of, put,
};
use crate::placement::{blank_cells, laid, lay_mines, number_cells, placement_error};
use crate::rules::{
    chord_fires, chord_from, cleared, resolve_grid, resolve_outcome, step_grid, step_outcome,
    toggle_delta, toggle_grid,
};
use crate::sampling::{cell_position, draw_picks, sample_cells, sample_of};
use crate::spot::{FieldError, Spot, SpotKind, SpotState, StepResult};

verus! {

/// A field of the game.
///
/// Its view is the grid of its spots. A field is always well formed: see
/// [`Minefield::wf`].
pub struct Minefield {
    width: u16,
    height: u16,
    mines: u32,
    cells: Vec<Spot>,
}

impl View for Minefield {
    type V = Grid;

    closed spec fn view(&self) -> Grid {
        grid_of(self.cells@, self.width as int, self.height as int)
    }
}

impl Minefield {
    #[verifier::type_invariant]
    closed spec fn inv(&self) -> bool {
        &&& self.cells@.len() == self.width * self.height
        &&& self.wf()
    }

    /// What holds of every field: its spots cover a grid of its width and
    /// height, each spot is in a state that its kind allows, each empty spot
    /// carries the number of mines around it, and the mines are as many as
    /// the field says, which is fewer than it has spots.
    pub open spec fn wf(&self) -> bool {
        &&& valid_grid(self@, self.width() as int, self.height() as int)
        &&& mine_set(self@).len() == self.mines()
        &&& self.mines() < self.width() * self.height()
    }

    /// A field of the given size with a mine on each of the given spots, all
    /// spots hidden, and each empty spot numbered with the mines around it.
    ///
    /// The mines must leave at least one spot empty, lie on the grid, and be
    /// distinct; [`placement_error`] says which error comes otherwise.
    pub fn with_mines_at(width: u16, height: u16, mines: &Vec<(u16, u16)>) -> (built: Result<
        Minefield,
        FieldError,
    >)
        ensures
            match built {
                Ok(field) => {
                    &&& placement_error(width as int, height as int, mines@) is None
                    &&& field.wf()
                    &&& field.width() == width
                    &&& field.height() == height
                    &&& field.mines() == mines@.len()
                    &&& forall|p: Pos| #[trigger]
                        field@.dom().contains(p) ==> field@[p].state is Hidden
                    &&& forall|p: Pos| #[trigger]
                        has_mine(field@, p) <==> laid(mines@, mines@.len() as int, p)
                },
                Err(e) => placement_error(width as int, height as int, mines@) == Some(e),
            },
    {
        let ghost w = width as int;
        let ghost h = height as int;
        proof {
            lemma_spot_count(w, h);
        }
        let total: usize = width as usize * height as usize;
        if mines.len() >= total {
            return Err(FieldError::TooManyMines);
        }
        let mut i: usize = 0;
        while i < mines.len()
            invariant
                i <= mines@.len() < w * h,
                forall|j: int| 0 <= j < i ==> rect(w, h).contains(pos_of(#[trigger] mines@[j])),
                w == width as int,
                h == height as int,
            decreases mines.len() - i,
        {
            let (x, y) = mines[i];
            if !(x < width && y < height) {
                assert(!rect(w, h).contains(pos_of(mines@[i as int])));
                return Err(FieldError::OutOfBounds);
            }
            i += 1;
        }
        let mut cells = blank_cells(width, height);
        if !lay_mines(&mut cells, width, height, mines) {
            return Err(FieldError::DuplicateMine);
        }
        let ghost laid_out = grid_of(cells@, w, h);
        proof {
            lemma_grid_of_dom(cells@, w, h);
        }
        number_cells(&mut cells, width, height);
        proof {
            let g = grid_of(cells@, w, h);
            lemma_grid_of_dom(cells@, w, h);
            lemma_rect_size(w, h);
            lemma_same_mines_same_set(laid_out, g);
            assert forall|p: Pos| #[trigger] has_mine(g, p) <==> laid(
                mines@,
                mines@.len() as int,
                p,
            ) by {
                if laid(mines@, mines@.len() as int, p) {
                    let j = choose|j: int| 0 <= j < mines@.len() && pos_of(#[trigger] mines@[j]) == p;
                    assert(rect(w, h).contains(pos_of(mines@[j])));
                }
                if laid_out.dom().contains(p) {
                    assert(laid_out[p].kind is Mine <==> g[p].kind is Mine);
                }
            }
        }
        Ok(Minefield { width, height, mines: mines.len() as u32, cells })
    }

    /// A field of the given size whose mines are the sample that the picks
    /// select among its spots (see [`sample_of`]): one mine for each pick.
    /// All spots are hidden.
    ///
    /// The mines must leave at least one spot empty.
    pub fn with_picks(width: u16, height: u16, picks: &Vec<usize>) -> (built: Result<
        Minefield,
        FieldError,
    >)
        ensures
            match built {
                Ok(field) => {
                    &&& picks@.len() < width * height
                    &&& field.wf()
                    &&& field.width() == width
                    &&& field.height() == height
                    &&& field.mines() == picks@.len()
                    &&& forall|p: Pos| #[trigger]
                        field@.dom().contains(p) ==> field@[p].state is Hidden
                    &&& forall|p: Pos| #[trigger]
                        has_mine(field@, p) <==> rect(width as int, height as int).contains(p)
                            && sample_of((width * height) as nat, picks@).contains(
                            offset_of(width as int, p.0, p.1) as usize,
                        )
                },
                Err(e) => e == FieldError::TooManyMines && picks@.len() >= width * height,
            },
    {
        let ghost w = width as int;
        let ghost h = height as int;
        proof {
            lemma_spot_count(w, h);
        }
        let total: usize = width as usize * height as usize;
        if picks.len() >= total {
            return Err(FieldError::TooManyMines);
        }
        let sample = sample_cells(total, picks);
        let mut mines: Vec<(u16, u16)> = Vec::new();
        let mut i: usize = 0;
        while i < sample.len()
            invariant
                i <= sample@.len(),
                mines@.len() == i,
                w == width as int,
                h == height as int,
                forall|j: int| 0 <= j < sample@.len() ==> #[trigger] sample@[j] < w * h,
                forall|j: int|
                    0 <= j < i ==> rect(w, h).contains(pos_of(#[trigger] mines@[j])) && offset_of(
                        w,
                        mines@[j].0 as int,
                        mines@[j].1 as int,
                    ) == sample@[j],
            decreases sample.len() - i,
        {
            let at = cell_position(width, height, sample[i]);
            mines.push(at);
            i += 1;
        }
        proof {
            assert forall|a: int, b: int| 0 <= a < mines@.len() && 0 <= b < mines@.len() && a
                != b implies mines@[a] != mines@[b] by {
                assert(rect(w, h).contains(pos_of(mines@[a])));
                assert(rect(w, h).contains(pos_of(mines@[b])));
                assert(sample@[a] != sample@[b]);
            }
            assert forall|j: int| 0 <= j < mines@.len() implies rect(w, h).contains(
                pos_of(#[trigger] mines@[j]),
            ) by {}
            assert(placement_error(w, h, mines@) is None);
        }
        match Minefield::with_mines_at(width, height, &mines) {
            Ok(field) => {
                proof {
                    assert forall|p: Pos| #[trigger]
                        has_mine(field@, p) <==> rect(w, h).contains(p) && sample@.contains(
                            offset_of(w, p.0, p.1) as usize,
                        ) by {
                        if laid(mines@, mines@.len() as int, p) {
                            let j = choose|j: int|
                                0 <= j < mines@.len() && pos_of(#[trigger] mines@[j]) == p;
                            assert(rect(w, h).contains(pos_of(mines@[j])));
                            assert(sample@[j] == offset_of(w, p.0, p.1));
                        }
                        if rect(w, h).contains(p) && sample@.contains(
                            offset_of(w, p.0, p.1) as usize,
                        ) {
                            lemma_offset_in_range(w, h, p.0, p.1);
                            let j = choose|j: int|
                                0 <= j < sample@.len() && sample@[j] == offset_of(w, p.0, p.1) as usize;
                            assert(rect(w, h).contains(pos_of(mines@[j])));
                            lemma_offset_injective(w, mines@[j].0 as int, mines@[j].1 as int, p.0, p.1);
                            assert(pos_of(mines@[j]) == p);
                        }
                    }
                }
                Ok(field)
            },
            Err(e) => Err(e),
        }
    }

    /// A field of the given size with the given number of mines on spots
    /// chosen at random, each set of spots as likely as any other. All spots
    /// are hidden.
    ///
    /// The mines must leave at least one spot empty.
    pub fn build(width: u16, height: u16, mines: u32) -> (built: Result<Minefield, FieldError>)
        ensures
            match built {
                Ok(field) => {
                    &&& mines < width * height
                    &&& field.wf()
                    &&& field.width() == width
                    &&& field.height() == height
                    &&& field.mines() == mines
                    &&& forall|p: Pos| #[trigger]
                        field@.dom().contains(p) ==> field@[p].state is Hidden
                },
                Err(e) => e == FieldError::TooManyMines && mines >= width * height,
            },
    {
        proof {
            lemma_spot_count(width as int, height as int);
        }
        let total: usize = width as usize * height as usize;
        if mines as usize >= total {
            return Err(FieldError::TooManyMines);
        }
        let picks = draw_picks(total, mines as usize);
        Minefield::with_picks(width, height, &picks)
    }

    pub closed spec fn spec_width(&self) -> u16 {
        self.width
    }

    pub closed spec fn spec_height(&self) -> u16 {
        self.height
    }

    pub closed spec fn spec_mines(&self) -> u32 {
        self.mines
    }

    /// The number of columns.
    #[verifier::when_used_as_spec(spec_width)]
    pub fn width(&self) -> (w: u16)
        ensures
            w == self.width(),
    {
        self.width
    }

    /// The number of rows.
    #[verifier::when_used_as_spec(spec_height)]
    pub fn height(&self) -> (h: u16)
        ensures
            h == self.height(),
    {
        self.height
    }

    /// The number of mines.
    #[verifier::when_used_as_spec(spec_mines)]
    pub fn mines(&self) -> (n: u32)
        ensures
            n == self.mines(),
    {
        self.mines
    }

    /// `(x, y)` is a coordinate of this field.
    pub open spec fn holds(&self, x: u16, y: u16) -> bool {
        x < self.width() && y < self.height()
    }

    fn offset(&self, x: u16, y: u16) -> (i: usize)
        requires
            self.holds(x, y),
        ensures
            i == offset_of(self.width as int, x as int, y as int),
            i < self.cells@.len(),
            self.cells@[i as int] == self@[(x as int, y as int)],
            self@.dom().contains((x as int, y as int)),
    {
        proof {
            use_type_invariant(self);
            lemma_grid_of_spot(
                self.cells@,
                self.width as int,
                self.height as int,
                x as int,
                y as int,
            );
        }
        offset_at(self.width, self.height, x, y)
    }

    /// The spot at `(x, y)`, if the field has one there.
    pub fn spot(&self, x: u16, y: u16) -> (found: Option<Spot>)
        ensures
            self.wf(),
            self.holds(x, y) <==> self@.dom().contains((x as int, y as int)),
            found == if self.holds(x, y) {
                Some(self@[(x as int, y as int)])
            } else {
                None
            },
    {
        proof {
            use_type_invariant(self);
        }
        if x < self.width && y < self.height {
            let i = self.offset(x, y);
            Some(self.cells[i])
        } else {
            None
        }
    }

    pub(crate) fn peek(&self, x: u16, y: u16) -> (spot: Spot)
        requires
            self.holds(x, y),
        ensures
            spot == self@[(x as int, y as int)],
            self@.dom().contains((x as int, y as int)),
    {
        let i = self.offset(x, y);
        self.cells[i]
    }

    pub(crate) fn set_state(&mut self, x: u16, y: u16, state: SpotState)
        requires
            old(self).holds(x, y),
            restate(old(self)@, (x as int, y as int), state)[(x as int, y as int)].consistent(),
        ensures
            final(self)@ == restate(old(self)@, (x as int, y as int), state),
            final(self).wf(),
            final(self).width() == old(self).width(),
            final(self).height() == old(self).height(),
            final(self).mines() == old(self).mines(),
    {
        let i = self.offset(x, y);
        let spot = Spot { kind: self.cells[i].kind, state };
        proof {
            use_type_invariant(&*self);
            let w = self.width as int;
            let h = self.height as int;
            lemma_grid_of_update(self.cells@, w, h, x as int, y as int, spot);
            lemma_restate_keeps_valid(self@, w, h, (x as int, y as int), state);
        }
        put(&mut self.cells, i, spot);
    }

    /// The `k`-th of the eight spots around `(x, y)`, if the field reaches
    /// that far.
    pub(crate) fn neighbor_of(&self, x: u16, y: u16, k: u8) -> (found: Option<(u16, u16)>)
        requires
            self.holds(x, y),
            k < 8,
        ensures
            match found {
                Some((nx, ny)) => self.holds(nx, ny) && (nx as int, ny as int) == neighbor(
                    (x as int, y as int),
                    k as int,
                ),
                None => !self@.dom().contains(neighbor((x as int, y as int), k as int)),
            },
    {
        proof {
            lemma_grid_of_dom(self.cells@, self.width as int, self.height as int);
        }
        neighbor_within(self.width, self.height, x, y, k)
    }

    /// The number of flagged spots around `(x, y)`.
    fn flags_around(&self, x: u16, y: u16) -> (n: u8)
        requires
            self.holds(x, y),
        ensures
            n == adjacent_flags(self@, (x as int, y as int)),
    {
        let mut n: u8 = 0;
        let mut k: u8 = 0;
        while k < 8
            invariant
                k <= 8,
                self.holds(x, y),
                n <= k,
                n == flags_among(self@, (x as int, y as int), k as int),
            decreases 8 - k,
        {
            match self.neighbor_of(x, y, k) {
                Some((nx, ny)) => {
                    if self.peek(nx, ny).state == SpotState::Flagged {
                        n += 1;
                    }
                },
                None => {},
            }
            k += 1;
        }
        n
    }

    /// Steps on the spot at `(x, y)`. A hidden mine explodes, and the outcome
    /// is `Boom`. A hidden empty spot is revealed, and with it its flood
    /// region: if no mine lies around it, its hidden neighbours are revealed
    /// too, and so on from each of them that has no mine around it. Flagged
    /// spots stay as they are and stop the flood. A spot in any other state
    /// is left alone.
    ///
    /// A coordinate outside the field is rejected, and nothing changes.
    pub fn step(&mut self, x: u16, y: u16) -> (outcome: Result<StepResult, FieldError>)
        ensures
            final(self).wf(),
            final(self).width() == old(self).width(),
            final(self).height() == old(self).height(),
            final(self).mines() == old(self).mines(),
            old(self).holds(x, y) ==> outcome == Ok::<StepResult, FieldError>(
                step_outcome(old(self)@, (x as int, y as int)),
            ) && final(self)@ == step_grid(old(self)@, (x as int, y as int)),
            !old(self).holds(x, y) ==> outcome == Err::<StepResult, FieldError>(
                FieldError::OutOfBounds,
            ) && final(self)@ == old(self)@,
    {
        proof {
            use_type_invariant(&*self);
        }
        if !(x < self.width && y < self.height) {
            return Err(FieldError::OutOfBounds);
        }
        let spot = self.peek(x, y);
        if spot.state != SpotState::Hidden {
            return Ok(StepResult::Continue);
        }
        match spot.kind {
            SpotKind::Mine => {
                self.set_state(x, y, SpotState::Exploded);
                Ok(StepResult::Boom)
            },
            SpotKind::Empty(_) => {
                self.flood(x, y);
                Ok(StepResult::Continue)
            },
        }
    }

    /// Puts a flag on the hidden spot at `(x, y)`, or takes the flag off the
    /// flagged spot there; a spot in any other state is left alone. Returns
    /// by how much the number of flags has changed: 1, -1 or 0.
    ///
    /// A coordinate outside the field is rejected, and nothing changes.
    pub fn toggle_flag(&mut self, x: u16, y: u16) -> (delta: Result<i32, FieldError>)
        ensures
            final(self).wf(),
            final(self).width() == old(self).width(),
            final(self).height() == old(self).height(),
            final(self).mines() == old(self).mines(),
            old(self).holds(x, y) ==> delta == Ok::<i32, FieldError>(
                toggle_delta(old(self)@, (x as int, y as int)) as i32,
            ) && final(self)@ == toggle_grid(old(self)@, (x as int, y as int)),
            !old(self).holds(x, y) ==> delta == Err::<i32, FieldError>(FieldError::OutOfBounds)
                && final(self)@ == old(self)@,
    {
        proof {
            use_type_invariant(&*self);
        }
        if !(x < self.width && y < self.height) {
            return Err(FieldError::OutOfBounds);
        }
        let spot = self.peek(x, y);
        let delta: i32 = match spot.state {
            SpotState::Hidden => {
                self.set_state(x, y, SpotState::Flagged);
                1
            },
            SpotState::Flagged => {
                self.set_state(x, y, SpotState::Hidden);
                -1
            },
            _ => 0,
        };
        Ok(delta)
    }

    /// Chords on the spot at `(x, y)`: if it is revealed, carries a number
    /// above 0, and exactly that many spots around it are flagged, steps on
    /// each of its neighbours in turn, as [`Minefield::step`] does, and stops
    /// with `Boom` at the first mine. Otherwise nothing happens.
    ///
    /// A coordinate outside the field is rejected, and nothing changes.
    pub fn try_resolve_step(&mut self, x: u16, y: u16) -> (outcome: Result<StepResult, FieldError>)
        ensures
            final(self).wf(),
            final(self).width() == old(self).width(),
            final(self).height() == old(self).height(),
            final(self).mines() == old(self).mines(),
            old(self).holds(x, y) ==> outcome == Ok::<StepResult, FieldError>(
                resolve_outcome(old(self)@, (x as int, y as int)),
            ) && final(self)@ == resolve_grid(old(self)@, (x as int, y as int)),
            !old(self).holds(x, y) ==> outcome == Err::<StepResult, FieldError>(
                FieldError::OutOfBounds,
            ) && final(self)@ == old(self)@,
    {
        proof {
            use_type_invariant(&*self);
        }
        if !(x < self.width && y < self.height) {
            return Err(FieldError::OutOfBounds);
        }
        let spot = self.peek(x, y);
        if spot.state != SpotState::Revealed {
            return Ok(StepResult::Continue);
        }
        let number = match spot.kind {
            SpotKind::Empty(n) => n,
            SpotKind::Mine => {
                return Ok(StepResult::Continue);
            },
        };
        if number == 0 || self.flags_around(x, y) != number {
            return Ok(StepResult::Continue);
        }
        let ghost p = (x as int, y as int);
        let mut k: u8 = 0;
        while k < 8
            invariant
                k <= 8,
                self.wf(),
                self.holds(x, y),
                self.width() == old(self).width(),
                self.height() == old(self).height(),
                self.mines() == old(self).mines(),
                p == (x as int, y as int),
                chord_fires(old(self)@, p),
                chord_from(self@, p, k as int) == chord_from(old(self)@, p, 0),
            decreases 8 - k,
        {
            match self.neighbor_of(x, y, k) {
                Some((nx, ny)) => {
                    match self.step(nx, ny) {
                        Ok(StepResult::Boom) => {
                            return Ok(StepResult::Boom);
                        },
                        _ => {},
                    }
                },
                None => {},
            }
            k += 1;
        }
        Ok(StepResult::Continue)
    }

    /// Whether the game is won: every empty spot is revealed. Mines need no
    /// flag for that.
    pub fn is_cleared(&self) -> (won: bool)
        ensures
            won == cleared(self@),
    {
        proof {
            lemma_grid_of_dom(self.cells@, self.width as int, self.height as int);
        }
        let mut y: u16 = 0;
        while y < self.height
            invariant
                y <= self.height,
                self@.dom() == rect(self.width as int, self.height as int),
                forall|p: Pos| #[trigger]
                    self@.dom().contains(p) && p.1 < y && self@[p].kind is Empty
                        ==> self@[p].state is Revealed,
            decreases self.height - y,
        {
            let mut x: u16 = 0;
            while x < self.width
                invariant
                    y < self.height,
                    x <= self.width,
                    self@.dom() == rect(self.width as int, self.height as int),
                    forall|p: Pos| #[trigger]
                        self@.dom().contains(p) && (p.1 < y || (p.1 == y && p.0 < x))
                            && self@[p].kind is Empty ==> self@[p].state is Revealed,
                decreases self.width - x,
            {
                let spot = self.peek(x, y);
                match spot.kind {
                    SpotKind::Empty(_) => {
                        if spot.state != SpotState::Revealed {
                            return false;
                        }
                    },
                    SpotKind::Mine => {},
                }
                x += 1;
            }
            y += 1;
        }
        true
    }
}

} // verus!
