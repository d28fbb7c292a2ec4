//! The flood fill behind a step on an empty spot: a worklist of the spots
//! numbered 0 whose neighbours are still to be opened.
//!
//! Revealing a spot marks it as visited, so each spot enters the worklist at
//! most once and the work is bounded by the number of hidden spots.

use vstd::prelude::*;
use crate::grid::{
    adjacent, hidden_set, is_hidden, is_hidden_empty, lemma_neighbors_are_adjacent,
    lemma_restate_keeps_valid, lemma_zero_has_no_mine_around, neighbor, pos_of, restate,
    same_kinds,
    valid_grid, valid_spot, Grid, Pos,
};
use crate::minefield::Minefield;
use crate::laws::law_flood_passes_on;
use crate::rules::{flood_region, flows, reach_within, reached, reveal_all};
use crate::spot::{SpotKind, SpotState};

verus! {

/// The flood has opened the spot at `p`.
spec fn flooded(g0: Grid, g: Grid, p: Pos) -> bool {
    is_hidden(g0, p) && g.dom().contains(p) && g[p].state is Revealed
}

/// Whatever differs between the grid `g0` before the step and the grid `g`
/// now was opened by the flood, and lies in the flood region.
spec fn flood_sound(g0: Grid, g: Grid, start: Pos) -> bool {
    &&& same_kinds(g0, g)
    &&& forall|p: Pos| #[trigger]
        g.dom().contains(p) ==> g[p].state == g0[p].state || (flooded(g0, g, p) && reached(
            g0,
            start,
            p,
        ))
}

/// Every spot that the flood passes on to from `a` is open.
spec fn closed_at(g0: Grid, g: Grid, a: Pos) -> bool {
    forall|b: Pos| #[trigger] flows(g0, a, b) ==> flooded(g0, g, b)
}

/// `a` waits in the worklist.
spec fn queued(work: Seq<(u16, u16)>, a: Pos) -> bool {
    exists|i: int| 0 <= i < work.len() && pos_of(#[trigger] work[i]) == a
}

/// A worklist item is an opened spot numbered 0 of the flood region.
spec fn item_ok(g0: Grid, g: Grid, start: Pos, item: (u16, u16)) -> bool {
    &&& flooded(g0, g, pos_of(item))
    &&& g0[pos_of(item)].kind == SpotKind::Empty(0)
    &&& reached(g0, start, pos_of(item))
}

/// Every opened spot numbered 0, but for `skip`, either waits in the
/// worklist or has all the spots around it opened.
spec fn pending_but(g0: Grid, g: Grid, work: Seq<(u16, u16)>, skip: Option<Pos>) -> bool {
    forall|a: Pos| #[trigger]
        flooded(g0, g, a) && g0[a].kind == SpotKind::Empty(0) && skip != Some(a) ==> queued(
            work,
            a,
        ) || closed_at(g0, g, a)
}

/// What holds while the flood from `start` is under way.
spec fn flooding(g0: Grid, g: Grid, start: Pos, work: Seq<(u16, u16)>, w: int, h: int) -> bool {
    &&& valid_grid(g0, w, h)
    &&& flood_sound(g0, g, start)
    &&& flooded(g0, g, start)
    &&& forall|i: int| 0 <= i < work.len() ==> item_ok(g0, g, start, #[trigger] work[i])
}

/// The work that is left: the hidden spots, and the items of the worklist.
spec fn unexplored(g: Grid, work: Seq<(u16, u16)>) -> nat {
    hidden_set(g).len() + work.len()
}

proof fn lemma_reveal_shrinks_hidden(g: Grid, p: Pos)
    requires
        g.dom().finite(),
        is_hidden(g, p),
    ensures
        hidden_set(g).finite(),
        hidden_set(restate(g, p, SpotState::Revealed)).len() == hidden_set(g).len() - 1,
{
    assert(hidden_set(g).subset_of(g.dom()));
    vstd::set_lib::lemma_set_subset_finite(g.dom(), hidden_set(g));
    assert(hidden_set(restate(g, p, SpotState::Revealed)) =~= hidden_set(g).remove(p));
}

proof fn lemma_queued_push(work: Seq<(u16, u16)>, item: (u16, u16), a: Pos)
    ensures
        queued(work, a) ==> queued(work.push(item), a),
        queued(work.push(item), pos_of(item)),
{
    let longer = work.push(item);
    if queued(work, a) {
        let i = choose|i: int| 0 <= i < work.len() && pos_of(#[trigger] work[i]) == a;
        assert(pos_of(longer[i]) == a);
    }
    assert(pos_of(longer[work.len() as int]) == pos_of(item));
}

/// The first reveal of a flood establishes what holds while it is under way.
proof fn lemma_flood_begins(g0: Grid, start: Pos, item: (u16, u16), w: int, h: int)
    requires
        valid_grid(g0, w, h),
        is_hidden_empty(g0, start),
        pos_of(item) == start,
    ensures
        ({
            let g = restate(g0, start, SpotState::Revealed);
            let work = if g0[start].kind == SpotKind::Empty(0) {
                seq![item]
            } else {
                Seq::<(u16, u16)>::empty()
            };
            &&& g[start].consistent()
            &&& flooding(g0, g, start, work, w, h)
            &&& pending_but(g0, g, work, None)
        }),
{
    let g = restate(g0, start, SpotState::Revealed);
    let work = if g0[start].kind == SpotKind::Empty(0) {
        seq![item]
    } else {
        Seq::<(u16, u16)>::empty()
    };
    assert(valid_spot(g0, start));
    lemma_restate_keeps_valid(g0, w, h, start, SpotState::Revealed);
    assert(reach_within(g0, start, start, 0));
    assert forall|a: Pos| #[trigger]
        flooded(g0, g, a) && g0[a].kind == SpotKind::Empty(0) implies queued(work, a) by {
        assert(a == start);
        assert(pos_of(work[0]) == a);
    }
}

/// Opening the hidden spot `nb` next to the opened spot `c` numbered 0
/// keeps what holds while the flood is under way, and leaves less to do.
proof fn lemma_flood_opens(
    g0: Grid,
    g: Grid,
    start: Pos,
    c: Pos,
    nb: Pos,
    work: Seq<(u16, u16)>,
    item: (u16, u16),
    w: int,
    h: int,
)
    requires
        flooding(g0, g, start, work, w, h),
        pending_but(g0, g, work, Some(c)),
        flooded(g0, g, c),
        g0[c].kind == SpotKind::Empty(0),
        reached(g0, start, c),
        adjacent(c, nb),
        is_hidden(g, nb),
        pos_of(item) == nb,
    ensures
        ({
            let g2 = restate(g, nb, SpotState::Revealed);
            let work2 = if g[nb].kind == SpotKind::Empty(0) {
                work.push(item)
            } else {
                work
            };
            &&& g2[nb].consistent()
            &&& flooding(g0, g2, start, work2, w, h)
            &&& pending_but(g0, g2, work2, Some(c))
            &&& flooded(g0, g2, nb)
            &&& unexplored(g2, work2) <= unexplored(g, work)
            &&& forall|p: Pos| #[trigger] flooded(g0, g, p) ==> flooded(g0, g2, p)
        }),
{
    let g2 = restate(g, nb, SpotState::Revealed);
    let work2 = if g[nb].kind == SpotKind::Empty(0) {
        work.push(item)
    } else {
        work
    };
    assert(g0.dom().contains(nb));
    assert(g.dom().contains(nb));
    assert(g[nb].kind == g0[nb].kind);
    assert(is_hidden(g0, nb));
    lemma_zero_has_no_mine_around(g0, w, h, c, nb);
    assert(valid_spot(g0, nb));
    assert(flows(g0, c, nb));
    law_flood_passes_on(g0, start, c, nb);
    assert(reached(g0, start, nb));
    assert(g2.dom() =~= g.dom());
    assert(same_kinds(g0, g2)) by {
        assert forall|p: Pos| #[trigger] g0.dom().contains(p) implies g0[p].kind == g2[p].kind by {
            assert(g.dom().contains(p));
        }
    }
    assert forall|p: Pos| #[trigger] flooded(g0, g, p) implies flooded(g0, g2, p) by {}
    assert(flood_sound(g0, g2, start)) by {
        assert forall|p: Pos| #[trigger] g2.dom().contains(p) implies g2[p].state == g0[p].state
            || (flooded(g0, g2, p) && reached(g0, start, p)) by {
            assert(g.dom().contains(p));
        }
    }
    assert forall|i: int| 0 <= i < work2.len() implies item_ok(
        g0,
        g2,
        start,
        #[trigger] work2[i],
    ) by {
        if i < work.len() {
            assert(item_ok(g0, g, start, work[i]));
        }
    }
    assert(pending_but(g0, g2, work2, Some(c))) by {
        assert forall|a: Pos| #[trigger]
            flooded(g0, g2, a) && g0[a].kind == SpotKind::Empty(0) && Some(c) != Some(
                a,
            ) implies queued(work2, a) || closed_at(g0, g2, a) by {
            lemma_queued_push(work, item, a);
            if a != nb {
                assert(flooded(g0, g, a));
                if closed_at(g0, g, a) {
                    assert forall|b: Pos| #[trigger] flows(g0, a, b) implies flooded(g0, g2, b) by {
                        assert(flooded(g0, g, b));
                    }
                }
            }
        }
    }
    lemma_reveal_shrinks_hidden(g, nb);
}

/// Once the neighbours of the opened spot `c` numbered 0 have been gone
/// through, the flood has passed on from it.
proof fn lemma_flood_closes(g0: Grid, g: Grid, work: Seq<(u16, u16)>, c: Pos)
    requires
        pending_but(g0, g, work, Some(c)),
        forall|j: int|
            0 <= j < 8 && flows(g0, c, #[trigger] neighbor(c, j)) ==> flooded(
                g0,
                g,
                neighbor(c, j),
            ),
    ensures
        pending_but(g0, g, work, None),
{
    assert(closed_at(g0, g, c)) by {
        assert forall|b: Pos| #[trigger] flows(g0, c, b) implies flooded(g0, g, b) by {
            lemma_neighbors_are_adjacent(c, b);
            let j = choose|j: int| 0 <= j < 8 && #[trigger] neighbor(c, j) == b;
            assert(flows(g0, c, neighbor(c, j)));
        }
    }
}

proof fn lemma_flood_reached_all(g0: Grid, g: Grid, start: Pos, p: Pos, n: nat)
    requires
        flooded(g0, g, start),
        pending_but(g0, g, Seq::<(u16, u16)>::empty(), None),
        reach_within(g0, start, p, n),
    ensures
        flooded(g0, g, p),
    decreases n,
{
    if n > 0 {
        if reach_within(g0, start, p, (n - 1) as nat) {
            lemma_flood_reached_all(g0, g, start, p, (n - 1) as nat);
        } else {
            let q = choose|q: Pos|
                reach_within(g0, start, q, (n - 1) as nat) && #[trigger] flows(g0, q, p);
            lemma_flood_reached_all(g0, g, start, q, (n - 1) as nat);
            assert(!queued(Seq::<(u16, u16)>::empty(), q));
            assert(closed_at(g0, g, q));
        }
    }
}

/// With the worklist empty, exactly the flood region has been opened.
proof fn lemma_flood_ends(g0: Grid, g: Grid, start: Pos, w: int, h: int)
    requires
        flooding(g0, g, start, Seq::<(u16, u16)>::empty(), w, h),
        pending_but(g0, g, Seq::<(u16, u16)>::empty(), None),
    ensures
        g == reveal_all(g0, flood_region(g0, start)),
{
    let g1 = reveal_all(g0, flood_region(g0, start));
    assert(g.dom() =~= g1.dom());
    assert forall|p: Pos| g.dom().contains(p) implies #[trigger] g[p] == g1[p] by {
        assert(g0.dom().contains(p));
        assert(g0[p].kind == g[p].kind);
        if reached(g0, start, p) {
            let n = choose|n: nat| reach_within(g0, start, p, n);
            lemma_flood_reached_all(g0, g, start, p, n);
        }
    }
    assert(g =~= g1);
}

impl Minefield {
    /// Reveals the hidden empty spot at `(x, y)` and, if it is numbered 0,
    /// every hidden empty spot that the flood reaches from it.
    pub(crate) fn flood(&mut self, x: u16, y: u16)
        requires
            old(self).wf(),
            old(self).holds(x, y),
            is_hidden_empty(old(self)@, (x as int, y as int)),
        ensures
            final(self).wf(),
            final(self).width() == old(self).width(),
            final(self).height() == old(self).height(),
            final(self).mines() == old(self).mines(),
            final(self)@ == reveal_all(
                old(self)@,
                flood_region(old(self)@, (x as int, y as int)),
            ),
    {
        let ghost g0 = self@;
        let ghost start = (x as int, y as int);
        let ghost w = self.width() as int;
        let ghost h = self.height() as int;
        let kind = self.peek(x, y).kind;
        proof {
            lemma_flood_begins(g0, start, (x, y), w, h);
        }
        self.set_state(x, y, SpotState::Revealed);
        let mut work: Vec<(u16, u16)> = Vec::new();
        if kind == SpotKind::Empty(0) {
            work.push((x, y));
        }
        assert(work@ =~= if g0[start].kind == SpotKind::Empty(0) {
            seq![(x, y)]
        } else {
            Seq::<(u16, u16)>::empty()
        });
        while work.len() > 0
            invariant
                self.wf(),
                self.width() == w,
                self.height() == h,
                self.mines() == old(self).mines(),
                flooding(g0, self@, start, work@, w, h),
                pending_but(g0, self@, work@, None),
                forall|i: int| 0 <= i < work.len() ==> self.holds(#[trigger] work[i].0, work[i].1),
            decreases unexplored(self@, work@),
        {
            let ghost queue = work@;
            let (cx, cy) = work.pop().unwrap();
            proof {
                let c = (cx as int, cy as int);
                assert(item_ok(g0, self@, start, queue[queue.len() - 1]));
                assert forall|a: Pos| #[trigger]
                    flooded(g0, self@, a) && g0[a].kind == SpotKind::Empty(0) && Some(c) != Some(
                        a,
                    ) implies queued(work@, a) || closed_at(g0, self@, a) by {
                    if queued(queue, a) {
                        let i = choose|i: int| 0 <= i < queue.len() && pos_of(#[trigger] queue[i]) == a;
                        assert(pos_of(work@[i]) == a);
                    }
                }
                assert forall|i: int| 0 <= i < work.len() implies item_ok(
                    g0,
                    self@,
                    start,
                    #[trigger] work[i],
                ) by {
                    assert(item_ok(g0, self@, start, queue[i]));
                }
                assert forall|i: int| 0 <= i < work.len() implies self.holds(
                    #[trigger] work[i].0,
                    work[i].1,
                ) by {
                    assert(self.holds(queue[i].0, queue[i].1));
                }
            }
            self.flood_around(cx, cy, &mut work, Ghost(g0), Ghost(start));
        }
        proof {
            assert(work@ =~= Seq::<(u16, u16)>::empty());
            lemma_flood_ends(g0, self@, start, w, h);
        }
    }

    /// Opens the hidden spots around the opened spot `(cx, cy)` numbered 0,
    /// and queues those of them that are numbered 0 too.
    fn flood_around(
        &mut self,
        cx: u16,
        cy: u16,
        work: &mut Vec<(u16, u16)>,
        Ghost(g0): Ghost<Grid>,
        Ghost(start): Ghost<Pos>,
    )
        requires
            old(self).wf(),
            old(self).holds(cx, cy),
            flooding(
                g0,
                old(self)@,
                start,
                old(work)@,
                old(self).width() as int,
                old(self).height() as int,
            ),
            pending_but(g0, old(self)@, old(work)@, Some((cx as int, cy as int))),
            item_ok(g0, old(self)@, start, (cx, cy)),
            forall|i: int|
                0 <= i < old(work).len() ==> old(self).holds(#[trigger] old(work)[i].0, old(work)[i].1),
        ensures
            final(self).wf(),
            final(self).width() == old(self).width(),
            final(self).height() == old(self).height(),
            final(self).mines() == old(self).mines(),
            flooding(
                g0,
                final(self)@,
                start,
                final(work)@,
                old(self).width() as int,
                old(self).height() as int,
            ),
            pending_but(g0, final(self)@, final(work)@, None),
            unexplored(final(self)@, final(work)@) <= unexplored(old(self)@, old(work)@),
            forall|i: int|
                0 <= i < final(work).len() ==> final(self).holds(
                    #[trigger] final(work)[i].0,
                    final(work)[i].1,
                ),
    {
        let ghost c = (cx as int, cy as int);
        let ghost w = self.width() as int;
        let ghost h = self.height() as int;
        let mut k: u8 = 0;
        while k < 8
            invariant
                k <= 8,
                self.wf(),
                self.holds(cx, cy),
                self.width() == w,
                self.height() == h,
                self.width() == old(self).width(),
                self.height() == old(self).height(),
                self.mines() == old(self).mines(),
                c == (cx as int, cy as int),
                flooding(g0, self@, start, work@, w, h),
                pending_but(g0, self@, work@, Some(c)),
                item_ok(g0, self@, start, (cx, cy)),
                forall|j: int|
                    0 <= j < k && flows(g0, c, #[trigger] neighbor(c, j)) ==> flooded(
                        g0,
                        self@,
                        neighbor(c, j),
                    ),
                unexplored(self@, work@) <= unexplored(old(self)@, old(work)@),
                forall|i: int| 0 <= i < work.len() ==> self.holds(#[trigger] work[i].0, work[i].1),
            decreases 8 - k,
        {
            let ghost g = self@;
            let ghost queue = work@;
            match self.neighbor_of(cx, cy, k) {
                Some((nx, ny)) => {
                    let spot = self.peek(nx, ny);
                    if spot.state == SpotState::Hidden {
                        proof {
                            lemma_neighbors_are_adjacent(c, (nx as int, ny as int));
                            lemma_flood_opens(
                                g0,
                                g,
                                start,
                                c,
                                (nx as int, ny as int),
                                queue,
                                (nx, ny),
                                w,
                                h,
                            );
                        }
                        self.set_state(nx, ny, SpotState::Revealed);
                        if spot.kind == SpotKind::Empty(0) {
                            work.push((nx, ny));
                        }
                    }
                },
                None => {},
            }
            k += 1;
        }
        proof {
            lemma_flood_closes(g0, self@, work@, c);
        }
    }
}

} // verus!
