//! Choosing where the mines go: a sample of distinct spots, drawn without
//! replacement by shuffling as far as the sample reaches.

use vstd::prelude::*;
use rand::Rng;
use crate::layout::offset_of;

verus! {

/// A number below `bound`, chosen at random.
///
/// Trusted: calls `rand::thread_rng` and `Rng::gen_range` on `0..bound`.
/// The claim is what `gen_range` documents, that the value lies in the given
/// range; which value comes is up to chance. `gen_range` panics on an empty
/// range, which `bound > 0` rules out; `thread_rng` fails only if the system
/// gives it no seed.
#[verifier::external_body]
fn random_below(bound: usize) -> (pick: usize)
    requires
        bound > 0,
    ensures
        pick < bound,
{
    rand::thread_rng().gen_range(0..bound)
}

/// The numbers `0, 1, ..., total - 1` in order.
pub open spec fn in_order(total: nat) -> Seq<usize> {
    Seq::new(total, |i: int| i as usize)
}

/// A sequence with the items at `i` and `j` exchanged.
pub open spec fn exchanged(s: Seq<usize>, i: int, j: int) -> Seq<usize> {
    s.update(i, s[j]).update(j, s[i])
}

/// Which item the `i`-th round of shuffling `total` items brings to the
/// front part: one of those from the `i`-th on, as the pick says.
pub open spec fn picked(total: nat, i: int, pick: usize) -> int {
    i + pick as int % (total - i)
}

/// The numbers below `total` after one round of shuffling for each pick:
/// round `i` exchanges item `i` with the item that `picks[i]` selects among
/// those from the `i`-th on.
pub open spec fn shuffled(total: nat, picks: Seq<usize>) -> Seq<usize>
    decreases picks.len(),
{
    if picks.len() == 0 {
        in_order(total)
    } else {
        let i = picks.len() - 1;
        exchanged(shuffled(total, picks.drop_last()), i, picked(total, i, picks.last()))
    }
}

/// The sample that the picks select among `total` spots: as many distinct
/// spots as there are picks.
pub open spec fn sample_of(total: nat, picks: Seq<usize>) -> Seq<usize> {
    shuffled(total, picks).take(picks.len() as int)
}

/// `s` holds each number below its length once.
pub open spec fn is_arrangement(s: Seq<usize>) -> bool {
    &&& forall|i: int| 0 <= i < s.len() ==> #[trigger] s[i] < s.len()
    &&& forall|i: int, j: int| 0 <= i < j < s.len() ==> #[trigger] s[i] != #[trigger] s[j]
}

proof fn lemma_picked_in_range(total: nat, i: int, pick: usize)
    requires
        0 <= i < total,
    ensures
        i <= picked(total, i, pick) < total,
{
    let m = total - i;
    assert(0 <= pick as int % m < m) by (nonlinear_arith)
        requires
            m > 0,
            pick >= 0,
    ;
}

/// Shuffling keeps every number below `total`, each once.
pub proof fn lemma_shuffled_is_arrangement(total: nat, picks: Seq<usize>)
    requires
        picks.len() <= total,
        total <= usize::MAX,
    ensures
        shuffled(total, picks).len() == total,
        is_arrangement(shuffled(total, picks)),
    decreases picks.len(),
{
    if picks.len() > 0 {
        let i = picks.len() - 1;
        lemma_shuffled_is_arrangement(total, picks.drop_last());
        lemma_picked_in_range(total, i, picks.last());
    }
}

/// The random picks that a sample of `count` among `total` spots takes, as
/// far as there are spots: the `i`-th pick lies below `total - i`.
pub fn draw_picks(total: usize, count: usize) -> (picks: Vec<usize>)
    ensures
        picks@.len() == if count <= total {
            count
        } else {
            total
        },
        forall|i: int| 0 <= i < picks@.len() ==> #[trigger] picks@[i] < total - i,
{
    let mut picks: Vec<usize> = Vec::new();
    let mut i: usize = 0;
    while i < count && i < total
        invariant
            i <= count,
            i <= total,
            picks@.len() == i,
            forall|j: int| 0 <= j < i ==> #[trigger] picks@[j] < total - j,
        decreases count - i,
    {
        let pick = random_below(total - i);
        picks.push(pick);
        i += 1;
    }
    picks
}

/// The sample that the picks select among `total` spots.
pub(crate) fn sample_cells(total: usize, picks: &Vec<usize>) -> (sample: Vec<usize>)
    requires
        picks@.len() <= total,
    ensures
        sample@ == sample_of(total as nat, picks@),
        sample@.len() == picks@.len(),
        sample@.no_duplicates(),
        forall|i: int| 0 <= i < sample@.len() ==> #[trigger] sample@[i] < total,
{
    let mut order: Vec<usize> = Vec::new();
    let mut n: usize = 0;
    while n < total
        invariant
            n <= total,
            order@.len() == n,
            forall|j: int| 0 <= j < n ==> order@[j] == j,
        decreases total - n,
    {
        order.push(n);
        n += 1;
    }
    assert(order@ =~= in_order(total as nat));
    let mut i: usize = 0;
    while i < picks.len()
        invariant
            i <= picks@.len() <= total,
            order@.len() == total,
            order@ == shuffled(total as nat, picks@.take(i as int)),
        decreases picks.len() - i,
    {
        proof {
            lemma_picked_in_range(total as nat, i as int, picks@[i as int]);
        }
        let j = i + picks[i] % (total - i);
        let first = order[i];
        let other = order[j];
        order.set(i, other);
        order.set(j, first);
        proof {
            let upto = picks@.take(i + 1);
            assert(upto.drop_last() =~= picks@.take(i as int));
            assert(upto.last() == picks@[i as int]);
        }
        i += 1;
    }
    proof {
        assert(picks@.take(picks@.len() as int) =~= picks@);
        lemma_shuffled_is_arrangement(total as nat, picks@);
    }
    order.truncate(picks.len());
    proof {
        assert(order@ =~= sample_of(total as nat, picks@));
    }
    order
}

/// The coordinate of the spot that stands at `cell` among the rows of a
/// grid, laid out one after the other.
pub(crate) fn cell_position(width: u16, height: u16, cell: usize) -> (at: (u16, u16))
    requires
        cell < width * height,
    ensures
        at.0 < width,
        at.1 < height,
        offset_of(width as int, at.0 as int, at.1 as int) == cell,
{
    let ghost w = width as int;
    let ghost h = height as int;
    let ghost c = cell as int;
    proof {
        assert(w > 0) by (nonlinear_arith)
            requires
                0 <= w,
                0 <= c < w * h,
        ;
        vstd::arithmetic::div_mod::lemma_fundamental_div_mod(c, w);
        assert(0 <= c % w < w && 0 <= c / w < h && w * (c / w) == (c / w) * w) by (nonlinear_arith)
            requires
                w > 0,
                0 <= c < w * h,
                c == w * (c / w) + c % w,
        ;
    }
    let x = cell % (width as usize);
    let y = cell / (width as usize);
    (x as u16, y as u16)
}

} // verus!
