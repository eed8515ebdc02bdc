//! From a sample of linear indices to the positions that get a mine.

use vstd::prelude::*;
use crate::board::Board;
use crate::sampling::is_sample;
use vstd::set_lib::{lemma_int_range, lemma_subset_equality, set_int_range};
use vstd::arithmetic::div_mod::{lemma_fundamental_div_mod, lemma_multiply_divide_lt};

verus! {

/// The position that the linear index stands for on rows of `width`.
pub open spec fn position(index: int, width: nat) -> (int, int) {
    (index / width as int, index % width as int)
}

/// The positions that the picked indices stand for, without `protected`.
pub open spec fn candidates(picked: Seq<usize>, width: nat, protected: (int, int)) -> Seq<(int, int)> {
    picked.map_values(|index: usize| position(index as int, width)).filter(|p: (int, int)| p != protected)
}

/// The positions that get a mine: of the picked ones other than
/// `protected`, the first `num_mines`.
pub open spec fn targets(picked: Seq<usize>, width: nat, num_mines: nat, protected: (int, int)) -> Seq<(int, int)> {
    let all = candidates(picked, width, protected);
    if num_mines < all.len() {
        all.take(num_mines as int)
    } else {
        all
    }
}

/// How many positions are drawn for `num_mines` mines on a grid of `cells`
/// positions: one more than the mines, capped at the grid.
pub open spec fn sample_size(num_mines: nat, cells: nat) -> nat {
    if num_mines < cells {
        num_mines + 1
    } else {
        cells
    }
}

/// Every index below `cells` once: in rising order, but for `last`, which
/// comes at the end.
pub open spec fn all_ending_with(cells: nat, last: int) -> Seq<usize> {
    Seq::new(
        cells,
        |k: int|
            if k == cells - 1 {
                last as usize
            } else if k < last {
                k as usize
            } else {
                (k + 1) as usize
            },
    )
}

/// Every index below `cells` once is a sample of all of them.
pub proof fn lemma_all_ending_with(cells: nat, last: int)
    requires
        0 <= last < cells <= usize::MAX,
    ensures
        is_sample(all_ending_with(cells, last), cells, cells),
{
    let all = all_ending_with(cells, last);
    assert forall|a: int, b: int| 0 <= a < all.len() && 0 <= b < all.len() && a != b implies all[a] != all[b] by {}
}

/// One of the picked indices stands for `protected`.
pub open spec fn picks_protected(picked: Seq<usize>, width: nat, protected: (int, int)) -> bool {
    exists|k: int| 0 <= k < picked.len() && position(#[trigger] picked[k] as int, width) == protected
}

/// One more picked index adds its position to the candidates unless it is
/// the protected one.
pub proof fn lemma_candidates_push(picked: Seq<usize>, index: usize, width: nat, protected: (int, int))
    ensures
        candidates(picked.push(index), width, protected) == (if position(index as int, width) != protected {
            candidates(picked, width, protected).push(position(index as int, width))
        } else {
            candidates(picked, width, protected)
        }),
        candidates(Seq::empty(), width, protected) == Seq::<(int, int)>::empty(),
{
    reveal(Seq::filter);
    let f = |index: usize| position(index as int, width);
    let mapped = picked.push(index).map_values(f);
    assert(mapped.drop_last() =~= picked.map_values(f));
    assert(mapped.last() == position(index as int, width));
    assert(Seq::<usize>::empty().map_values(f) =~= Seq::<(int, int)>::empty());
}

/// One more picked index adds its position to the targets unless it is the
/// protected one or the mines are all placed.
pub proof fn lemma_targets_push(picked: Seq<usize>, index: usize, width: nat, num_mines: nat, protected: (int, int))
    ensures
        targets(picked, width, num_mines, protected).len() <= num_mines,
        targets(picked.push(index), width, num_mines, protected) == (if position(index as int, width) != protected
            && targets(picked, width, num_mines, protected).len() < num_mines {
            targets(picked, width, num_mines, protected).push(position(index as int, width))
        } else {
            targets(picked, width, num_mines, protected)
        }),
        targets(Seq::empty(), width, num_mines, protected) == Seq::<(int, int)>::empty(),
{
    lemma_candidates_push(picked, index, width, protected);
    let all = candidates(picked, width, protected);
    let p = position(index as int, width);
    let old_targets = targets(picked, width, num_mines, protected);
    let new_targets = targets(picked.push(index), width, num_mines, protected);
    if p != protected {
        if old_targets.len() < num_mines {
            assert(new_targets =~= old_targets.push(p));
        } else {
            assert(all.push(p).take(num_mines as int) =~= all.take(num_mines as int));
            assert(all.take(all.len() as int) =~= all);
            assert(new_targets =~= old_targets);
        }
    }
}

/// Every target is the position of a picked index and is not the protected one.
pub proof fn lemma_targets_picked(picked: Seq<usize>, width: nat, num_mines: nat, protected: (int, int), t: int)
    requires
        0 <= t < targets(picked, width, num_mines, protected).len(),
    ensures
        targets(picked, width, num_mines, protected)[t] != protected,
        exists|k: int| 0 <= k < picked.len() && position(#[trigger] picked[k] as int, width) == targets(picked, width, num_mines, protected)[t],
    decreases picked.len(),
{
    if picked.len() == 0 {
        lemma_targets_push(picked, 0, width, num_mines, protected);
        assert(picked =~= Seq::empty());
    } else {
        let front = picked.drop_last();
        let index = picked.last();
        assert(front.push(index) =~= picked);
        lemma_targets_push(front, index, width, num_mines, protected);
        let before = targets(front, width, num_mines, protected);
        if t < before.len() {
            lemma_targets_picked(front, width, num_mines, protected, t);
            let k = choose|k: int| 0 <= k < front.len() && position(#[trigger] front[k] as int, width) == before[t];
            assert(position(picked[k] as int, width) == targets(picked, width, num_mines, protected)[t]);
        } else {
            assert(position(picked[picked.len() - 1] as int, width) == targets(picked, width, num_mines, protected)[t]);
        }
    }
}

/// Different indices below `width * height` stand for different positions
/// of the grid.
pub proof fn lemma_position(index: int, width: nat, height: nat)
    requires
        0 <= index < width * height,
    ensures
        width > 0,
        0 <= position(index, width).0 < height,
        0 <= position(index, width).1 < width,
        index == position(index, width).0 * width + position(index, width).1,
{
    assert(width > 0) by (nonlinear_arith)
        requires
            0 <= index < width * height,
    ;
    let w = width as int;
    lemma_fundamental_div_mod(index, w);
    lemma_multiply_divide_lt(index, w, height as int);
    assert(index / w >= 0 && 0 <= index % w < w) by (nonlinear_arith)
        requires
            index >= 0,
            w > 0,
    ;
    assert(w * (index / w) == (index / w) * w) by (nonlinear_arith);
}

/// The position of a picked index is not among the targets of the indices
/// picked before it.
pub proof fn lemma_target_is_new(picked: Seq<usize>, k: int, width: nat, height: nat, num_mines: nat, protected: (int, int))
    requires
        picked.no_duplicates(),
        forall|t: int| 0 <= t < picked.len() ==> (#[trigger] picked[t]) < width * height,
        0 <= k < picked.len(),
    ensures
        !targets(picked.take(k), width, num_mines, protected).contains(position(picked[k] as int, width)),
{
    let seen = picked.take(k);
    let done = targets(seen, width, num_mines, protected);
    let p = position(picked[k] as int, width);
    if done.contains(p) {
        let t = choose|t: int| 0 <= t < done.len() && done[t] == p;
        lemma_targets_picked(seen, width, num_mines, protected, t);
        let e = choose|e: int| 0 <= e < seen.len() && position(#[trigger] seen[e] as int, width) == done[t];
        assert(seen[e] == picked[e]);
        lemma_position(picked[e] as int, width, height);
        lemma_position(picked[k] as int, width, height);
        assert(picked[e] == picked[k]);
    }
}

/// Of different indices of the grid at most one stands for the protected
/// position, so the candidates are all of them or all but one.
pub proof fn lemma_candidates_len(picked: Seq<usize>, width: nat, height: nat, protected: (int, int))
    requires
        picked.no_duplicates(),
        forall|t: int| 0 <= t < picked.len() ==> (#[trigger] picked[t]) < width * height,
    ensures
        candidates(picked, width, protected).len() + (if picks_protected(picked, width, protected) { 1nat } else { 0nat })
            == picked.len(),
    decreases picked.len(),
{
    if picked.len() == 0 {
        lemma_candidates_push(picked, 0, width, protected);
        assert(picked =~= Seq::empty());
    } else {
        let front = picked.drop_last();
        let index = picked.last();
        assert(front.push(index) =~= picked);
        lemma_candidates_push(front, index, width, protected);
        lemma_candidates_len(front, width, height, protected);
        if position(index as int, width) == protected {
            assert(position(picked[picked.len() - 1] as int, width) == protected);
            if picks_protected(front, width, protected) {
                let e = choose|e: int| 0 <= e < front.len() && position(#[trigger] front[e] as int, width) == protected;
                assert(front[e] == picked[e]);
                lemma_position(picked[e] as int, width, height);
                lemma_position(index as int, width, height);
                assert(picked[e] == picked[picked.len() - 1]);
            }
        } else {
            if picks_protected(front, width, protected) {
                let e = choose|e: int| 0 <= e < front.len() && position(#[trigger] front[e] as int, width) == protected;
                assert(position(picked[e] as int, width) == protected);
            }
            if picks_protected(picked, width, protected) {
                let e = choose|e: int| 0 <= e < picked.len() && position(#[trigger] picked[e] as int, width) == protected;
                assert(position(front[e] as int, width) == protected);
            }
        }
    }
}

/// The targets are different positions of the grid.
pub proof fn lemma_targets_distinct(picked: Seq<usize>, width: nat, height: nat, num_mines: nat, protected: (int, int))
    requires
        picked.no_duplicates(),
        forall|t: int| 0 <= t < picked.len() ==> (#[trigger] picked[t]) < width * height,
    ensures
        targets(picked, width, num_mines, protected).no_duplicates(),
        forall|t: int|
            0 <= t < targets(picked, width, num_mines, protected).len() ==> Board::blank(width, height).contains(
                (#[trigger] targets(picked, width, num_mines, protected)[t]).0,
                targets(picked, width, num_mines, protected)[t].1,
            ),
        !targets(picked, width, num_mines, protected).contains(protected),
    decreases picked.len(),
{
    let all = targets(picked, width, num_mines, protected);
    if picked.len() == 0 {
        lemma_targets_push(picked, 0, width, num_mines, protected);
        assert(picked =~= Seq::empty());
    } else {
        let front = picked.drop_last();
        let index = picked.last();
        let k = picked.len() - 1;
        assert(front.push(index) =~= picked);
        assert(front =~= picked.take(k));
        lemma_targets_push(front, index, width, num_mines, protected);
        lemma_targets_distinct(front, width, height, num_mines, protected);
        lemma_target_is_new(picked, k, width, height, num_mines, protected);
        lemma_position(index as int, width, height);
        let before = targets(front, width, num_mines, protected);
        if all.contains(protected) {
            let t = choose|t: int| 0 <= t < all.len() && all[t] == protected;
            if t < before.len() {
                assert(before[t] == protected);
            }
        }
        assert forall|a: int, b: int| 0 <= a < all.len() && 0 <= b < all.len() && a != b implies all[a] != all[b] by {
            if a < before.len() {
                assert(before.contains(before[a]));
            }
            if b < before.len() {
                assert(before.contains(before[b]));
            }
        }
    }
}

/// Different numbers below `n`, `n` of them, are all the numbers below `n`.
pub proof fn lemma_sample_of_all(picked: Seq<usize>, n: nat, v: int)
    requires
        is_sample(picked, n, n),
        0 <= v < n,
    ensures
        exists|k: int| 0 <= k < picked.len() && #[trigger] picked[k] == v,
{
    broadcast use vstd::seq_lib::seq_to_set_is_finite;

    let ints = Seq::new(n, |k: int| picked[k] as int);
    assert(ints.no_duplicates());
    ints.unique_seq_to_set();
    lemma_int_range(0, n as int);
    assert(ints.to_set().subset_of(set_int_range(0, n as int))) by {
        assert forall|x: int| ints.to_set().contains(x) implies set_int_range(0, n as int).contains(x) by {
            let k = choose|k: int| 0 <= k < ints.len() && ints[k] == x;
            assert(picked[k] < n);
        }
    }
    lemma_subset_equality(ints.to_set(), set_int_range(0, n as int));
    assert(set_int_range(0, n as int).contains(v));
    assert(ints.to_set().contains(v));
    let k = choose|k: int| 0 <= k < ints.len() && ints[k] == v;
    assert(picked[k] == v);
}

} // verus!
