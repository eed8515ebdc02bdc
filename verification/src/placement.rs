//! Laying the mines of a game at random.

use vstd::prelude::*;
use crate::cell::Place;
use crate::board::{Board, coords};
use crate::field::Minefield;
use crate::layout::{lemma_laid_counts_small, lemma_laid_mine_count};
use crate::sampling::{is_sample, sample, thread_rng};
use crate::targets::{
    all_ending_with,
    lemma_all_ending_with,
    lemma_candidates_len,
    lemma_position,
    lemma_sample_of_all,
    lemma_target_is_new,
    lemma_targets_distinct,
    lemma_targets_push,
    picks_protected,
    position,
    sample_size,
    targets,
};
use vstd::arithmetic::div_mod::lemma_fundamental_div_mod_converse;
use vstd::math::min;

verus! {

impl Board {
    /// The grid is one that laying mines can leave: some sample of
    /// `num_mines + 1` positions, or of all positions if there are fewer,
    /// was drawn, and its targets got the mines.
    pub open spec fn populated(self, width: nat, height: nat, num_mines: nat, protected: (int, int)) -> bool {
        exists|picked: Seq<usize>|
            is_sample(picked, width * height, sample_size(num_mines, width * height)) && self
                == Self::laid(width, height, #[trigger] targets(picked, width, num_mines, protected))
    }

    /// The number of positions other than `protected`.
    pub open spec fn room(self, protected: (int, int)) -> nat {
        if self.contains(protected.0, protected.1) {
            (self.width * self.height - 1) as nat
        } else {
            self.width * self.height
        }
    }

    /// After the mines were laid nothing is flagged or revealed, the
    /// protected position holds no mine, every safe position counts the
    /// mines around it, and the mines are as many as were asked for, or as
    /// many as there is room for if that is less.
    pub proof fn lemma_populated(self, width: nat, height: nat, num_mines: nat, protected: (int, int))
        requires
            self.populated(width, height, num_mines, protected),
        ensures
            self.wf(),
            self.width == width,
            self.height == height,
            self.untouched(),
            self.counts_exact(),
            self.contains(protected.0, protected.1) ==> !self.at(protected.0, protected.1).has_mine(),
            self.mine_count() == min(num_mines as int, self.room(protected) as int),
    {
        let cells = width * height;
        let amount = sample_size(num_mines, cells);
        let picked = choose|picked: Seq<usize>|
            is_sample(picked, cells, amount) && self == Self::laid(width, height, #[trigger] targets(picked, width, num_mines, protected));
        let mines = targets(picked, width, num_mines, protected);
        Self::lemma_laid(width, height, mines);
        lemma_targets_distinct(picked, width, height, num_mines, protected);
        lemma_laid_mine_count(width, height, mines);
        lemma_candidates_len(picked, width, height, protected);
        if self.contains(protected.0, protected.1) {
            assert(self.at(protected.0, protected.1).has_mine() <==> mines.contains(protected));
            assert(cells >= 1) by (nonlinear_arith)
                requires
                    cells == width * height,
                    width >= 1,
                    height >= 1,
            ;
            if num_mines >= cells {
                let v = protected.0 * width + protected.1;
                assert(0 <= v < cells) by (nonlinear_arith)
                    requires
                        0 <= protected.0 < height,
                        0 <= protected.1 < width,
                        v == protected.0 * width + protected.1,
                        cells == width * height,
                ;
                lemma_sample_of_all(picked, cells, v);
                let k = choose|k: int| 0 <= k < picked.len() && #[trigger] picked[k] == v;
                lemma_fundamental_div_mod_converse(v, width as int, protected.0, protected.1);
                assert(position(picked[k] as int, width) == protected);
            }
        } else {
            if picks_protected(picked, width, protected) {
                let k = choose|k: int| 0 <= k < picked.len() && position(#[trigger] picked[k] as int, width) == protected;
                lemma_position(picked[k] as int, width, height);
            }
        }
    }
}

/// Every index below `cells` once: in rising order, but for `last`, which
/// comes at the end.
pub fn draw_all(cells: usize, last: usize) -> (picked: Vec<usize>)
    requires
        last < cells,
    ensures
        picked@ == all_ending_with(cells as nat, last as int),
{
    let mut picked: Vec<usize> = Vec::new();
    let mut index: usize = 0;
    while index < cells
        invariant
            index <= cells,
            last < cells,
            picked@.len() == (if index <= last { index as int } else { index - 1 }),
            forall|k: int| 0 <= k < picked@.len() ==> #[trigger] picked@[k] == all_ending_with(cells as nat, last as int)[k],
        decreases cells - index,
    {
        if index != last {
            picked.push(index);
        }
        index += 1;
    }
    picked.push(last);
    assert(picked@ =~= all_ending_with(cells as nat, last as int));
    picked
}

/// `(i, j)` is one of the first `k` of `around`.
pub open spec fn among(around: Seq<(int, int)>, k: int, i: int, j: int) -> bool {
    exists|t: int| 0 <= t < k && t < around.len() && #[trigger] around[t] == (i, j)
}

impl Minefield {
    /// Counts a new mine at `(r, c)`: every hidden safe position around it
    /// counts one more.
    fn raise_around(&mut self, r: usize, c: usize)
        requires
            old(self).wf(),
            forall|i: int, j: int|
                old(self)@.contains(i, j) && Board::adjacent(r as int, c as int, i, j) ==> (#[trigger] old(self)@.at(i, j)).count() < usize::MAX,
        ensures
            final(self).wf(),
            final(self)@ == old(self)@.lifted(r as int, c as int),
    {
        let around = self.neighbors(r, c);
        let ghost start = self@;
        let ghost spots = coords(around@);
        proof {
            self.lemma_wf();
            start.lemma_neighbors(r as int, c as int);
        }
        let mut k: usize = 0;
        while k < around.len()
            invariant
                self.wf(),
                start.wf(),
                self@.wf(),
                self@.width == start.width,
                self@.height == start.height,
                k <= around.len(),
                spots == coords(around@),
                spots == start.neighbors(r as int, c as int),
                spots.no_duplicates(),
                forall|i: int, j: int| #[trigger] spots.contains((i, j)) <==> (start.contains(i, j) && Board::adjacent(r as int, c as int, i, j)),
                forall|i: int, j: int|
                    start.contains(i, j) && Board::adjacent(r as int, c as int, i, j) ==> (#[trigger] start.at(i, j)).count() < usize::MAX,
                forall|i: int, j: int|
                    start.contains(i, j) ==> #[trigger] self@.at(i, j) == (if among(spots, k as int, i, j) {
                        start.at(i, j).raised()
                    } else {
                        start.at(i, j)
                    }),
            decreases around.len() - k,
        {
            let (i, j) = around[k];
            let ghost before = self@;
            assert(spots[k as int] == (i as int, j as int));
            assert(spots.contains((i as int, j as int)));
            assert(!among(spots, k as int, i as int, j as int));
            if let Some(place) = self.get_mut(i, j) {
                if let Place::Hidden(x) = *place {
                    *place = Place::Hidden(x + 1);
                }
            }
            proof {
                assert forall|a: int, b: int| start.contains(a, b) implies #[trigger] self@.at(a, b) == (if among(spots, k + 1, a, b) {
                    start.at(a, b).raised()
                } else {
                    start.at(a, b)
                }) by {
                    if a == i && b == j {
                        assert(among(spots, k + 1, a, b));
                    } else {
                        assert(self@.at(a, b) == before.at(a, b));
                        if among(spots, k + 1, a, b) {
                            let t = choose|t: int| 0 <= t < k + 1 && t < spots.len() && #[trigger] spots[t] == (a, b);
                            assert(t < k);
                            assert(among(spots, k as int, a, b));
                        }
                    }
                }
            }
            k += 1;
        }
        proof {
            let goal = start.lifted(r as int, c as int);
            assert forall|a: int| 0 <= a < start.height implies #[trigger] self@.cells[a] =~= goal.cells[a] by {
                assert forall|b: int| 0 <= b < start.width implies self@.cells[a][b] == goal.cells[a][b] by {
                    assert(start.contains(a, b));
                    assert(self@.at(a, b) == (if among(spots, k as int, a, b) {
                        start.at(a, b).raised()
                    } else {
                        start.at(a, b)
                    }));
                    if among(spots, k as int, a, b) {
                        assert(spots.contains((a, b)));
                    }
                    if Board::adjacent(r as int, c as int, a, b) {
                        assert(spots.contains((a, b)));
                        let t = choose|t: int| 0 <= t < spots.len() && spots[t] == (a, b);
                        assert(among(spots, k as int, a, b));
                    }
                }
            }
            assert(self@.cells =~= goal.cells);
        }
    }

    /// Lays the mines that the picked indices stand for: the grid is
    /// cleared, then each picked position other than `clicked_pos` gets a
    /// mine, in the order picked, until `num_mines` are placed, and every
    /// safe position counts the mines around it.
    pub fn place_mines(&mut self, picked: &Vec<usize>, num_mines: usize, clicked_pos: (usize, usize))
        requires
            old(self).wf(),
            picked@.no_duplicates(),
            forall|k: int| 0 <= k < picked@.len() ==> (#[trigger] picked@[k]) < old(self)@.width * old(self)@.height,
        ensures
            final(self).wf(),
            final(self)@ == Board::laid(
                old(self)@.width,
                old(self)@.height,
                targets(picked@, old(self)@.width, num_mines as nat, (clicked_pos.0 as int, clicked_pos.1 as int)),
            ),
    {
        self.reset();
        let ghost width = self@.width;
        let ghost height = self@.height;
        let ghost protected = (clicked_pos.0 as int, clicked_pos.1 as int);
        let mut placed: usize = 0;
        let mut k: usize = 0;
        proof {
            lemma_targets_push(Seq::empty(), 0, width, num_mines as nat, protected);
            Board::lemma_laid_nothing(width, height);
            assert(picked@.take(0) =~= Seq::empty());
        }
        while k < picked.len()
            invariant
                self.wf(),
                self@.width == width,
                self@.height == height,
                protected == (clicked_pos.0 as int, clicked_pos.1 as int),
                k <= picked.len(),
                picked@.no_duplicates(),
                forall|t: int| 0 <= t < picked@.len() ==> (#[trigger] picked@[t]) < width * height,
                placed == targets(picked@.take(k as int), width, num_mines as nat, protected).len(),
                placed <= num_mines,
                self@ == Board::laid(width, height, targets(picked@.take(k as int), width, num_mines as nat, protected)),
            decreases picked.len() - k,
        {
            let index = picked[k];
            let ghost seen = picked@.take(k as int);
            let ghost done = targets(seen, width, num_mines as nat, protected);
            proof {
                lemma_position(index as int, width, height);
                lemma_targets_push(seen, index, width, num_mines as nat, protected);
                assert(picked@.take(k + 1) =~= seen.push(index));
            }
            let r = index / self.width();
            let c = index % self.width();
            if (r != clicked_pos.0 || c != clicked_pos.1) && placed < num_mines {
                proof {
                    lemma_target_is_new(picked@, k as int, width, height, num_mines as nat, protected);
                    lemma_laid_counts_small(width, height, done, r as int, c as int);
                }
                if let Some(place) = self.get_mut(r, c) {
                    *place = Place::Mine;
                }
                self.raise_around(r, c);
                proof {
                    Board::lemma_lay_one(width, height, done, r as int, c as int);
                }
                placed += 1;
            }
            k += 1;
        }
        assert(picked@.take(picked.len() as int) =~= picked@);
    }

    /// Lays `num_mines` mines at random, none of them on `clicked_pos`:
    /// the grid is cleared, a sample of `num_mines + 1` different positions
    /// is drawn (of all positions, if there are fewer), and of those other
    /// than `clicked_pos` the first `num_mines` get a mine.
    ///
    /// All positions of a grid of more than `u32::MAX` cannot be had from
    /// the sampler in one call. Of such a draw only the position that comes
    /// last can matter, so that one is drawn and the others come before it.
    pub fn populate(&mut self, num_mines: usize, clicked_pos: (usize, usize))
        requires
            old(self).wf(),
        ensures
            final(self).wf(),
            final(self)@.width == old(self)@.width,
            final(self)@.height == old(self)@.height,
            final(self)@.populated(
                old(self)@.width,
                old(self)@.height,
                num_mines as nat,
                (clicked_pos.0 as int, clicked_pos.1 as int),
            ),
            final(self)@.untouched(),
            final(self)@.counts_exact(),
            final(self)@.get(clicked_pos.0 as int, clicked_pos.1 as int) matches Some(p) ==> !p.has_mine(),
            final(self)@.mine_count() == min(
                num_mines as int,
                old(self)@.room((clicked_pos.0 as int, clicked_pos.1 as int)) as int,
            ),
    {
        proof {
            self.lemma_wf();
        }
        let cells = self.width() * self.height();
        let amount = if num_mines < cells {
            num_mines + 1
        } else {
            cells
        };
        let mut rng = thread_rng();
        let picked = if amount < cells || cells <= 0xFFFF_FFFF {
            sample(&mut rng, cells, amount)
        } else {
            let end = sample(&mut rng, cells, 1);
            proof {
                lemma_all_ending_with(cells as nat, end@[0] as int);
            }
            draw_all(cells, end[0])
        };
        self.place_mines(&picked, num_mines, clicked_pos);
        proof {
            let protected = (clicked_pos.0 as int, clicked_pos.1 as int);
            let width = old(self)@.width;
            let height = old(self)@.height;
            assert(self@ == Board::laid(width, height, targets(picked@, width, num_mines as nat, protected)));
            assert(self@.populated(width, height, num_mines as nat, protected));
            self@.lemma_populated(width, height, num_mines as nat, protected);
        }
    }
}

} // verus!
