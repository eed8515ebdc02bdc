//! Mines and counts: the grid that a set of mines makes.

use vstd::prelude::*;
use crate::cell::Place;
use crate::board::Board;
use crate::tally::mined;

verus! {

impl Board {
    /// 1 if `(i, j)` is a position of the grid that holds a mine, else 0.
    pub open spec fn mine_at(self, i: int, j: int) -> nat {
        if self.contains(i, j) && self.at(i, j).has_mine() {
            1
        } else {
            0
        }
    }

    /// The number of mines on the positions around `(r, c)`.
    pub open spec fn mine_neighbors(self, r: int, c: int) -> nat {
        self.mine_at(r - 1, c - 1) + self.mine_at(r - 1, c) + self.mine_at(r - 1, c + 1)
            + self.mine_at(r, c - 1) + self.mine_at(r, c + 1)
            + self.mine_at(r + 1, c - 1) + self.mine_at(r + 1, c) + self.mine_at(r + 1, c + 1)
    }

    /// Every safe position carries the number of mines around it.
    pub open spec fn counts_exact(self) -> bool {
        forall|r: int, c: int|
            self.contains(r, c) && !(#[trigger] self.at(r, c)).has_mine() ==> self.at(r, c).count()
                == self.mine_neighbors(r, c)
    }

    /// Nothing is flagged or revealed: every position is `Mine` or `Hidden`.
    pub open spec fn untouched(self) -> bool {
        forall|r: int, c: int|
            self.contains(r, c) ==> (#[trigger] self.at(r, c)) is Mine || self.at(r, c) is Hidden
    }

    /// 1 if `(i, j)` is a position of the grid and one of `mines`, else 0.
    pub open spec fn hit(self, mines: Seq<(int, int)>, i: int, j: int) -> nat {
        if self.contains(i, j) && mines.contains((i, j)) {
            1
        } else {
            0
        }
    }

    /// How many of the positions around `(r, c)` are among `mines`.
    pub open spec fn near(self, mines: Seq<(int, int)>, r: int, c: int) -> nat {
        self.hit(mines, r - 1, c - 1) + self.hit(mines, r - 1, c) + self.hit(mines, r - 1, c + 1)
            + self.hit(mines, r, c - 1) + self.hit(mines, r, c + 1)
            + self.hit(mines, r + 1, c - 1) + self.hit(mines, r + 1, c) + self.hit(mines, r + 1, c + 1)
    }

    /// The untouched grid with a mine on each of `mines`: every other
    /// position is hidden and counts the mines around it.
    pub open spec fn laid(width: nat, height: nat, mines: Seq<(int, int)>) -> Board {
        Board {
            width,
            height,
            cells: Seq::new(
                height,
                |i: int|
                    Seq::new(
                        width,
                        |j: int|
                            if mines.contains((i, j)) {
                                Place::Mine
                            } else {
                                Place::Hidden(Self::blank(width, height).near(mines, i, j) as usize)
                            },
                    ),
            ),
        }
    }

    /// The grid after a new mine at `(r, c)` was counted: every position
    /// around `(r, c)` is raised.
    pub open spec fn lifted(self, r: int, c: int) -> Board {
        Board {
            cells: Seq::new(
                self.height,
                |i: int|
                    Seq::new(
                        self.width,
                        |j: int|
                            if Self::adjacent(r, c, i, j) {
                                self.at(i, j).raised()
                            } else {
                                self.at(i, j)
                            },
                    ),
            ),
            ..self
        }
    }

    /// A grid without mines is blank.
    pub proof fn lemma_laid_nothing(width: nat, height: nat)
        ensures
            Self::laid(width, height, Seq::empty()) == Self::blank(width, height),
    {
        assert(Self::laid(width, height, Seq::empty()) =~~= Self::blank(width, height));
    }

    /// On a laid grid the mines are where they were put and every safe
    /// position counts the mines around it.
    pub proof fn lemma_laid(width: nat, height: nat, mines: Seq<(int, int)>)
        ensures
            Self::laid(width, height, mines).wf(),
            Self::laid(width, height, mines).untouched(),
            Self::laid(width, height, mines).counts_exact(),
            forall|i: int, j: int|
                Self::laid(width, height, mines).contains(i, j) ==> (#[trigger] Self::laid(width, height, mines).at(i, j).has_mine()
                    <==> mines.contains((i, j))),
    {
        let b = Self::laid(width, height, mines);
        let e = Self::blank(width, height);
        assert forall|i: int, j: int| b.contains(i, j) implies b.at(i, j) == (if mines.contains((i, j)) {
            Place::Mine
        } else {
            Place::Hidden(e.near(mines, i, j) as usize)
        }) by {}
        assert forall|i: int, j: int| #[trigger] b.mine_at(i, j) == e.hit(mines, i, j) by {
            if b.contains(i, j) {
                assert(b.at(i, j) == (if mines.contains((i, j)) {
                    Place::Mine
                } else {
                    Place::Hidden(e.near(mines, i, j) as usize)
                }));
            }
        }
        assert forall|r: int, c: int| b.contains(r, c) && !(#[trigger] b.at(r, c)).has_mine() implies b.at(r, c).count()
            == b.mine_neighbors(r, c) by {
            assert(b.at(r, c) == Place::Hidden(e.near(mines, r, c) as usize));
            assert(b.mine_neighbors(r, c) == e.near(mines, r, c));
        }
    }

    /// One more mine: putting it on a free position of a laid grid and
    /// raising the positions around it gives the grid laid with that mine too.
    pub proof fn lemma_lay_one(width: nat, height: nat, mines: Seq<(int, int)>, r: int, c: int)
        requires
            Self::blank(width, height).contains(r, c),
            !mines.contains((r, c)),
        ensures
            Self::laid(width, height, mines).put(r, c, Place::Mine).lifted(r, c) == Self::laid(
                width,
                height,
                mines.push((r, c)),
            ),
    {
        let e = Self::blank(width, height);
        let more = mines.push((r, c));
        let before = Self::laid(width, height, mines);
        let lhs = before.put(r, c, Place::Mine).lifted(r, c);
        let rhs = Self::laid(width, height, more);
        assert forall|i: int, j: int| #[trigger] more.contains((i, j)) <==> (mines.contains((i, j)) || (i == r && j == c)) by {
            if mines.contains((i, j)) {
                let k = choose|k: int| 0 <= k < mines.len() && mines[k] == (i, j);
                assert(more[k] == (i, j));
            }
            if i == r && j == c {
                assert(more[mines.len() as int] == (i, j));
            }
            if more.contains((i, j)) {
                let k = choose|k: int| 0 <= k < more.len() && more[k] == (i, j);
                if k < mines.len() {
                    assert(mines[k] == (i, j));
                }
            }
        }
        assert forall|i: int, j: int| #[trigger] e.hit(more, i, j) == e.hit(mines, i, j) + (if i == r && j == c { 1nat } else { 0nat }) by {
            assert(more.contains((i, j)) <==> (mines.contains((i, j)) || (i == r && j == c)));
        }
        assert forall|i: int, j: int| 0 <= i < height && 0 <= j < width implies lhs.cells[i][j] == rhs.cells[i][j] by {
            assert(more.contains((i, j)) <==> (mines.contains((i, j)) || (i == r && j == c)));
            if i == r && j == c {
            } else if mines.contains((i, j)) {
            } else {
                assert(e.near(more, i, j) == e.near(mines, i, j) + (if Self::adjacent(r, c, i, j) { 1nat } else { 0nat }));
            }
        }
        assert(lhs =~~= rhs);
    }
}

/// On a laid grid, with or without one more mine, no count is above 8.
pub proof fn lemma_laid_counts_small(width: nat, height: nat, mines: Seq<(int, int)>, r: int, c: int)
    requires
        Board::blank(width, height).contains(r, c),
    ensures
        forall|i: int, j: int|
            Board::blank(width, height).contains(i, j) ==> (#[trigger] Board::laid(width, height, mines).put(r, c, Place::Mine).at(i, j)).count() <= 8,
{
    let laid = Board::laid(width, height, mines);
    let next = laid.put(r, c, Place::Mine);
    assert forall|i: int, j: int| Board::blank(width, height).contains(i, j) implies (#[trigger] next.at(i, j)).count() <= 8 by {
        assert(laid.at(i, j) == (if mines.contains((i, j)) {
            Place::Mine
        } else {
            Place::Hidden(Board::blank(width, height).near(mines, i, j) as usize)
        }));
    }
}

/// A laid grid holds as many mines as were put, if they were put on
/// different positions of the grid.
pub proof fn lemma_laid_mine_count(width: nat, height: nat, mines: Seq<(int, int)>)
    requires
        mines.no_duplicates(),
        forall|t: int| 0 <= t < mines.len() ==> Board::blank(width, height).contains((#[trigger] mines[t]).0, mines[t].1),
    ensures
        Board::laid(width, height, mines).mine_count() == mines.len(),
    decreases mines.len(),
{
    let grid = Board::laid(width, height, mines);
    Board::lemma_laid(width, height, mines);
    if mines.len() == 0 {
        assert(mines =~= Seq::empty());
        assert forall|r: int, c: int| grid.contains(r, c) implies !mined()(#[trigger] grid.at(r, c)) by {
            assert(grid.at(r, c).has_mine() <==> mines.contains((r, c)));
        }
        grid.lemma_tally_none(mined());
    } else {
        let front = mines.drop_last();
        let (r, c) = mines.last();
        assert(front.push((r, c)) =~= mines);
        assert(mines[mines.len() - 1] == (r, c));
        if front.contains((r, c)) {
            let t = choose|t: int| 0 <= t < front.len() && front[t] == (r, c);
            assert(mines[t] == mines[mines.len() - 1]);
        }
        assert forall|t: int| 0 <= t < front.len() implies Board::blank(width, height).contains((#[trigger] front[t]).0, front[t].1) by {
            assert(front[t] == mines[t]);
        }
        lemma_laid_mine_count(width, height, front);
        Board::lemma_lay_one(width, height, front, r, c);
        let before = Board::laid(width, height, front);
        Board::lemma_laid(width, height, front);
        let with_mine = before.put(r, c, Place::Mine);
        before.lemma_tally_put(mined(), r, c, Place::Mine);
        assert(before.at(r, c).has_mine() <==> front.contains((r, c)));
        assert(with_mine.wf());
        let lifted = with_mine.lifted(r, c);
        assert forall|i: int, j: int| with_mine.contains(i, j) implies mined()(#[trigger] with_mine.at(i, j)) == mined()(lifted.at(i, j)) by {}
        with_mine.lemma_tally_same(lifted, mined());
    }
}

} // verus!
