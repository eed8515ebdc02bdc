//! What holds of the game's operations taken together.

use vstd::prelude::*;
use crate::cell::Place;
use crate::board::Board;
use crate::game::{GameState, Play};
use crate::tally::mined;

verus! {

impl Place {
    /// Toggling the flag twice gives the position back.
    pub proof fn lemma_toggle_twice(self)
        ensures
            self.toggled().toggled() == self,
    {
    }

    /// No operation of the game takes a mine away or brings one, and none
    /// changes the count that a safe position carries.
    pub proof fn lemma_layout_of_place(self)
        ensures
            self.uncovered().has_mine() == self.has_mine(),
            self.toggled().has_mine() == self.has_mine(),
            self.shown().has_mine() == self.has_mine(),
            self.uncovered().count() == self.count(),
            self.toggled().count() == self.count(),
            self.shown().count() == self.count(),
    {
    }
}

impl Board {
    /// The two grids have the same size, the same mines and the same counts.
    pub open spec fn same_layout(self, other: Board) -> bool {
        &&& self.width == other.width
        &&& self.height == other.height
        &&& forall|r: int, c: int|
            self.contains(r, c) ==> (#[trigger] self.at(r, c)).has_mine() == other.at(r, c).has_mine()
                && self.at(r, c).count() == other.at(r, c).count()
    }

    /// Clicks and the cascade leave the size, the mines and the counts as
    /// they are.
    pub proof fn lemma_layout_kept(self, r: int, c: int)
        requires
            self.wf(),
        ensures
            self.primary_click(r, c).wf(),
            self.secondary_click(r, c).wf(),
            self.cascade(r, c).wf(),
            self.dig(r, c).wf(),
            self.same_layout(self.primary_click(r, c)),
            self.same_layout(self.secondary_click(r, c)),
            self.same_layout(self.cascade(r, c)),
            self.same_layout(self.dig(r, c)),
    {
        let clicked = self.primary_click(r, c);
        assert(self.same_layout(clicked));
        assert(self.same_layout(self.secondary_click(r, c)));
        assert(self.same_layout(self.cascade(r, c)));
        assert(clicked.same_layout(clicked.cascade(r, c)));
        assert forall|i: int, j: int| self.contains(i, j) implies (#[trigger] self.at(i, j)).has_mine() == self.dig(r, c).at(i, j).has_mine()
            && self.at(i, j).count() == self.dig(r, c).at(i, j).count() by {
            assert(clicked.at(i, j).has_mine() == self.at(i, j).has_mine());
            assert(clicked.contains(i, j));
            assert(clicked.at(i, j).has_mine() == clicked.cascade(r, c).at(i, j).has_mine());
        }
    }

    /// Counts that are exact on a grid are exact on every grid with the
    /// same mines and counts.
    pub proof fn lemma_counts_follow_layout(self, other: Board)
        requires
            self.same_layout(other),
            self.counts_exact(),
        ensures
            other.counts_exact(),
    {
        assert forall|i: int, j: int| #[trigger] self.mine_at(i, j) == other.mine_at(i, j) by {
            if self.contains(i, j) {
                assert(self.at(i, j).has_mine() == other.at(i, j).has_mine());
            }
        }
        assert forall|r: int, c: int| other.contains(r, c) && !(#[trigger] other.at(r, c)).has_mine() implies other.at(r, c).count()
            == other.mine_neighbors(r, c) by {
            assert(self.at(r, c).has_mine() == other.at(r, c).has_mine());
            assert(self.mine_neighbors(r, c) == other.mine_neighbors(r, c));
        }
    }

    /// The counts stay exact: once every safe position carries the number
    /// of mines around it, it does so after any click and after the
    /// cascade, whatever was flagged or revealed since.
    pub proof fn lemma_counts_kept(self, r: int, c: int)
        requires
            self.wf(),
            self.counts_exact(),
        ensures
            self.primary_click(r, c).counts_exact(),
            self.secondary_click(r, c).counts_exact(),
            self.cascade(r, c).counts_exact(),
            self.dig(r, c).counts_exact(),
    {
        self.lemma_layout_kept(r, c);
        self.lemma_counts_follow_layout(self.primary_click(r, c));
        self.lemma_counts_follow_layout(self.secondary_click(r, c));
        self.lemma_counts_follow_layout(self.cascade(r, c));
        self.lemma_counts_follow_layout(self.dig(r, c));
    }

    /// What is revealed stays revealed: no click and no cascade changes a
    /// position that shows its count or has exploded.
    pub proof fn lemma_revealed_stays(self, r: int, c: int, i: int, j: int)
        requires
            self.wf(),
            self.contains(i, j),
            self.at(i, j).is_revealed(),
        ensures
            self.primary_click(r, c).at(i, j) == self.at(i, j),
            self.secondary_click(r, c).at(i, j) == self.at(i, j),
            self.cascade(r, c).at(i, j) == self.at(i, j),
            self.dig(r, c).at(i, j) == self.at(i, j),
    {
        let clicked = self.primary_click(r, c);
        assert(clicked.at(i, j) == self.at(i, j));
        assert(clicked.contains(i, j));
        assert(clicked.cascade(r, c).at(i, j) == clicked.at(i, j));
    }

    /// Toggling the flag of a position twice gives the grid back, and so
    /// does toggling it four times.
    pub proof fn lemma_flag_cycle(self, r: int, c: int)
        requires
            self.wf(),
        ensures
            self.secondary_click(r, c).secondary_click(r, c) == self,
            self.secondary_click(r, c).secondary_click(r, c).secondary_click(r, c).secondary_click(r, c) == self,
    {
        let once = self.secondary_click(r, c);
        let twice = once.secondary_click(r, c);
        if self.contains(r, c) {
            self.at(r, c).lemma_toggle_twice();
            assert forall|i: int| 0 <= i < self.height implies #[trigger] twice.cells[i] =~= self.cells[i] by {}
            assert(twice.cells =~= self.cells);
        }
        assert(twice == self);
    }

    /// A grid that holds a mine counts at least one.
    pub proof fn lemma_mine_counted(self, r: int, c: int)
        requires
            self.wf(),
            self.contains(r, c),
            self.at(r, c).has_mine(),
        ensures
            self.mine_count() >= 1,
    {
        self.lemma_tally_put(mined(), r, c, Place::Hidden(0));
    }

    /// An untouched grid with exact counts and no mine is hidden
    /// everywhere and counts zero everywhere.
    pub proof fn lemma_hidden_without_mines(self)
        requires
            self.wf(),
            self.untouched(),
            self.counts_exact(),
            self.mine_count() == 0,
        ensures
            forall|i: int, j: int| self.contains(i, j) ==> #[trigger] self.at(i, j) == Place::Hidden(0),
    {
        assert forall|a: int, b: int| #[trigger] self.mine_at(a, b) == 0 by {
            if self.contains(a, b) && self.at(a, b).has_mine() {
                self.lemma_mine_counted(a, b);
            }
        }
        assert forall|i: int, j: int| self.contains(i, j) implies #[trigger] self.at(i, j) == Place::Hidden(0) by {
            assert(self.mine_at(i, j) == 0);
            assert(self.mine_neighbors(i, j) == 0);
        }
    }

    /// `(i, j)` is at most `d` steps of a king away from `(r, c)`, and at
    /// least one.
    pub open spec fn within(r: int, c: int, i: int, j: int, d: nat) -> bool {
        &&& r - d <= i <= r + d
        &&& c - d <= j <= c + d
        &&& !(i == r && j == c)
    }

    /// On a grid where everything but `(r, c)` is `Hidden(0)` the cascade
    /// around `(r, c)` gets everywhere.
    pub proof fn lemma_flood_all(self, r: int, c: int, i: int, j: int, d: nat)
        requires
            self.wf(),
            self.contains(r, c),
            self.contains(i, j),
            Self::within(r, c, i, j, d),
            forall|a: int, b: int| self.contains(a, b) && !(a == r && b == c) ==> #[trigger] self.at(a, b) == Place::Hidden(0),
        ensures
            self.flooded(r, c, i, j),
        decreases d,
    {
        if Self::adjacent(r, c, i, j) {
            assert(self.reach(r, c, i, j, 0));
        } else {
            let a = if i > r { i - 1 } else if i < r { i + 1 } else { i };
            let b = if j > c { j - 1 } else if j < c { j + 1 } else { j };
            assert(d >= 2);
            self.lemma_flood_all(r, c, a, b, (d - 1) as nat);
            let n = choose|n: nat| self.reach(r, c, a, b, n);
            assert(Self::adjacent(a, b, i, j) && self.reach(r, c, a, b, n) && self.at(a, b) == Place::Hidden(0));
            assert(self.reach(r, c, i, j, n + 1));
        }
    }

    /// On an untouched grid without mines one dig reveals everything: every
    /// position shows a zero.
    pub proof fn lemma_dig_without_mines(self, r: int, c: int)
        requires
            self.wf(),
            self.untouched(),
            self.counts_exact(),
            self.mine_count() == 0,
            self.contains(r, c),
        ensures
            forall|i: int, j: int| self.contains(i, j) ==> #[trigger] self.dig(r, c).at(i, j) == Place::Visible(0),
    {
        self.lemma_hidden_without_mines();
        let clicked = self.primary_click(r, c);
        assert(clicked.at(r, c) == Place::Visible(0));
        assert forall|i: int, j: int| self.contains(i, j) implies #[trigger] self.dig(r, c).at(i, j) == Place::Visible(0) by {
            if !(i == r && j == c) {
                assert(clicked.at(i, j) == self.at(i, j));
                assert forall|a: int, b: int| clicked.contains(a, b) && !(a == r && b == c) implies #[trigger] clicked.at(a, b) == Place::Hidden(0) by {
                    assert(clicked.at(a, b) == self.at(a, b));
                }
                let d = (self.width + self.height) as nat;
                clicked.lemma_flood_all(r, c, i, j, d);
            }
        }
    }

    /// Laying no mines leaves the blank grid.
    pub proof fn lemma_populated_without_mines(self, width: nat, height: nat, protected: (int, int))
        requires
            self.populated(width, height, 0, protected),
        ensures
            self == Self::blank(width, height),
    {
        self.lemma_populated(width, height, 0, protected);
        self.lemma_hidden_without_mines();
        assert forall|i: int| 0 <= i < height implies #[trigger] self.cells[i] =~= Self::blank(width, height).cells[i] by {
            assert forall|j: int| 0 <= j < width implies self.cells[i][j] == Place::Hidden(0) by {
                assert(self.at(i, j) == Place::Hidden(0));
            }
        }
        assert(self.cells =~= Self::blank(width, height).cells);
    }
}

impl Play {
    /// A game that is won or lost stays as it is, whatever is clicked.
    pub proof fn lemma_over_stays_over(self, board: Board, r: int, c: int)
        requires
            self.state == GameState::Won || self.state == GameState::Lost,
        ensures
            self.begun(board) == self,
            self.dug(r, c) == self,
            self.flagged(r, c) == self,
    {
    }

    /// The first dig of a game cannot lose it: the mines are laid away from
    /// the position that is dug.
    pub proof fn lemma_first_dig_is_safe(self, board: Board, r: int, c: int)
        requires
            self.state == GameState::NotStarted,
            self.may_begin(board, r, c),
        ensures
            self.begun(board).dug(r, c).state != GameState::Lost,
    {
        board.lemma_populated(self.board.width, self.board.height, self.num_mines, (r, c));
        if board.contains(r, c) {
            assert(board.at(r, c) is Hidden);
        }
    }
}

} // verus!
