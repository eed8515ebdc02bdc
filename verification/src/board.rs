//! The mathematical model of the grid.

use vstd::prelude::*;
use crate::cell::Place;

verus! {

/// A grid of `height` rows of `width` positions each.
#[verifier::ext_equal]
pub struct Board {
    pub width: nat,
    pub height: nat,
    pub cells: Seq<Seq<Place>>,
}

impl Board {
    /// There are `height` rows and each has `width` positions.
    pub open spec fn wf(self) -> bool {
        &&& self.cells.len() == self.height
        &&& forall|r: int| 0 <= r < self.height ==> (#[trigger] self.cells[r]).len() == self.width
    }

    /// `(r, c)` is a position of the grid.
    pub open spec fn contains(self, r: int, c: int) -> bool {
        0 <= r < self.height && 0 <= c < self.width
    }

    /// What the position `(r, c)` holds.
    pub open spec fn at(self, r: int, c: int) -> Place {
        self.cells[r][c]
    }

    /// What a probe of `(r, c)` answers: the position's state, or nothing
    /// outside the grid.
    pub open spec fn get(self, r: int, c: int) -> Option<Place> {
        if self.contains(r, c) {
            Some(self.at(r, c))
        } else {
            None
        }
    }

    /// The grid with `p` at `(r, c)`.
    pub open spec fn put(self, r: int, c: int, p: Place) -> Board {
        Board { cells: self.cells.update(r, self.cells[r].update(c, p)), ..self }
    }

    /// The grid of the given size on which every position is `Hidden(0)`.
    pub open spec fn blank(width: nat, height: nat) -> Board {
        Board {
            width,
            height,
            cells: Seq::new(height, |r: int| Seq::new(width, |c: int| Place::Hidden(0))),
        }
    }

    /// The grid after a reveal of `(r, c)`.
    pub open spec fn primary_click(self, r: int, c: int) -> Board {
        if self.contains(r, c) {
            self.put(r, c, self.at(r, c).uncovered())
        } else {
            self
        }
    }

    /// The grid after the flag of `(r, c)` was toggled.
    pub open spec fn secondary_click(self, r: int, c: int) -> Board {
        if self.contains(r, c) {
            self.put(r, c, self.at(r, c).toggled())
        } else {
            self
        }
    }

    /// No position holds an unflagged or exploded mine or a flag on a safe
    /// position.
    pub open spec fn is_solved(self) -> bool {
        forall|r: int, c: int| self.contains(r, c) ==> !(#[trigger] self.at(r, c)).blocks_solution()
    }

    /// `(i, j)` is one of the eight positions around `(r, c)`.
    pub open spec fn adjacent(r: int, c: int, i: int, j: int) -> bool {
        &&& r - 1 <= i <= r + 1
        &&& c - 1 <= j <= c + 1
        &&& !(i == r && j == c)
    }

    /// The position `(i, j)` alone if it lies on the grid, else nothing.
    pub open spec fn pick(self, i: int, j: int) -> Seq<(int, int)> {
        if self.contains(i, j) {
            seq![(i, j)]
        } else {
            Seq::empty()
        }
    }

    /// The positions of the grid in row `r` at the columns `c - 1`, `c`, `c + 1`.
    pub open spec fn span(self, r: int, c: int) -> Seq<(int, int)> {
        self.pick(r, c - 1) + self.pick(r, c) + self.pick(r, c + 1)
    }

    /// The positions of the grid around `(r, c)`: row above, same row, row
    /// below, each from left to right.
    pub open spec fn neighbors(self, r: int, c: int) -> Seq<(int, int)> {
        self.span(r - 1, c) + (self.pick(r, c - 1) + self.pick(r, c + 1)) + self.span(r + 1, c)
    }

    /// A row's span holds exactly the grid's positions of that row in the
    /// three columns, each once.
    pub proof fn lemma_span(self, r: int, c: int)
        ensures
            forall|i: int, j: int| #[trigger] self.span(r, c).contains((i, j)) <==> (i == r && c - 1 <= j <= c + 1 && self.contains(i, j)),
            self.span(r, c).no_duplicates(),
            self.span(r, c).len() <= 3,
    {
        let s = self.span(r, c);
        assert forall|i: int, j: int| (i == r && c - 1 <= j <= c + 1 && self.contains(i, j)) implies #[trigger] s.contains((i, j)) by {
            let a = self.pick(r, c - 1);
            let b = self.pick(r, c);
            if j == c - 1 {
                assert(s[0] == (i, j));
            } else if j == c {
                assert(s[a.len() as int] == (i, j));
            } else {
                assert(s[(a.len() + b.len()) as int] == (i, j));
            }
        }
    }

    /// The neighbours of `(r, c)` are exactly the positions of the grid
    /// that are adjacent to it, each listed once.
    pub proof fn lemma_neighbors(self, r: int, c: int)
        ensures
            forall|i: int, j: int| #[trigger] self.neighbors(r, c).contains((i, j)) <==> (self.contains(i, j) && Self::adjacent(r, c, i, j)),
            self.neighbors(r, c).no_duplicates(),
            self.neighbors(r, c).len() <= 8,
    {
        self.lemma_span(r - 1, c);
        self.lemma_span(r + 1, c);
        let up = self.span(r - 1, c);
        let mid = self.pick(r, c - 1) + self.pick(r, c + 1);
        let down = self.span(r + 1, c);
        let s = self.neighbors(r, c);
        assert forall|i: int, j: int| #[trigger] mid.contains((i, j)) <==> (i == r && (j == c - 1 || j == c + 1) && self.contains(i, j)) by {
            if i == r && (j == c - 1 || j == c + 1) && self.contains(i, j) {
                if j == c - 1 {
                    assert(mid[0] == (i, j));
                } else {
                    assert(mid[self.pick(r, c - 1).len() as int] == (i, j));
                }
            }
        }
        assert(mid.no_duplicates());
        assert forall|i: int, j: int| #[trigger] s.contains((i, j)) <==> (up.contains((i, j)) || mid.contains((i, j)) || down.contains((i, j))) by {
            if up.contains((i, j)) {
                let k = choose|k: int| 0 <= k < up.len() && up[k] == (i, j);
                assert(s[k] == (i, j));
            }
            if mid.contains((i, j)) {
                let k = choose|k: int| 0 <= k < mid.len() && mid[k] == (i, j);
                assert(s[up.len() + k] == (i, j));
            }
            if down.contains((i, j)) {
                let k = choose|k: int| 0 <= k < down.len() && down[k] == (i, j);
                assert(s[up.len() + mid.len() + k] == (i, j));
            }
            if s.contains((i, j)) {
                let k = choose|k: int| 0 <= k < s.len() && s[k] == (i, j);
                if k < up.len() {
                    assert(up[k] == (i, j));
                } else if k < up.len() + mid.len() {
                    assert(mid[k - up.len()] == (i, j));
                } else {
                    assert(down[k - up.len() - mid.len()] == (i, j));
                }
            }
        }
        assert forall|a: int, b: int| 0 <= a < s.len() && 0 <= b < s.len() && a != b implies s[a] != s[b] by {
            if a < up.len() {
                assert(up.contains(up[a]));
            } else if a < up.len() + mid.len() {
                assert(mid.contains(mid[a - up.len()]));
            } else {
                assert(down.contains(down[a - up.len() - mid.len()]));
            }
            if b < up.len() {
                assert(up.contains(up[b]));
            } else if b < up.len() + mid.len() {
                assert(mid.contains(mid[b - up.len()]));
            } else {
                assert(down.contains(down[b - up.len() - mid.len()]));
            }
        }
    }
}

/// Machine coordinates read as mathematical ones.
pub open spec fn coords(v: Seq<(usize, usize)>) -> Seq<(int, int)> {
    v.map_values(|p: (usize, usize)| (p.0 as int, p.1 as int))
}

} // verus!
