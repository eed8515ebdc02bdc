//! The grid and the operations of the game on it.

use vstd::prelude::*;
use crate::cell::Place;
use crate::board::{Board, coords};

verus! {

/// The grid of a game: `height` rows of `width` positions.
pub struct Minefield {
    field: Vec<Vec<Place>>,
    width: usize,
    height: usize,
}

impl View for Minefield {
    type V = Board;

    closed spec fn view(&self) -> Board {
        Board {
            width: self.width as nat,
            height: self.height as nat,
            cells: Seq::new(self.field@.len(), |r: int| self.field@[r]@),
        }
    }
}

impl Minefield {
    /// The rows and columns are as many as the dimensions say, and the
    /// number of positions fits the machine's word.
    pub closed spec fn wf(&self) -> bool {
        &&& self.field@.len() == self.height
        &&& forall|r: int| 0 <= r < self.field@.len() ==> (#[trigger] self.field@[r])@.len() == self.width
        &&& self.width * self.height <= usize::MAX
    }

    /// A well-formed grid has a well-formed model whose positions can be counted.
    pub proof fn lemma_wf(&self)
        requires
            self.wf(),
        ensures
            self@.wf(),
            self@.width * self@.height <= usize::MAX,
    {
    }

    /// A grid of the given size on which every position is `Hidden(0)`.
    pub fn new(width: usize, height: usize) -> (res: Self)
        requires
            width * height <= usize::MAX,
        ensures
            res.wf(),
            res@ == Board::blank(width as nat, height as nat),
    {
        let mut field: Vec<Vec<Place>> = Vec::new();
        let mut r: usize = 0;
        while r < height
            invariant
                r <= height,
                field@.len() == r,
                forall|i: int| 0 <= i < r ==> (#[trigger] field@[i])@ == Seq::new(width as nat, |c: int| Place::Hidden(0)),
            decreases height - r,
        {
            let mut row: Vec<Place> = Vec::new();
            let mut c: usize = 0;
            while c < width
                invariant
                    c <= width,
                    row@.len() == c,
                    forall|j: int| 0 <= j < c ==> row@[j] == Place::Hidden(0),
                decreases width - c,
            {
                row.push(Place::Hidden(0));
                c += 1;
            }
            assert(row@ =~= Seq::new(width as nat, |c: int| Place::Hidden(0)));
            field.push(row);
            r += 1;
        }
        let res = Minefield { field, width, height };
        assert(res@.cells =~= Board::blank(width as nat, height as nat).cells);
        res
    }

    /// The number of columns.
    pub fn width(&self) -> (res: usize)
        ensures
            res == self@.width,
    {
        self.width
    }

    /// The number of rows.
    pub fn height(&self) -> (res: usize)
        ensures
            res == self@.height,
    {
        self.height
    }

    /// The state of the position `(r, c)`, or nothing outside the grid.
    pub fn get(&self, r: usize, c: usize) -> (res: Option<&Place>)
        requires
            self.wf(),
        ensures
            match res {
                Some(p) => self@.get(r as int, c as int) == Some(*p),
                None => self@.get(r as int, c as int).is_none(),
            },
    {
        if r < self.field.len() {
            let row = &self.field[r];
            if c < row.len() {
                return Some(&row[c]);
            }
        }
        None
    }

    /// The position `(r, c)` for writing, or nothing outside the grid.
    pub(crate) fn get_mut(&mut self, r: usize, c: usize) -> (res: Option<&mut Place>)
        requires
            old(self).wf(),
        ensures
            match res {
                Some(p) => {
                    &&& old(self)@.contains(r as int, c as int)
                    &&& *p == old(self)@.at(r as int, c as int)
                    &&& final(self)@ =~~= old(self)@.put(r as int, c as int, *final(p))
                    &&& final(self).wf()
                },
                None => {
                    &&& !old(self)@.contains(r as int, c as int)
                    &&& final(self)@ == old(self)@
                    &&& final(self).wf()
                },
            },
    {
        if r < self.field.len() {
            if c < self.field[r].len() {
                let place = &mut self.field[r][c];
                return Some(place);
            }
        }
        None
    }

    /// Reveals the position `(r, c)` and answers its new state; outside the
    /// grid nothing changes and nothing is answered.
    pub fn primary_click(&mut self, r: usize, c: usize) -> (res: Option<&Place>)
        requires
            old(self).wf(),
        ensures
            final(self).wf(),
            final(self)@ == old(self)@.primary_click(r as int, c as int),
            match res {
                Some(p) => final(self)@.get(r as int, c as int) == Some(*p),
                None => final(self)@.get(r as int, c as int).is_none(),
            },
    {
        if let Some(place) = self.get_mut(r, c) {
            *place = place.uncover();
            return Some(place);
        }
        None
    }

    /// Toggles the flag of the position `(r, c)` and answers its new state;
    /// outside the grid nothing changes and nothing is answered.
    pub fn secondary_click(&mut self, r: usize, c: usize) -> (res: Option<&Place>)
        requires
            old(self).wf(),
        ensures
            final(self).wf(),
            final(self)@ == old(self)@.secondary_click(r as int, c as int),
            match res {
                Some(p) => final(self)@.get(r as int, c as int) == Some(*p),
                None => final(self)@.get(r as int, c as int).is_none(),
            },
    {
        if let Some(place) = self.get_mut(r, c) {
            *place = place.toggle_flag();
            return Some(place);
        }
        None
    }

    /// Puts every position back to `Hidden(0)`; the dimensions stay.
    pub fn reset(&mut self)
        requires
            old(self).wf(),
        ensures
            final(self).wf(),
            final(self)@ == Board::blank(old(self)@.width, old(self)@.height),
    {
        let mut r: usize = 0;
        while r < self.height
            invariant
                self.wf(),
                self.width == old(self).width,
                self.height == old(self).height,
                r <= self.height,
                forall|i: int, j: int| 0 <= i < r && 0 <= j < self.width ==> #[trigger] self.field@[i]@[j] == Place::Hidden(0),
            decreases self.height - r,
        {
            let mut c: usize = 0;
            while c < self.width
                invariant
                    self.wf(),
                    self.width == old(self).width,
                    self.height == old(self).height,
                    r < self.height,
                    c <= self.width,
                    forall|i: int, j: int| 0 <= i < r && 0 <= j < self.width ==> #[trigger] self.field@[i]@[j] == Place::Hidden(0),
                    forall|j: int| 0 <= j < c ==> #[trigger] self.field@[r as int]@[j] == Place::Hidden(0),
                decreases self.width - c,
            {
                self.field[r][c] = Place::Hidden(0);
                c += 1;
            }
            r += 1;
        }
        assert(self@ =~~= Board::blank(old(self)@.width, old(self)@.height));
    }

    /// Whether the game is solved: no position holds an unflagged or
    /// exploded mine, and no safe position carries a flag.
    pub fn is_solved(&self) -> (res: bool)
        requires
            self.wf(),
        ensures
            res == self@.is_solved(),
    {
        let mut r: usize = 0;
        while r < self.height
            invariant
                self.wf(),
                r <= self.height,
                forall|i: int, j: int| 0 <= i < r && 0 <= j < self.width ==> !(#[trigger] self@.at(i, j)).blocks_solution(),
            decreases self.height - r,
        {
            let mut c: usize = 0;
            while c < self.width
                invariant
                    self.wf(),
                    r < self.height,
                    c <= self.width,
                    forall|i: int, j: int| 0 <= i < r && 0 <= j < self.width ==> !(#[trigger] self@.at(i, j)).blocks_solution(),
                    forall|j: int| 0 <= j < c ==> !(#[trigger] self@.at(r as int, j)).blocks_solution(),
                decreases self.width - c,
            {
                match self.field[r][c] {
                    Place::Boom => {
                        assert(self@.at(r as int, c as int).blocks_solution());
                        return false;
                    },
                    Place::Mine => {
                        assert(self@.at(r as int, c as int).blocks_solution());
                        return false;
                    },
                    Place::IncorrectlyMarked(_) => {
                        assert(self@.at(r as int, c as int).blocks_solution());
                        return false;
                    },
                    _ => (),
                }
                c += 1;
            }
            r += 1;
        }
        true
    }

    /// The positions of the grid around `(r, c)`, at most eight: the row
    /// above, the same row, the row below, each from left to right.
    pub fn neighbors(&self, r: usize, c: usize) -> (res: Vec<(usize, usize)>)
        requires
            self.wf(),
        ensures
            coords(res@) == self@.neighbors(r as int, c as int),
    {
        let mut neighbor_vec: Vec<(usize, usize)> = Vec::new();
        let ghost above = self@.span(r - 1, c as int);
        let ghost beside = self@.pick(r as int, c - 1) + self@.pick(r as int, c + 1);
        let ghost below = self@.span(r + 1, c as int);
        let left = c > 0 && c - 1 < self.width;
        let middle = c < self.width;
        let right = self.width > 0 && c < self.width - 1;
        if r > 0 && r - 1 < self.height {
            if left {
                neighbor_vec.push((r - 1, c - 1));
            }
            if middle {
                neighbor_vec.push((r - 1, c));
            }
            if right {
                neighbor_vec.push((r - 1, c + 1));
            }
        }
        assert(coords(neighbor_vec@) =~= above);
        let ghost first = neighbor_vec@;
        if r < self.height {
            if left {
                neighbor_vec.push((r, c - 1));
            }
            if right {
                neighbor_vec.push((r, c + 1));
            }
        }
        assert(coords(neighbor_vec@) =~= coords(first) + beside);
        let ghost second = neighbor_vec@;
        if self.height > 0 && r < self.height - 1 {
            if left {
                neighbor_vec.push((r + 1, c - 1));
            }
            if middle {
                neighbor_vec.push((r + 1, c));
            }
            if right {
                neighbor_vec.push((r + 1, c + 1));
            }
        }
        assert(coords(neighbor_vec@) =~= coords(second) + below);
        assert(coords(neighbor_vec@) =~= self@.neighbors(r as int, c as int));
        neighbor_vec
    }
}

} // verus!
