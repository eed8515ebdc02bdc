//! Counting the positions of a grid that a predicate holds of.

use vstd::prelude::*;
use crate::cell::Place;
use crate::board::Board;

verus! {

/// Holds of the positions that are hidden and safe.
pub open spec fn hidden() -> spec_fn(Place) -> bool {
    |p: Place| p is Hidden
}

/// Holds of the positions that hold a mine.
pub open spec fn mined() -> spec_fn(Place) -> bool {
    |p: Place| p.has_mine()
}

/// Of how many positions of the row `f` holds.
pub open spec fn tally_row(row: Seq<Place>, f: spec_fn(Place) -> bool) -> nat
    decreases row.len(),
{
    if row.len() == 0 {
        0
    } else {
        tally_row(row.drop_last(), f) + if f(row.last()) { 1nat } else { 0nat }
    }
}

/// Of how many positions of the rows `f` holds.
pub open spec fn tally_rows(rows: Seq<Seq<Place>>, f: spec_fn(Place) -> bool) -> nat
    decreases rows.len(),
{
    if rows.len() == 0 {
        0
    } else {
        tally_rows(rows.drop_last(), f) + tally_row(rows.last(), f)
    }
}

/// Writing one position of a row takes the old state out of the count and
/// puts the new one in.
pub proof fn lemma_tally_row_update(row: Seq<Place>, f: spec_fn(Place) -> bool, c: int, p: Place)
    requires
        0 <= c < row.len(),
    ensures
        tally_row(row.update(c, p), f) + (if f(row[c]) { 1nat } else { 0nat })
            == tally_row(row, f) + (if f(p) { 1nat } else { 0nat }),
    decreases row.len(),
{
    let after = row.update(c, p);
    if c == row.len() - 1 {
        assert(after.drop_last() =~= row.drop_last());
    } else {
        assert(after.drop_last() =~= row.drop_last().update(c, p));
        lemma_tally_row_update(row.drop_last(), f, c, p);
    }
}

/// Replacing one row changes the count by the difference of the two rows.
pub proof fn lemma_tally_rows_update(rows: Seq<Seq<Place>>, f: spec_fn(Place) -> bool, r: int, row: Seq<Place>)
    requires
        0 <= r < rows.len(),
    ensures
        tally_rows(rows.update(r, row), f) + tally_row(rows[r], f)
            == tally_rows(rows, f) + tally_row(row, f),
    decreases rows.len(),
{
    let after = rows.update(r, row);
    if r == rows.len() - 1 {
        assert(after.drop_last() =~= rows.drop_last());
    } else {
        assert(after.drop_last() =~= rows.drop_last().update(r, row));
        lemma_tally_rows_update(rows.drop_last(), f, r, row);
    }
}

/// Rows on which `f` holds at the same places have the same count.
pub proof fn lemma_tally_row_same(a: Seq<Place>, b: Seq<Place>, f: spec_fn(Place) -> bool)
    requires
        a.len() == b.len(),
        forall|c: int| 0 <= c < a.len() ==> f(#[trigger] a[c]) == f(b[c]),
    ensures
        tally_row(a, f) == tally_row(b, f),
    decreases a.len(),
{
    if a.len() > 0 {
        assert(f(a[a.len() - 1]) == f(b[a.len() - 1]));
        assert forall|c: int| 0 <= c < a.drop_last().len() implies f(#[trigger] a.drop_last()[c]) == f(b.drop_last()[c]) by {
            assert(f(a[c]) == f(b[c]));
        }
        lemma_tally_row_same(a.drop_last(), b.drop_last(), f);
    }
}

/// Grids whose rows have the same counts have the same count.
pub proof fn lemma_tally_rows_same(a: Seq<Seq<Place>>, b: Seq<Seq<Place>>, f: spec_fn(Place) -> bool)
    requires
        a.len() == b.len(),
        forall|r: int| 0 <= r < a.len() ==> tally_row(#[trigger] a[r], f) == tally_row(b[r], f),
    ensures
        tally_rows(a, f) == tally_rows(b, f),
    decreases a.len(),
{
    if a.len() > 0 {
        assert(tally_row(a[a.len() - 1], f) == tally_row(b[a.len() - 1], f));
        assert forall|r: int| 0 <= r < a.drop_last().len() implies tally_row(#[trigger] a.drop_last()[r], f) == tally_row(b.drop_last()[r], f) by {
            assert(tally_row(a[r], f) == tally_row(b[r], f));
        }
        lemma_tally_rows_same(a.drop_last(), b.drop_last(), f);
    }
}

/// A row on which `f` holds nowhere counts nothing.
pub proof fn lemma_tally_row_none(row: Seq<Place>, f: spec_fn(Place) -> bool)
    requires
        forall|c: int| 0 <= c < row.len() ==> !f(#[trigger] row[c]),
    ensures
        tally_row(row, f) == 0,
    decreases row.len(),
{
    if row.len() > 0 {
        assert(!f(row[row.len() - 1]));
        assert forall|c: int| 0 <= c < row.drop_last().len() implies !f(#[trigger] row.drop_last()[c]) by {
            assert(!f(row[c]));
        }
        lemma_tally_row_none(row.drop_last(), f);
    }
}

/// Rows that each count nothing count nothing together.
pub proof fn lemma_tally_rows_none(rows: Seq<Seq<Place>>, f: spec_fn(Place) -> bool)
    requires
        forall|r: int| 0 <= r < rows.len() ==> tally_row(#[trigger] rows[r], f) == 0,
    ensures
        tally_rows(rows, f) == 0,
    decreases rows.len(),
{
    if rows.len() > 0 {
        assert(tally_row(rows[rows.len() - 1], f) == 0);
        assert forall|r: int| 0 <= r < rows.drop_last().len() implies tally_row(#[trigger] rows.drop_last()[r], f) == 0 by {
            assert(tally_row(rows[r], f) == 0);
        }
        lemma_tally_rows_none(rows.drop_last(), f);
    }
}

impl Board {
    /// Of how many positions of the grid `f` holds.
    pub open spec fn tally(self, f: spec_fn(Place) -> bool) -> nat {
        tally_rows(self.cells, f)
    }

    /// How many positions are hidden and safe.
    pub open spec fn hidden_count(self) -> nat {
        self.tally(hidden())
    }

    /// How many positions hold a mine.
    pub open spec fn mine_count(self) -> nat {
        self.tally(mined())
    }

    /// Writing one position takes its old state out of the count and puts
    /// the new one in.
    pub proof fn lemma_tally_put(self, f: spec_fn(Place) -> bool, r: int, c: int, p: Place)
        requires
            self.wf(),
            self.contains(r, c),
        ensures
            self.put(r, c, p).tally(f) + (if f(self.at(r, c)) { 1nat } else { 0nat })
                == self.tally(f) + (if f(p) { 1nat } else { 0nat }),
    {
        lemma_tally_row_update(self.cells[r], f, c, p);
        lemma_tally_rows_update(self.cells, f, r, self.cells[r].update(c, p));
    }

    /// Grids of one size on which `f` holds at the same places have the
    /// same count.
    pub proof fn lemma_tally_same(self, other: Board, f: spec_fn(Place) -> bool)
        requires
            self.wf(),
            other.wf(),
            self.width == other.width,
            self.height == other.height,
            forall|r: int, c: int| self.contains(r, c) ==> f(#[trigger] self.at(r, c)) == f(other.at(r, c)),
        ensures
            self.tally(f) == other.tally(f),
    {
        assert forall|r: int| 0 <= r < self.cells.len() implies tally_row(#[trigger] self.cells[r], f) == tally_row(other.cells[r], f) by {
            assert forall|c: int| 0 <= c < self.cells[r].len() implies f(#[trigger] self.cells[r][c]) == f(other.cells[r][c]) by {
                assert(f(self.at(r, c)) == f(other.at(r, c)));
            }
            lemma_tally_row_same(self.cells[r], other.cells[r], f);
        }
        lemma_tally_rows_same(self.cells, other.cells, f);
    }

    /// A grid on which `f` holds nowhere counts nothing.
    pub proof fn lemma_tally_none(self, f: spec_fn(Place) -> bool)
        requires
            self.wf(),
            forall|r: int, c: int| self.contains(r, c) ==> !f(#[trigger] self.at(r, c)),
        ensures
            self.tally(f) == 0,
    {
        assert forall|r: int| 0 <= r < self.cells.len() implies tally_row(#[trigger] self.cells[r], f) == 0 by {
            assert forall|c: int| 0 <= c < self.cells[r].len() implies !f(#[trigger] self.cells[r][c]) by {
                assert(!f(self.at(r, c)));
            }
            lemma_tally_row_none(self.cells[r], f);
        }
        lemma_tally_rows_none(self.cells, f);
    }
}

} // verus!
