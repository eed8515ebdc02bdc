//! The cascading reveal: from a safe position without mines around it the
//! reveal spreads to everything that can be reached through such positions.

use vstd::prelude::*;
use crate::cell::Place;
use crate::board::{Board, coords};
use crate::field::Minefield;
use crate::tally::hidden;

verus! {

impl Board {
    /// `(i, j)` is reached from `(r, c)` in at most `n` further steps: it is
    /// next to `(r, c)`, or next to a reached position that is `Hidden(0)`.
    pub open spec fn reach(self, r: int, c: int, i: int, j: int, n: nat) -> bool
        decreases n,
    {
        &&& self.contains(i, j)
        &&& if n == 0 {
            Self::adjacent(r, c, i, j)
        } else {
            ||| self.reach(r, c, i, j, (n - 1) as nat)
            ||| exists|a: int, b: int|
                #[trigger] Self::adjacent(a, b, i, j) && self.reach(r, c, a, b, (n - 1) as nat)
                    && self.at(a, b) == Place::Hidden(0)
        }
    }

    /// The cascade that starts around `(r, c)` gets to `(i, j)`.
    pub open spec fn flooded(self, r: int, c: int, i: int, j: int) -> bool {
        exists|n: nat| self.reach(r, c, i, j, n)
    }

    /// The grid after the cascade around `(r, c)`: every hidden safe
    /// position that the cascade gets to shows its count.
    pub open spec fn cascade(self, r: int, c: int) -> Board {
        Board {
            cells: Seq::new(
                self.height,
                |i: int|
                    Seq::new(
                        self.width,
                        |j: int|
                            if self.flooded(r, c, i, j) {
                                self.at(i, j).shown()
                            } else {
                                self.at(i, j)
                            },
                    ),
            ),
            ..self
        }
    }

    /// The grid after the player dug at `(r, c)`: the position is revealed,
    /// and where it shows a zero the cascade follows.
    pub open spec fn dig(self, r: int, c: int) -> Board {
        let clicked = self.primary_click(r, c);
        if clicked.get(r, c) == Some(Place::Visible(0)) {
            clicked.cascade(r, c)
        } else {
            clicked
        }
    }

    /// `(i, j)` needs no further work: it is not hidden, or it waits in the queue.
    pub open spec fn served(self, queue: Seq<(int, int)>, i: int, j: int) -> bool {
        !(self.at(i, j) is Hidden) || queue.contains((i, j))
    }

    /// `(a, b)` was revealed by the cascade and passes it on.
    pub open spec fn spreads(self, start: Board, a: int, b: int) -> bool {
        start.at(a, b) == Place::Hidden(0) && self.at(a, b) == Place::Visible(0)
    }

    /// What holds while the cascade around `(r, c)` works on `start`, with
    /// `self` the grid so far and `queue` the positions still to visit.
    pub open spec fn cascading(self, start: Board, queue: Seq<(int, int)>, r: int, c: int) -> bool {
        &&& start.wf()
        &&& self.wf()
        &&& self.width == start.width
        &&& self.height == start.height
        &&& forall|i: int, j: int|
            start.contains(i, j) ==> #[trigger] self.at(i, j) == start.at(i, j) || (start.flooded(r, c, i, j)
                && self.at(i, j) == start.at(i, j).shown())
        &&& forall|k: int|
            0 <= k < queue.len() ==> start.flooded(r, c, (#[trigger] queue[k]).0, queue[k].1)
        &&& forall|i: int, j: int|
            start.contains(i, j) && Self::adjacent(r, c, i, j) ==> #[trigger] self.served(queue, i, j)
        &&& forall|a: int, b: int|
            start.contains(a, b) && #[trigger] self.spreads(start, a, b) ==> forall|i: int, j: int|
                start.contains(i, j) && Self::adjacent(a, b, i, j) ==> #[trigger] self.served(queue, i, j)
    }

    /// At the start the queue holds the neighbours of `(r, c)`.
    pub proof fn lemma_cascade_begin(self, r: int, c: int)
        requires
            self.wf(),
        ensures
            self.cascading(self, self.neighbors(r, c), r, c),
    {
        let queue = self.neighbors(r, c);
        self.lemma_neighbors(r, c);
        assert forall|k: int| 0 <= k < queue.len() implies self.flooded(r, c, (#[trigger] queue[k]).0, queue[k].1) by {
            assert(queue.contains(queue[k]));
            assert(self.reach(r, c, queue[k].0, queue[k].1, 0));
        }
    }

    /// A position that is not hidden leaves the queue and nothing else changes.
    pub proof fn lemma_cascade_skip(self, start: Board, queue: Seq<(int, int)>, r: int, c: int)
        requires
            self.cascading(start, queue, r, c),
            queue.len() > 0,
            !(self.at(queue.last().0, queue.last().1) is Hidden),
        ensures
            self.cascading(start, queue.drop_last(), r, c),
    {
        let rest = queue.drop_last();
        assert forall|i: int, j: int| self.served(queue, i, j) implies self.served(rest, i, j) by {
            if self.at(i, j) is Hidden {
                let k = choose|k: int| 0 <= k < queue.len() && queue[k] == (i, j);
                assert(rest[k] == (i, j));
            }
        }
        assert forall|k: int| 0 <= k < rest.len() implies start.flooded(r, c, (#[trigger] rest[k]).0, rest[k].1) by {
            assert(rest[k] == queue[k]);
        }
    }

    /// A hidden position leaves the queue and shows its count; if the count
    /// is zero its neighbours join the queue. One position fewer is hidden.
    pub proof fn lemma_cascade_show(self, start: Board, queue: Seq<(int, int)>, r: int, c: int, x: usize)
        requires
            self.cascading(start, queue, r, c),
            queue.len() > 0,
            self.at(queue.last().0, queue.last().1) == Place::Hidden(x),
        ensures
            ({
                let (i, j) = queue.last();
                let next = self.put(i, j, Place::Visible(x));
                let rest = if x == 0 {
                    queue.drop_last() + self.neighbors(i, j)
                } else {
                    queue.drop_last()
                };
                &&& next.cascading(start, rest, r, c)
                &&& next.hidden_count() + 1 == self.hidden_count()
            }),
    {
        let (i, j) = queue.last();
        let next = self.put(i, j, Place::Visible(x));
        let more = self.neighbors(i, j);
        let rest = if x == 0 {
            queue.drop_last() + more
        } else {
            queue.drop_last()
        };
        assert(start.flooded(r, c, queue[queue.len() - 1].0, queue[queue.len() - 1].1));
        assert(start.contains(i, j)) by {
            let n = choose|n: nat| start.reach(r, c, i, j, n);
            assert(start.reach(r, c, i, j, n));
        }
        self.lemma_tally_put(hidden(), i, j, Place::Visible(x));
        self.lemma_neighbors(i, j);
        assert(self.at(i, j) == start.at(i, j));
        assert(next.wf());
        assert forall|a: int, b: int| start.contains(a, b) implies #[trigger] next.at(a, b) == (if a == i && b == j {
            Place::Visible(x)
        } else {
            self.at(a, b)
        }) by {}
        assert forall|a: int, b: int| self.served(queue, a, b) && start.contains(a, b) implies next.served(rest, a, b) by {
            if next.at(a, b) is Hidden {
                assert(!(a == i && b == j));
                assert(self.at(a, b) is Hidden);
                let k = choose|k: int| 0 <= k < queue.len() && queue[k] == (a, b);
                assert(k < queue.len() - 1);
                assert(rest[k] == (a, b));
            }
        }
        assert forall|k: int| 0 <= k < rest.len() implies start.flooded(r, c, (#[trigger] rest[k]).0, rest[k].1) by {
            if k < queue.len() - 1 {
                assert(rest[k] == queue[k]);
            } else {
                let t = k - (queue.len() - 1);
                let (p, q) = more[t];
                assert(rest[k] == (p, q));
                assert(more.contains((p, q)));
                let n = choose|n: nat| start.reach(r, c, i, j, n);
                assert(Self::adjacent(i, j, p, q) && start.reach(r, c, i, j, n) && start.at(i, j) == Place::Hidden(0));
                assert(start.reach(r, c, p, q, n + 1));
            }
        }
        assert forall|a: int, b: int| start.contains(a, b) && #[trigger] next.spreads(start, a, b) implies forall|p: int, q: int|
            start.contains(p, q) && Self::adjacent(a, b, p, q) ==> #[trigger] next.served(rest, p, q) by {
            assert forall|p: int, q: int| start.contains(p, q) && Self::adjacent(a, b, p, q) implies #[trigger] next.served(rest, p, q) by {
                if a == i && b == j {
                    assert(x == 0);
                    assert(more.contains((p, q)));
                    let t = choose|t: int| 0 <= t < more.len() && more[t] == (p, q);
                    assert(rest[queue.len() - 1 + t] == (p, q));
                } else {
                    assert(self.spreads(start, a, b));
                    assert(self.served(queue, p, q));
                }
            }
        }
        assert forall|a: int, b: int| start.contains(a, b) && Self::adjacent(r, c, a, b) implies #[trigger] next.served(rest, a, b) by {
            assert(self.served(queue, a, b));
        }
    }

    /// With the queue empty nothing that the cascade gets to is hidden.
    pub proof fn lemma_cascade_reached(self, start: Board, r: int, c: int, i: int, j: int, n: nat)
        requires
            self.cascading(start, Seq::empty(), r, c),
            start.reach(r, c, i, j, n),
        ensures
            !(self.at(i, j) is Hidden),
        decreases n,
    {
        let none = Seq::<(int, int)>::empty();
        if n == 0 {
            assert(self.served(none, i, j));
        } else if start.reach(r, c, i, j, (n - 1) as nat) {
            self.lemma_cascade_reached(start, r, c, i, j, (n - 1) as nat);
        } else {
            let (a, b) = choose|a: int, b: int|
                #[trigger] Self::adjacent(a, b, i, j) && start.reach(r, c, a, b, (n - 1) as nat)
                    && start.at(a, b) == Place::Hidden(0);
            self.lemma_cascade_reached(start, r, c, a, b, (n - 1) as nat);
            assert(self.at(a, b) == start.at(a, b) || self.at(a, b) == start.at(a, b).shown());
            assert(self.spreads(start, a, b));
            assert(self.served(none, i, j));
        }
    }

    /// With the queue empty the grid is the one that the cascade describes.
    pub proof fn lemma_cascade_end(self, start: Board, r: int, c: int)
        requires
            self.cascading(start, Seq::empty(), r, c),
        ensures
            self == start.cascade(r, c),
    {
        let goal = start.cascade(r, c);
        assert forall|i: int, j: int| start.contains(i, j) implies self.cells[i][j] == goal.cells[i][j] by {
            assert(self.at(i, j) == start.at(i, j) || (start.flooded(r, c, i, j) && self.at(i, j) == start.at(i, j).shown()));
            if start.flooded(r, c, i, j) {
                let n = choose|n: nat| start.reach(r, c, i, j, n);
                self.lemma_cascade_reached(start, r, c, i, j, n);
            }
        }
        assert forall|i: int| 0 <= i < self.height implies #[trigger] self.cells[i] =~= goal.cells[i] by {
            assert forall|j: int| 0 <= j < self.width implies self.cells[i][j] == goal.cells[i][j] by {
                assert(start.contains(i, j));
            }
        }
        assert(self.cells =~= goal.cells);
    }
}

impl Minefield {
    /// Runs the cascade around `(r, c)`: its neighbours are visited, each
    /// hidden safe position among them is revealed, and the neighbours of
    /// each position that shows a zero are visited in turn.
    pub fn cascade(&mut self, r: usize, c: usize)
        requires
            old(self).wf(),
        ensures
            final(self).wf(),
            final(self)@ == old(self)@.cascade(r as int, c as int),
    {
        let ghost start = self@;
        let mut queue = self.neighbors(r, c);
        proof {
            self.lemma_wf();
            start.lemma_cascade_begin(r as int, c as int);
        }
        while queue.len() > 0
            invariant
                self.wf(),
                self@.cascading(start, coords(queue@), r as int, c as int),
            decreases self@.hidden_count(), queue@.len(),
        {
            let ghost before = self@;
            let ghost pending = coords(queue@);
            let (i, j) = queue.pop().unwrap();
            assert(coords(queue@) =~= pending.drop_last());
            assert(pending.last() == (i as int, j as int));
            if let Some(Place::Hidden(count)) = self.get(i, j) {
                let x: usize = *count;
                self.primary_click(i, j);
                proof {
                    before.lemma_cascade_show(start, pending, r as int, c as int, x);
                    assert(self@ =~~= before.put(i as int, j as int, Place::Visible(x)));
                }
                if x == 0 {
                    let mut more = self.neighbors(i, j);
                    assert(self@.neighbors(i as int, j as int) == before.neighbors(i as int, j as int));
                    queue.append(&mut more);
                    assert(coords(queue@) =~= pending.drop_last() + before.neighbors(i as int, j as int));
                }
            } else {
                proof {
                    before.lemma_cascade_skip(start, pending, r as int, c as int);
                }
            }
        }
        proof {
            assert(coords(queue@) =~= Seq::<(int, int)>::empty());
            self@.lemma_cascade_end(start, r as int, c as int);
        }
    }

    /// Digs at `(r, c)`: reveals the position and, where it shows a zero,
    /// runs the cascade around it. Answers the position's state after the
    /// reveal, or nothing outside the grid.
    pub fn dig(&mut self, r: usize, c: usize) -> (res: Option<Place>)
        requires
            old(self).wf(),
        ensures
            final(self).wf(),
            final(self)@ == old(self)@.dig(r as int, c as int),
            res == old(self)@.primary_click(r as int, c as int).get(r as int, c as int),
    {
        let clicked = match self.primary_click(r, c) {
            Some(p) => Some(*p),
            None => None,
        };
        if let Some(Place::Visible(0)) = clicked {
            self.cascade(r, c);
        }
        clicked
    }
}

} // verus!
