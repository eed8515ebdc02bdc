//! The state of one grid position and its transitions.

use vstd::prelude::*;

verus! {

/// What one position of the grid currently holds.
///
/// The payload of `Hidden`, `Visible` and `IncorrectlyMarked` is the number of
/// mines among the position's neighbours.
#[derive(Clone, Copy, Debug, PartialEq, Eq, Structural)]
pub enum Place {
    /// A mine that carries a flag.
    MarkedMine,
    /// A safe position that carries a flag.
    IncorrectlyMarked(usize),
    /// A mine that is neither flagged nor revealed.
    Mine,
    /// A mine that was revealed.
    Boom,
    /// A safe position that is neither flagged nor revealed.
    Hidden(usize),
    /// A safe position that was revealed.
    Visible(usize),
}

/// What a position shows to the player.
#[derive(Clone, Copy, Debug, PartialEq, Eq, Structural)]
pub enum Glyph {
    /// Nothing.
    Blank,
    /// The number of mines around the position.
    Count(usize),
    /// A flag.
    Flag,
    /// An explosion.
    Explosion,
}

impl Place {
    /// The position holds a mine, whether untouched, flagged or exploded.
    pub open spec fn has_mine(self) -> bool {
        self is Mine || self is MarkedMine || self is Boom
    }

    /// The position was revealed: it shows its count, or it exploded.
    pub open spec fn is_revealed(self) -> bool {
        self is Visible || self is Boom
    }

    /// The neighbour count that a safe position carries; 0 for a mine.
    pub open spec fn count(self) -> nat {
        match self {
            Place::Hidden(n) => n as nat,
            Place::Visible(n) => n as nat,
            Place::IncorrectlyMarked(n) => n as nat,
            _ => 0,
        }
    }

    /// What a reveal makes of the position.
    pub open spec fn uncovered(self) -> Place {
        match self {
            Place::Hidden(n) => Place::Visible(n),
            Place::Mine => Place::Boom,
            other => other,
        }
    }

    /// What the cascade makes of the position: a hidden safe position
    /// shows its count, anything else stays as it is.
    pub open spec fn shown(self) -> Place {
        match self {
            Place::Hidden(n) => Place::Visible(n),
            other => other,
        }
    }

    /// What a new mine next to the position makes of it: a hidden safe
    /// position counts one more, anything else stays as it is.
    pub open spec fn raised(self) -> Place {
        match self {
            Place::Hidden(n) => Place::Hidden((n + 1) as usize),
            other => other,
        }
    }

    /// What toggling the flag makes of the position.
    pub open spec fn toggled(self) -> Place {
        match self {
            Place::Mine => Place::MarkedMine,
            Place::Hidden(n) => Place::IncorrectlyMarked(n),
            Place::MarkedMine => Place::Mine,
            Place::IncorrectlyMarked(n) => Place::Hidden(n),
            other => other,
        }
    }

    /// The position keeps the game from being solved.
    pub open spec fn blocks_solution(self) -> bool {
        self is Boom || self is Mine || self is IncorrectlyMarked
    }

    /// What the position shows to the player: a revealed safe position its
    /// count, unless that is zero; a flagged position a flag, whatever is
    /// under it; an exploded mine an explosion; anything else nothing.
    pub open spec fn face(self) -> Glyph {
        match self {
            Place::Visible(n) => if n == 0 {
                Glyph::Blank
            } else {
                Glyph::Count(n)
            },
            Place::MarkedMine => Glyph::Flag,
            Place::IncorrectlyMarked(_) => Glyph::Flag,
            Place::Boom => Glyph::Explosion,
            Place::Hidden(_) => Glyph::Blank,
            Place::Mine => Glyph::Blank,
        }
    }

    /// What the position shows to the player.
    pub fn glyph(self) -> (res: Glyph)
        ensures
            res == self.face(),
    {
        match self {
            Place::Visible(n) => {
                if n == 0 {
                    Glyph::Blank
                } else {
                    Glyph::Count(n)
                }
            },
            Place::MarkedMine | Place::IncorrectlyMarked(_) => Glyph::Flag,
            Place::Boom => Glyph::Explosion,
            _ => Glyph::Blank,
        }
    }

    /// Reveals the position: a hidden safe position shows its count, an
    /// untouched mine explodes, anything else stays as it is.
    pub fn uncover(self) -> (res: Place)
        ensures
            res == self.uncovered(),
    {
        match self {
            Place::Hidden(n) => Place::Visible(n),
            Place::Mine => Place::Boom,
            other => other,
        }
    }

    /// Sets the flag on an unrevealed position or takes it off again; a
    /// revealed position stays as it is.
    pub fn toggle_flag(self) -> (res: Place)
        ensures
            res == self.toggled(),
    {
        match self {
            Place::Mine => Place::MarkedMine,
            Place::Hidden(n) => Place::IncorrectlyMarked(n),
            Place::MarkedMine => Place::Mine,
            Place::IncorrectlyMarked(n) => Place::Hidden(n),
            other => other,
        }
    }
}

} // verus!
