//! A game: the grid together with how far the game has got.

use vstd::prelude::*;
use crate::cell::Place;
use crate::board::Board;
use crate::field::Minefield;

verus! {

/// How far a game has got.
#[derive(Clone, Copy, Debug, PartialEq, Eq, Structural)]
pub enum GameState {
    /// No position was clicked yet and no mine is laid.
    NotStarted,
    /// The mines are laid and the player is at work.
    InProgress,
    /// The player solved the grid.
    Won,
    /// The player revealed a mine.
    Lost,
}

/// The mathematical model of a game.
#[verifier::ext_equal]
pub struct Play {
    pub state: GameState,
    pub num_mines: nat,
    pub board: Board,
}

impl Play {
    /// The game with the mines laid as on `board`, if it had not started;
    /// a game that had started stays as it is.
    pub open spec fn begun(self, board: Board) -> Play {
        if self.state == GameState::NotStarted {
            Play { state: GameState::InProgress, board, ..self }
        } else {
            self
        }
    }

    /// `board` is a grid that the first click at `(r, c)` may lay, if the
    /// game has not started; else it is the game's own grid.
    pub open spec fn may_begin(self, board: Board, r: int, c: int) -> bool {
        if self.state == GameState::NotStarted {
            board.populated(self.board.width, self.board.height, self.num_mines, (r, c))
        } else {
            board == self.board
        }
    }

    /// The game after the player dug at `(r, c)`: while in progress the
    /// grid is dug, a revealed mine loses the game and a solved grid wins
    /// it. A game that has not started or is over stays as it is.
    pub open spec fn dug(self, r: int, c: int) -> Play {
        if self.state == GameState::InProgress {
            let board = self.board.dig(r, c);
            let state = if self.board.primary_click(r, c).get(r, c) == Some(Place::Boom) {
                GameState::Lost
            } else if board.is_solved() {
                GameState::Won
            } else {
                GameState::InProgress
            };
            Play { state, board, ..self }
        } else {
            self
        }
    }

    /// The game after the player toggled the flag at `(r, c)`: while in
    /// progress the flag is toggled, and a solved grid wins the game. A
    /// game that has not started or is over stays as it is.
    pub open spec fn flagged(self, r: int, c: int) -> Play {
        if self.state == GameState::InProgress {
            let board = self.board.secondary_click(r, c);
            let state = if board.is_solved() {
                GameState::Won
            } else {
                GameState::InProgress
            };
            Play { state, board, ..self }
        } else {
            self
        }
    }
}

/// A game of Minesweeper.
pub struct Game {
    game_state: GameState,
    num_mines: usize,
    minefield: Minefield,
}

impl View for Game {
    type V = Play;

    closed spec fn view(&self) -> Play {
        Play { state: self.game_state, num_mines: self.num_mines as nat, board: self.minefield@ }
    }
}

impl Game {
    /// The game's grid is well formed.
    pub closed spec fn wf(&self) -> bool {
        self.minefield.wf()
    }

    /// A game of a well-formed value has a well-formed grid.
    pub proof fn lemma_wf(&self)
        requires
            self.wf(),
        ensures
            self@.board.wf(),
    {
        self.minefield.lemma_wf();
    }

    /// A game that has not started, on a blank grid of the given size.
    pub fn new(width: usize, height: usize, num_mines: usize) -> (res: Self)
        requires
            width * height <= usize::MAX,
        ensures
            res.wf(),
            res@ == (Play {
                state: GameState::NotStarted,
                num_mines: num_mines as nat,
                board: Board::blank(width as nat, height as nat),
            }),
    {
        Game { game_state: GameState::NotStarted, num_mines, minefield: Minefield::new(width, height) }
    }

    /// A game in progress on the given grid.
    pub fn in_progress(minefield: Minefield, num_mines: usize) -> (res: Self)
        requires
            minefield.wf(),
        ensures
            res.wf(),
            res@ == (Play { state: GameState::InProgress, num_mines: num_mines as nat, board: minefield@ }),
    {
        Game { game_state: GameState::InProgress, num_mines, minefield }
    }

    /// How far the game has got.
    pub fn game_state(&self) -> (res: GameState)
        ensures
            res == self@.state,
    {
        self.game_state
    }

    /// The number of mines that the first click lays.
    pub fn num_mines(&self) -> (res: usize)
        ensures
            res == self@.num_mines,
    {
        self.num_mines
    }

    /// The game's grid.
    pub fn minefield(&self) -> (res: &Minefield)
        ensures
            res@ == self@.board,
            self.wf() ==> res.wf(),
    {
        &self.minefield
    }

    /// Starts a new game: the grid is cleared and the game has not started.
    pub fn reset(&mut self)
        requires
            old(self).wf(),
        ensures
            final(self).wf(),
            final(self)@ == (Play {
                state: GameState::NotStarted,
                board: Board::blank(old(self)@.board.width, old(self)@.board.height),
                ..old(self)@
            }),
    {
        self.minefield.reset();
        self.game_state = GameState::NotStarted;
    }

    /// Lays the mines if the game has not started, none of them on
    /// `(r, c)`, and puts the game in progress.
    pub fn begin(&mut self, r: usize, c: usize)
        requires
            old(self).wf(),
        ensures
            final(self).wf(),
            final(self)@ == old(self)@.begun(final(self)@.board),
            old(self)@.may_begin(final(self)@.board, r as int, c as int),
    {
        if self.game_state == GameState::NotStarted {
            self.minefield.populate(self.num_mines, (r, c));
            self.game_state = GameState::InProgress;
        }
    }

    /// Digs at `(r, c)` while the game is in progress: the position is
    /// revealed, with the cascade where it shows a zero; a revealed mine
    /// loses the game, a solved grid wins it.
    pub fn dig(&mut self, r: usize, c: usize)
        requires
            old(self).wf(),
        ensures
            final(self).wf(),
            final(self)@ == old(self)@.dug(r as int, c as int),
    {
        if self.game_state == GameState::InProgress {
            match self.minefield.dig(r, c) {
                Some(Place::Boom) => {
                    self.game_state = GameState::Lost;
                },
                _ => {
                    if self.minefield.is_solved() {
                        self.game_state = GameState::Won;
                    }
                },
            }
        }
    }

    /// Toggles the flag at `(r, c)` while the game is in progress; a
    /// solved grid wins the game.
    pub fn flag(&mut self, r: usize, c: usize)
        requires
            old(self).wf(),
        ensures
            final(self).wf(),
            final(self)@ == old(self)@.flagged(r as int, c as int),
    {
        if self.game_state == GameState::InProgress {
            self.minefield.secondary_click(r, c);
            if self.minefield.is_solved() {
                self.game_state = GameState::Won;
            }
        }
    }

    /// The player's reveal click at `(r, c)`: the first click of a game
    /// lays the mines, none of them on `(r, c)`; then the position is dug.
    pub fn primary_click(&mut self, r: usize, c: usize)
        requires
            old(self).wf(),
        ensures
            final(self).wf(),
            exists|board: Board|
                old(self)@.may_begin(board, r as int, c as int) && final(self)@ == (#[trigger] old(self)@.begun(board)).dug(
                    r as int,
                    c as int,
                ),
    {
        self.begin(r, c);
        let ghost board = self@.board;
        self.dig(r, c);
        assert(final(self)@ == old(self)@.begun(board).dug(r as int, c as int));
    }

    /// The player's flag click at `(r, c)`: the first click of a game lays
    /// the mines, none of them on `(r, c)`; then the flag is toggled.
    pub fn secondary_click(&mut self, r: usize, c: usize)
        requires
            old(self).wf(),
        ensures
            final(self).wf(),
            exists|board: Board|
                old(self)@.may_begin(board, r as int, c as int) && final(self)@ == (#[trigger] old(self)@.begun(board)).flagged(
                    r as int,
                    c as int,
                ),
    {
        self.begin(r, c);
        let ghost board = self@.board;
        self.flag(r, c);
        assert(final(self)@ == old(self)@.begun(board).flagged(r as int, c as int));
    }
}

} // verus!
