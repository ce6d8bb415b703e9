//! A game in play: a scrambled board, the moment it started, and whether
//! the player has solved it yet.

use crate::board::{grid_view, Board};
use crate::direction::Direction;
use crate::model::{
    adjacent, in_bounds, lemma_cells_fix_empty, lemma_click_well_formed, lemma_slide_well_formed,
    lemma_solved_cells, lemma_solved_well_formed, lemma_walk_well_formed, solved_cell, swap_cells,
    BoardState,
};
use crate::shuffle::{make_pazzle, shuffled, SHUFFLE_MOVES};
use std::time::Instant;
use vstd::prelude::*;

verus! {

/// What the player, or the window around the game, asks of it.
#[derive(Debug, Clone, Copy)]
pub enum Message {
    /// The tile at this row and column was clicked.
    TileClicked(usize, usize),
    /// The tile next to the empty slot is to travel in this direction.
    Move(Direction),
    /// The game is to start over.
    NewGame,
}

/// The time a game took: whole seconds, and the milliseconds beyond them.
#[derive(Debug, Clone, Copy, PartialEq, Eq, Structural)]
pub struct ClearTime {
    pub seconds: u64,
    pub millis: u32,
}

impl ClearTime {
    /// The time as whole minutes, the seconds beyond them, and the
    /// milliseconds beyond those.
    pub fn parts(&self) -> (parts: (u64, u64, u32))
        ensures
            parts.0 * 60 + parts.1 == self.seconds,
            parts.1 < 60,
            parts.2 == self.millis,
    {
        (self.seconds / 60, self.seconds % 60, self.millis)
    }
}

/// Whether the game is still on.
#[derive(Debug, Clone, Copy, PartialEq, Eq, Structural)]
pub enum GameState {
    Playing,
    Solved(ClearTime),
}

/// A game as the contracts see it: the board and the state.
pub struct GameView {
    pub board: BoardState,
    pub state: GameState,
}

impl GameView {
    /// The board is well formed, and a game that counts as solved shows the
    /// solved board and has a time whose milliseconds stay below a second.
    pub open spec fn well_formed(self) -> bool {
        &&& self.board.well_formed()
        &&& self.state matches GameState::Solved(time) ==> self.board.is_solved() && time.millis
            < 1000
    }

    /// The game has just started: it is on, and its board is the solved
    /// board after a walk of `SHUFFLE_MOVES` moves.
    pub open spec fn fresh(self) -> bool {
        &&& self.state is Playing
        &&& exists|moves: Seq<Direction>|
            moves.len() == SHUFFLE_MOVES && #[trigger] shuffled(
                BoardState::solved(),
                moves,
                self.board,
            )
    }

    /// The request moves a tile: the game is on, and the request is a click
    /// on a cell of the board next to the empty slot, or a move for which a
    /// tile stands ready on the far side of the slot.
    pub open spec fn accepts(self, message: Message) -> bool {
        &&& self.state is Playing
        &&& match message {
            Message::NewGame => false,
            Message::TileClicked(y, x) => in_bounds((y as int, x as int)) && adjacent(
                (y as int, x as int),
                self.board.empty,
            ),
            Message::Move(direction) => self.board.can_slide(direction.opposite_spec()),
        }
    }

    /// The state of a game that was on, after a tile moved and the board
    /// became `board`: solved in the time `elapsed` if the board is solved,
    /// and on if it is not.
    pub open spec fn state_after_move(board: BoardState, elapsed: ClearTime) -> GameState {
        if board.is_solved() {
            GameState::Solved(elapsed)
        } else {
            GameState::Playing
        }
    }

    /// `after` is what the game becomes when a request has turned its board
    /// into `board` at the time `elapsed`. A request that moved no tile
    /// changes nothing. One that moved a tile ends the game in that time
    /// if the board is then solved, and leaves it on if not.
    pub open spec fn settles(self, board: BoardState, elapsed: ClearTime, after: GameView) -> bool {
        &&& after.board == board
        &&& after.state == (if board != self.board {
            GameView::state_after_move(board, elapsed)
        } else {
            self.state
        })
    }

    /// `after` is what the game may become on `message`, taken at the time
    /// `elapsed` since the game started. A new game is asked for at any
    /// time. Clicks and moves count while the game is on, and are ignored
    /// once it is solved.
    pub open spec fn responds(self, message: Message, elapsed: ClearTime, after: GameView) -> bool {
        match message {
            Message::NewGame => after.fresh(),
            Message::TileClicked(y, x) => if self.state is Playing {
                self.settles(self.board.click((y as int, x as int)), elapsed, after)
            } else {
                after == self
            },
            Message::Move(direction) => if self.state is Playing {
                self.settles(self.board.move_tile(direction), elapsed, after)
            } else {
                after == self
            },
        }
    }
}

/// A request that is accepted changes the board, and one that is not, and
/// asks for no new game, leaves the game as it is.
pub proof fn lemma_accepted_changes_board(
    before: GameView,
    message: Message,
    elapsed: ClearTime,
    after: GameView,
)
    requires
        before.well_formed(),
        !(message is NewGame),
        before.responds(message, elapsed, after),
    ensures
        before.accepts(message) <==> after.board != before.board,
        !before.accepts(message) ==> after == before,
{
}

/// After a request that moved a tile the game is solved exactly when no
/// cell of its board differs from the solved board; if any cell differs,
/// the game stays on.
pub proof fn lemma_solved_exactly_when_no_cell_differs(
    before: GameView,
    message: Message,
    elapsed: ClearTime,
    after: GameView,
)
    requires
        before.well_formed(),
        before.accepts(message),
        before.responds(message, elapsed, after),
    ensures
        after.state is Solved <==> forall|r: int, c: int|
            0 <= r < 4 && 0 <= c < 4 ==> #[trigger] after.board.cells[r][c] == solved_cell(r, c),
        after.state is Solved ==> after.state == GameState::Solved(elapsed),
        !(after.state is Solved) ==> after.state is Playing,
{
    lemma_accepted_changes_board(before, message, elapsed, after);
    match message {
        Message::NewGame => {},
        Message::TileClicked(y, x) => {
            lemma_click_well_formed(before.board, (y as int, x as int));
        },
        Message::Move(direction) => {
            lemma_slide_well_formed(before.board, direction.opposite_spec());
        },
    }
    lemma_solved_cells(after.board);
}

/// A game of the puzzle.
pub struct Puzzle {
    board: Board,
    state: GameState,
    start_time: Instant,
}

impl View for Puzzle {
    type V = GameView;

    closed spec fn view(&self) -> GameView {
        GameView { board: self.board@, state: self.state }
    }
}

impl Puzzle {
    /// What holds of every game at all times.
    #[verifier::type_invariant]
    pub open spec fn consistent(self) -> bool {
        self@.well_formed()
    }

    /// Starts a game on a freshly scrambled board, and the clock with it.
    pub fn new() -> (game: Puzzle)
        ensures
            game@.fresh(),
            game@.well_formed(),
    {
        let panel = make_pazzle();
        let board = Board::from_cells(panel).unwrap();
        proof {
            let (moves, end) = choose|moves: Seq<Direction>, end: BoardState|
                moves.len() == SHUFFLE_MOVES && end.cells == grid_view(panel) && #[trigger] shuffled(
                    BoardState::solved(),
                    moves,
                    end,
                );
            lemma_solved_well_formed();
            lemma_walk_well_formed(BoardState::solved(), moves);
            lemma_cells_fix_empty(end, board@);
        }
        Puzzle { board, state: GameState::Playing, start_time: Instant::now() }
    }

    /// Starts a game on the given board, and the clock with it. The game is
    /// on even if the board is the solved one: only a move ends a game.
    pub fn with_board(board: Board) -> (game: Puzzle)
        ensures
            game@.board == board@,
            game@.state is Playing,
            game@.well_formed(),
    {
        proof {
            use_type_invariant(&board);
        }
        Puzzle { board, state: GameState::Playing, start_time: Instant::now() }
    }

    /// The board of the game.
    pub fn board(&self) -> (board: &Board)
        ensures
            board@ == self@.board,
    {
        &self.board
    }

    /// Whether the game is on or solved, and in what time.
    pub fn state(&self) -> (state: GameState)
        ensures
            state == self@.state,
            self@.well_formed(),
    {
        proof {
            use_type_invariant(self);
        }
        self.state
    }

    /// The reading of the clock at which the game started.
    pub closed spec fn started(&self) -> Instant {
        self.start_time
    }

    /// Ends the game in the time `elapsed` if its board is solved.
    fn finish_if_solved(&mut self, elapsed: ClearTime)
        requires
            old(self)@.state is Playing,
            elapsed.millis < 1000,
        ensures
            final(self)@.board == old(self)@.board,
            final(self)@.state == GameView::state_after_move(old(self)@.board, elapsed),
            final(self).started() == old(self).started(),
    {
        proof {
            use_type_invariant(&*self);
        }
        if self.board.is_solved() {
            self.state = GameState::Solved(elapsed);
        }
    }

    /// Moves the tile at row `y`, column `x` into the empty slot, wherever
    /// on the board the tile is, and ends the game in the time `elapsed` if
    /// that solves the board. This is the bare swap: `update` is what plays
    /// by the rules and only lets a neighbour of the slot move.
    pub fn swap_with_empty(&mut self, y: usize, x: usize, elapsed: ClearTime)
        requires
            old(self)@.state is Playing,
            y < 4,
            x < 4,
            elapsed.millis < 1000,
        ensures
            final(self)@.board.cells == swap_cells(
                old(self)@.board.cells,
                old(self)@.board.empty,
                (y as int, x as int),
            ),
            final(self)@.board.empty == (y as int, x as int),
            final(self)@.state == GameView::state_after_move(final(self)@.board, elapsed),
            final(self)@.state is Solved <==> forall|r: int, c: int|
                0 <= r < 4 && 0 <= c < 4 ==> #[trigger] final(self)@.board.cells[r][c]
                    == solved_cell(r, c),
            final(self).started() == old(self).started(),
            final(self)@.well_formed(),
    {
        self.board.swap_with_empty(y, x);
        self.finish_if_solved(elapsed);
        proof {
            use_type_invariant(&*self);
            lemma_solved_cells(self@.board);
        }
    }

    /// Takes one request at the time `elapsed` since the game started, and
    /// returns whether it moved a tile. While the game is on, a click moves
    /// the clicked tile if it lies next to the empty slot, and a move lets
    /// the tile on the far side of the slot travel in the given direction;
    /// either ends the game, in the time `elapsed`, when it solves the
    /// board. Once the game is solved both are ignored. A new game is
    /// started whenever it is asked for; no other request touches the clock.
    pub fn update_at(&mut self, message: Message, elapsed: ClearTime) -> (moved: bool)
        requires
            elapsed.millis < 1000,
        ensures
            old(self)@.responds(message, elapsed, final(self)@),
            moved == old(self)@.accepts(message),
            !(message is NewGame) ==> moved == (final(self)@.board != old(self)@.board),
            !(message is NewGame) ==> final(self).started() == old(self).started(),
            final(self)@.well_formed(),
    {
        proof {
            use_type_invariant(&*self);
        }
        let moved = match self.state {
            GameState::Playing => {
                match message {
                    Message::TileClicked(y, x) => {
                        let moved = self.board.apply_move_at((y, x));
                        if moved {
                            self.finish_if_solved(elapsed);
                        }
                        moved
                    },
                    Message::Move(direction) => {
                        let moved = self.board.apply_move(direction).is_some();
                        if moved {
                            self.finish_if_solved(elapsed);
                        }
                        moved
                    },
                    Message::NewGame => {
                        *self = Puzzle::new();
                        false
                    },
                }
            },
            GameState::Solved(_) => {
                if let Message::NewGame = message {
                    *self = Puzzle::new();
                }
                false
            },
        };
        proof {
            use_type_invariant(&*self);
        }
        moved
    }

    /// Takes one request, at the time that the clock shows, and returns
    /// whether it moved a tile: a rejected move or click, and any request
    /// that is ignored, gives `false`. What the request does is what
    /// `update_at` does with it at that time.
    pub fn update(&mut self, message: Message) -> (moved: bool)
        ensures
            exists|elapsed: ClearTime|
                elapsed.millis < 1000 && #[trigger] old(self)@.responds(
                    message,
                    elapsed,
                    final(self)@,
                ),
            moved == old(self)@.accepts(message),
            !(message is NewGame) ==> moved == (final(self)@.board != old(self)@.board),
            !(message is NewGame) ==> final(self).started() == old(self).started(),
            final(self)@.well_formed(),
    {
        let since = self.start_time.elapsed();
        let elapsed = ClearTime { seconds: since.as_secs(), millis: since.subsec_millis() };
        self.update_at(message, elapsed)
    }
}

} // verus!
