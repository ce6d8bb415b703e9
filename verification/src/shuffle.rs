//! Scrambling a board by a random walk of the empty slot that never steps
//! straight back.

use crate::board::{grid_view, Board, BOARD_SIZE};
use crate::direction::Direction;
use crate::model::{
    all_tiles, flatten, in_bounds, is_arrangement, lemma_arrangement_multiset, lemma_walk_push,
    lemma_solved_well_formed, lemma_walk_reachable, lemma_walk_well_formed, neighbour,
    no_backtrack, BoardState,
};
use crate::rng::choose_one;
use vstd::prelude::*;

verus! {

/// The number of moves that scramble a new game.
pub const SHUFFLE_MOVES: usize = 1000;

/// With the empty slot at `empty` and `last` the move made before, `d` may
/// be made next: the slot has a neighbour that way, and `d` does not undo
/// `last`.
pub open spec fn is_candidate(empty: (int, int), last: Option<Direction>, d: Direction) -> bool {
    &&& in_bounds(neighbour(empty, d))
    &&& last matches Some(l) ==> d != l.opposite_spec()
}

/// The list that holds `d` if it is a candidate, and nothing if it is not.
pub open spec fn candidate_or_none(empty: (int, int), last: Option<Direction>, d: Direction) -> Seq<
    Direction,
> {
    if is_candidate(empty, last, d) {
        seq![d]
    } else {
        Seq::empty()
    }
}

/// The candidates in the order up, down, left, right.
pub open spec fn candidates(empty: (int, int), last: Option<Direction>) -> Seq<Direction> {
    candidate_or_none(empty, last, Direction::Up) + candidate_or_none(empty, last, Direction::Down)
        + candidate_or_none(empty, last, Direction::Left) + candidate_or_none(
        empty,
        last,
        Direction::Right,
    )
}

/// The list of candidates holds the candidates and nothing else.
pub proof fn lemma_candidates_exact(empty: (int, int), last: Option<Direction>, d: Direction)
    ensures
        candidates(empty, last).contains(d) <==> is_candidate(empty, last, d),
{
    let up = candidate_or_none(empty, last, Direction::Up);
    let down = candidate_or_none(empty, last, Direction::Down);
    let left = candidate_or_none(empty, last, Direction::Left);
    let right = candidate_or_none(empty, last, Direction::Right);
    let all = candidates(empty, last);
    if is_candidate(empty, last, d) {
        match d {
            Direction::Up => {
                assert(all[0] == d);
            },
            Direction::Down => {
                assert(all[up.len() as int] == d);
            },
            Direction::Left => {
                assert(all[(up.len() + down.len()) as int] == d);
            },
            Direction::Right => {
                assert(all[(up.len() + down.len() + left.len()) as int] == d);
            },
        }
    }
    if all.contains(d) {
        let i = choose|i: int| 0 <= i < all.len() && all[i] == d;
        if i < up.len() {
            assert(all[i] == up[i]);
        } else if i < up.len() + down.len() {
            assert(all[i] == down[i - up.len()]);
        } else if i < up.len() + down.len() + left.len() {
            assert(all[i] == left[i - up.len() - down.len()]);
        } else {
            assert(all[i] == right[i - up.len() - down.len() - left.len()]);
        }
    }
}

/// Wherever the empty slot is on the board, and whatever the move before
/// was, some move may be made next: the walk never has to skip a turn.
pub proof fn lemma_some_candidate(empty: (int, int), last: Option<Direction>)
    requires
        in_bounds(empty),
    ensures
        candidates(empty, last).len() > 0,
{
    let vertical = if empty.0 > 0 {
        Direction::Up
    } else {
        Direction::Down
    };
    let horizontal = if empty.1 > 0 {
        Direction::Left
    } else {
        Direction::Right
    };
    let d = if last == Some(vertical.opposite_spec()) {
        horizontal
    } else {
        vertical
    };
    assert(is_candidate(empty, last, d));
    lemma_candidates_exact(empty, last, d);
}

/// Whether `d` undoes the move `last`.
fn undoes(d: Direction, last: Option<Direction>) -> (undone: bool)
    ensures
        undone == (last matches Some(l) && d == l.opposite_spec()),
{
    match last {
        Some(l) => d == l.opposite(),
        None => false,
    }
}

/// The moves that the empty slot of `board` may make after `last_move`: the
/// directions in which it has a neighbour, without the one that would undo
/// `last_move`, in the order up, down, left, right.
pub fn candidate_moves(board: &Board, last_move: Option<Direction>) -> (moves: Vec<Direction>)
    ensures
        moves@ == candidates(board@.empty, last_move),
{
    let (empty_y, empty_x) = board.empty_pos();
    let mut moves: Vec<Direction> = Vec::new();
    if empty_y > 0 && !undoes(Direction::Up, last_move) {
        moves.push(Direction::Up);
    }
    if empty_y < BOARD_SIZE - 1 && !undoes(Direction::Down, last_move) {
        moves.push(Direction::Down);
    }
    if empty_x > 0 && !undoes(Direction::Left, last_move) {
        moves.push(Direction::Left);
    }
    if empty_x < BOARD_SIZE - 1 && !undoes(Direction::Right, last_move) {
        moves.push(Direction::Right);
    }
    assert(moves@ =~= candidates(board@.empty, last_move));
    moves
}

/// One turn of the walk, for any outcome of the draw. Where `choice` is a
/// candidate, the empty slot makes that move and the move is returned. On
/// any other `choice` the turn is skipped: the board stays as it is and
/// `None` is returned.
pub fn shuffle_step(board: &mut Board, last_move: Option<Direction>, choice: Option<Direction>) -> (made:
    Option<Direction>)
    ensures
        made == (match choice {
            Some(d) if is_candidate(old(board)@.empty, last_move, d) => Some(d),
            _ => None,
        }),
        made matches Some(d) ==> old(board)@.can_slide(d) && final(board)@ == old(board)@.slide(d),
        made is None ==> *final(board) == *old(board),
        final(board)@.well_formed(),
{
    proof {
        use_type_invariant(&*board);
    }
    match choice {
        Some(d) => {
            if undoes(d, last_move) {
                None
            } else if board.slide(d) {
                Some(d)
            } else {
                None
            }
        },
        None => None,
    }
}

/// `moves` is a walk that `shuffle` may have made from `start` to `end`:
/// every move found a tile to trade with, none undid the one before it, and
/// together they lead from `start` to `end`.
pub open spec fn shuffled(start: BoardState, moves: Seq<Direction>, end: BoardState) -> bool {
    &&& start.legal_walk(moves)
    &&& no_backtrack(moves)
    &&& start.walk(moves) == end
}

/// A walk that `shuffle` may have made from the solved board ends on a
/// board that can be solved again.
pub proof fn lemma_shuffled_reachable(moves: Seq<Direction>, end: BoardState)
    requires
        shuffled(BoardState::solved(), moves, end),
    ensures
        end.reachable(),
        end.well_formed(),
{
    lemma_solved_well_formed();
    lemma_walk_well_formed(BoardState::solved(), moves);
}

/// The move made last in `moves`, if any was made.
pub open spec fn last_of(moves: Seq<Direction>) -> Option<Direction> {
    if moves.len() == 0 {
        None
    } else {
        Some(moves.last())
    }
}

/// The walk from `start` that the numbers `picks` select, one move for each
/// number: the number, taken modulo the count of the candidates of that
/// turn, is the index of the move among them.
pub open spec fn scripted(start: BoardState, picks: Seq<usize>) -> Seq<Direction>
    decreases picks.len(),
{
    if picks.len() == 0 {
        Seq::empty()
    } else {
        let before = scripted(start, picks.drop_last());
        let open = candidates(start.walk(before).empty, last_of(before));
        before.push(open[picks.last() as int % open.len() as int])
    }
}

/// Scrambles the board by `move_count` random moves of the empty slot and
/// returns the moves it made, first to last. Each turn draws one of the
/// candidates of `candidate_moves`, so no move undoes the one before it;
/// no turn is ever skipped. Which walk comes out is left to chance, but it
/// is always one that some numbers select.
pub fn shuffle(board: &mut Board, move_count: usize) -> (moves: Vec<Direction>)
    ensures
        moves@.len() == move_count,
        exists|picks: Seq<usize>|
            picks.len() == move_count && moves@ == #[trigger] scripted(old(board)@, picks),
        shuffled(old(board)@, moves@, final(board)@),
        final(board)@.well_formed(),
        flatten(final(board)@.cells).to_multiset() == all_tiles(),
        old(board)@.reachable() ==> final(board)@.reachable(),
{
    let ghost start = board@;
    let ghost mut picks: Seq<usize> = Seq::empty();
    let mut rng = rand::thread_rng();
    let mut last_move: Option<Direction> = None;
    let mut moves: Vec<Direction> = Vec::new();
    let mut turn: usize = 0;
    proof {
        use_type_invariant(&*board);
    }
    while turn < move_count
        invariant
            turn <= move_count,
            moves@.len() == turn,
            picks.len() == turn,
            start.well_formed(),
            moves@ == scripted(start, picks),
            last_move == last_of(moves@),
            board@ == start.walk(moves@),
            board@.well_formed(),
        decreases move_count - turn,
    {
        let candidates = candidate_moves(board, last_move);
        let chosen = choose_one(&candidates, &mut rng);
        let choice = match chosen {
            Some(d) => Some(*d),
            None => None,
        };
        proof {
            let d = choice.unwrap();
            lemma_some_candidate(board@.empty, last_move);
            lemma_candidates_exact(board@.empty, last_move, d);
            lemma_walk_push(start, moves@, d);
            let index = choose|i: int| 0 <= i < candidates@.len() && candidates@[i] == d;
            let longer = picks.push(index as usize);
            assert(longer.drop_last() =~= picks);
            assert(longer.last() as int % candidates@.len() as int == index) by {
                vstd::arithmetic::div_mod::lemma_small_mod(index as nat, candidates@.len());
            }
            assert(scripted(start, longer) == moves@.push(d));
            picks = longer;
        }
        match shuffle_step(board, last_move, choice) {
            Some(d) => {
                moves.push(d);
                last_move = Some(d);
            },
            None => {},
        }
        turn += 1;
    }
    proof {
        lemma_scripted_walk(start, picks);
        lemma_arrangement_multiset(board@.cells);
        if start.reachable() {
            lemma_walk_reachable(start, moves@);
        }
    }
    moves
}

/// Whatever numbers select it, a walk from a well-formed board makes one
/// move for each number, every move finds a tile to trade with, and none
/// undoes the one before it.
pub proof fn lemma_scripted_walk(start: BoardState, picks: Seq<usize>)
    requires
        start.well_formed(),
    ensures
        scripted(start, picks).len() == picks.len(),
        shuffled(start, scripted(start, picks), start.walk(scripted(start, picks))),
    decreases picks.len(),
{
    if picks.len() > 0 {
        let before = scripted(start, picks.drop_last());
        lemma_scripted_walk(start, picks.drop_last());
        let at = start.walk(before);
        lemma_walk_well_formed(start, before);
        let open = candidates(at.empty, last_of(before));
        lemma_some_candidate(at.empty, last_of(before));
        let d = open[picks.last() as int % open.len() as int];
        assert(open.contains(d));
        lemma_candidates_exact(at.empty, last_of(before), d);
        lemma_walk_push(start, before, d);
        let moves = before.push(d);
        assert(moves == scripted(start, picks));
        assert forall|i: int, j: int| 0 <= i && j == i + 1 && j < moves.len() implies #[trigger] moves[j]
            != (#[trigger] moves[i]).opposite_spec() by {
            if j < before.len() {
                assert(moves[i] == before[i] && moves[j] == before[j]);
            } else {
                assert(moves[i] == before.last());
            }
        }
    }
}

/// Scrambles the board by the walk that the numbers `picks` select, and
/// returns the moves it made, first to last. Each number stands for one
/// draw: taken modulo the count of the candidates of its turn, it is the
/// index of the move among them. The same numbers always give the same walk.
pub fn shuffle_with_picks(board: &mut Board, picks: &Vec<usize>) -> (moves: Vec<Direction>)
    ensures
        moves@ == scripted(old(board)@, picks@),
        moves@.len() == picks@.len(),
        shuffled(old(board)@, moves@, final(board)@),
        final(board)@.well_formed(),
        flatten(final(board)@.cells).to_multiset() == all_tiles(),
        old(board)@.reachable() ==> final(board)@.reachable(),
{
    let ghost start = board@;
    let mut last_move: Option<Direction> = None;
    let mut moves: Vec<Direction> = Vec::new();
    let mut turn: usize = 0;
    proof {
        use_type_invariant(&*board);
        assert(picks@.take(0) =~= Seq::<usize>::empty());
    }
    while turn < picks.len()
        invariant
            turn <= picks@.len(),
            start.well_formed(),
            moves@ == scripted(start, picks@.take(turn as int)),
            last_move == last_of(moves@),
            board@ == start.walk(moves@),
            board@.well_formed(),
        decreases picks@.len() - turn,
    {
        let candidates = candidate_moves(board, last_move);
        proof {
            lemma_some_candidate(board@.empty, last_move);
        }
        let choice = candidates[picks[turn] % candidates.len()];
        proof {
            assert(candidates@.contains(choice));
            lemma_candidates_exact(board@.empty, last_move, choice);
            lemma_walk_push(start, moves@, choice);
            assert(picks@.take(turn + 1).drop_last() =~= picks@.take(turn as int));
            assert(picks@.take(turn + 1).last() == picks@[turn as int]);
        }
        match shuffle_step(board, last_move, Some(choice)) {
            Some(d) => {
                moves.push(d);
                last_move = Some(d);
            },
            None => {},
        }
        turn += 1;
    }
    proof {
        assert(picks@.take(picks@.len() as int) =~= picks@);
        lemma_scripted_walk(start, picks@);
        lemma_walk_well_formed(start, moves@);
        lemma_arrangement_multiset(board@.cells);
        if start.reachable() {
            lemma_walk_reachable(start, moves@);
        }
    }
    moves
}

/// The cells of a new game: the solved board after a walk of a thousand
/// random moves.
pub fn make_pazzle() -> (panel: [[i32; BOARD_SIZE]; BOARD_SIZE])
    ensures
        exists|moves: Seq<Direction>, end: BoardState|
            moves.len() == SHUFFLE_MOVES && end.cells == grid_view(panel) && #[trigger] shuffled(
                BoardState::solved(),
                moves,
                end,
            ),
        is_arrangement(grid_view(panel)),
        flatten(grid_view(panel)).to_multiset() == all_tiles(),
{
    let mut board = Board::initialize();
    shuffle(&mut board, SHUFFLE_MOVES);
    board.cells()
}

} // verus!
