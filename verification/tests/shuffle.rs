use fifteen_puzzle::board::{find_zero, Board};
use fifteen_puzzle::direction::Direction;
use fifteen_puzzle::shuffle::{
    candidate_moves, make_pazzle, shuffle, shuffle_step, shuffle_with_picks, SHUFFLE_MOVES,
};

use Direction::{Down, Left, Right, Up};

const ALL: [Direction; 4] = [Up, Down, Left, Right];

fn sorted_values(cells: [[i32; 4]; 4]) -> Vec<i32> {
    let mut values: Vec<i32> = cells.iter().flatten().copied().collect();
    values.sort();
    values
}

fn board_with_gap_at(row: usize, column: usize) -> Board {
    let mut board = Board::initialize();
    while board.empty_pos().0 > row {
        assert!(board.slide(Up));
    }
    while board.empty_pos().1 > column {
        assert!(board.slide(Left));
    }
    assert_eq!(board.empty_pos(), (row, column));
    board
}

#[test]
fn shuffle_keeps_every_value_once() {
    let expected: Vec<i32> = (0..16).collect();
    for _ in 0..20 {
        let mut board = Board::initialize();
        shuffle(&mut board, 1000);
        assert_eq!(sorted_values(board.cells()), expected);
        let gap = board.empty_pos();
        assert_eq!(board.cells()[gap.0][gap.1], 0);
        assert_eq!(find_zero(&board.cells()), Some(gap));
    }
}

#[test]
fn shuffle_is_a_legal_walk_from_the_solved_board() {
    for _ in 0..20 {
        let mut board = Board::initialize();
        let moves = shuffle(&mut board, 1000);
        let mut replay = Board::initialize();
        for d in &moves {
            assert!(replay.slide(*d), "a recorded move found no tile to trade with");
        }
        assert_eq!(replay, board);
    }
}

#[test]
fn shuffle_never_undoes_the_move_before() {
    for _ in 0..20 {
        let mut board = Board::initialize();
        let moves = shuffle(&mut board, 1000);
        for pair in moves.windows(2) {
            assert_ne!(pair[1], pair[0].opposite());
        }
    }
}

#[test]
fn shuffle_makes_every_move_it_was_asked_for() {
    for count in [0usize, 1, 2, 3, 17, 1000] {
        let mut board = Board::initialize();
        let moves = shuffle(&mut board, count);
        assert_eq!(moves.len(), count);
    }
}

#[test]
fn shuffle_of_no_moves_changes_nothing() {
    let mut board = Board::initialize();
    let moves = shuffle(&mut board, 0);
    assert!(moves.is_empty());
    assert_eq!(board, Board::initialize());
}

#[test]
fn shuffle_of_one_move_leaves_the_corner() {
    for _ in 0..20 {
        let mut board = Board::initialize();
        let moves = shuffle(&mut board, 1);
        assert!(moves == vec![Up] || moves == vec![Left]);
        assert!(board.empty_pos() == (2, 3) || board.empty_pos() == (3, 2));
    }
}

#[test]
fn shuffle_walks_on_from_any_board() {
    let start = Board::from_cells([[5, 1, 2, 4], [9, 6, 3, 8], [13, 0, 7, 12], [14, 10, 11, 15]]).unwrap();
    let mut board = start;
    let moves = shuffle(&mut board, 50);
    let mut replay = start;
    for d in &moves {
        assert!(replay.slide(*d));
    }
    assert_eq!(replay, board);
}

#[test]
fn candidates_in_the_corners() {
    assert_eq!(candidate_moves(&board_with_gap_at(3, 3), None), vec![Up, Left]);
    assert_eq!(candidate_moves(&board_with_gap_at(0, 0), None), vec![Down, Right]);
    assert_eq!(candidate_moves(&board_with_gap_at(0, 3), None), vec![Down, Left]);
    assert_eq!(candidate_moves(&board_with_gap_at(3, 0), None), vec![Up, Right]);
}

#[test]
fn candidates_on_the_edges_and_inside() {
    assert_eq!(candidate_moves(&board_with_gap_at(0, 1), None), vec![Down, Left, Right]);
    assert_eq!(candidate_moves(&board_with_gap_at(3, 2), None), vec![Up, Left, Right]);
    assert_eq!(candidate_moves(&board_with_gap_at(1, 0), None), vec![Up, Down, Right]);
    assert_eq!(candidate_moves(&board_with_gap_at(2, 3), None), vec![Up, Down, Left]);
    assert_eq!(candidate_moves(&board_with_gap_at(1, 2), None), vec![Up, Down, Left, Right]);
}

#[test]
fn candidates_leave_out_the_move_that_undoes_the_last() {
    let inside = board_with_gap_at(1, 2);
    assert_eq!(candidate_moves(&inside, Some(Up)), vec![Up, Left, Right]);
    assert_eq!(candidate_moves(&inside, Some(Down)), vec![Down, Left, Right]);
    assert_eq!(candidate_moves(&inside, Some(Left)), vec![Up, Down, Left]);
    assert_eq!(candidate_moves(&inside, Some(Right)), vec![Up, Down, Right]);
    let corner = board_with_gap_at(3, 3);
    assert_eq!(candidate_moves(&corner, Some(Down)), vec![Left]);
    assert_eq!(candidate_moves(&corner, Some(Right)), vec![Up]);
    assert_eq!(candidate_moves(&corner, Some(Up)), vec![Up, Left]);
}

#[test]
fn candidates_are_never_empty() {
    for row in 0..4 {
        for column in 0..4 {
            let board = board_with_gap_at(row, column);
            assert!(!candidate_moves(&board, None).is_empty());
            for last in ALL {
                let candidates = candidate_moves(&board, Some(last));
                assert!(!candidates.is_empty());
                assert!(!candidates.contains(&last.opposite()));
            }
        }
    }
}

#[test]
fn step_makes_a_candidate_move() {
    let mut board = Board::initialize();
    assert_eq!(shuffle_step(&mut board, None, Some(Up)), Some(Up));
    assert_eq!(board.empty_pos(), (2, 3));
    assert_eq!(board.cells(), [[1, 2, 3, 4], [5, 6, 7, 8], [9, 10, 11, 0], [13, 14, 15, 12]]);
    assert_eq!(shuffle_step(&mut board, Some(Up), Some(Left)), Some(Left));
    assert_eq!(board.empty_pos(), (2, 2));
    assert_eq!(board.cells(), [[1, 2, 3, 4], [5, 6, 7, 8], [9, 10, 0, 11], [13, 14, 15, 12]]);
}

#[test]
fn step_skips_a_move_that_undoes_the_last() {
    let mut board = Board::initialize();
    assert_eq!(shuffle_step(&mut board, None, Some(Up)), Some(Up));
    let before = board;
    assert_eq!(shuffle_step(&mut board, Some(Up), Some(Down)), None);
    assert_eq!(board, before);
}

#[test]
fn step_skips_a_move_off_the_board() {
    let mut board = Board::initialize();
    assert_eq!(shuffle_step(&mut board, None, Some(Down)), None);
    assert_eq!(shuffle_step(&mut board, None, Some(Right)), None);
    assert_eq!(shuffle_step(&mut board, Some(Left), Some(Down)), None);
    assert_eq!(board, Board::initialize());
}

#[test]
fn step_skips_when_nothing_was_drawn() {
    let mut board = Board::initialize();
    assert_eq!(shuffle_step(&mut board, None, None), None);
    assert_eq!(shuffle_step(&mut board, Some(Up), None), None);
    assert_eq!(board, Board::initialize());
}

#[test]
fn scripted_walk_follows_the_picks() {
    // A deterministic source of picks: always the last candidate.
    let mut board = Board::initialize();
    let mut last = None;
    let mut moves = Vec::new();
    for _ in 0..12 {
        let candidates = candidate_moves(&board, last);
        let pick = candidates[candidates.len() - 1];
        let made = shuffle_step(&mut board, last, Some(pick));
        assert_eq!(made, Some(pick));
        moves.push(pick);
        last = made;
    }
    assert_eq!(moves, vec![Left, Left, Left, Up, Right, Right, Right, Down, Left, Left, Left, Up]);
    assert_eq!(board.empty_pos(), (2, 0));
    assert_eq!(board.cells(), [[1, 2, 3, 4], [5, 6, 7, 8], [0, 11, 12, 15], [10, 9, 13, 14]]);
}

#[test]
fn picks_of_zero_take_the_first_candidate_each_turn() {
    let mut board = Board::initialize();
    let moves = shuffle_with_picks(&mut board, &vec![0; 8]);
    assert_eq!(moves, vec![Up, Up, Up, Left, Down, Down, Down, Left]);
    assert_eq!(board.cells(), [[1, 2, 7, 3], [5, 6, 11, 4], [9, 10, 15, 8], [13, 0, 14, 12]]);
    assert_eq!(board.empty_pos(), (3, 1));
}

#[test]
fn picks_count_modulo_the_number_of_candidates() {
    let mut board = Board::initialize();
    let moves = shuffle_with_picks(&mut board, &vec![5, 7, 2, 5, 4]);
    assert_eq!(moves, vec![Left, Left, Up, Right, Down]);
    assert_eq!(board.cells(), [[1, 2, 3, 4], [5, 6, 7, 8], [9, 11, 14, 12], [13, 10, 0, 15]]);
    assert_eq!(board.empty_pos(), (3, 2));

    let mut same = Board::initialize();
    assert_eq!(shuffle_with_picks(&mut same, &vec![1, 1, 0, 2, 1]), moves);
    assert_eq!(same, board);
}

#[test]
fn same_picks_give_the_same_walk() {
    let picks: Vec<usize> = (0..1000).map(|i| (i * 7919 + 13) % 1009).collect();
    let mut first = Board::initialize();
    let mut second = Board::initialize();
    let moves = shuffle_with_picks(&mut first, &picks);
    assert_eq!(shuffle_with_picks(&mut second, &picks), moves);
    assert_eq!(first, second);
    assert_eq!(moves.len(), 1000);
}

#[test]
fn picked_walk_is_legal_and_never_steps_back() {
    let expected: Vec<i32> = (0..16).collect();
    for seed in 0..50usize {
        let picks: Vec<usize> = (0..300).map(|i| (i * 31 + seed * 17 + i * i * seed) % 997).collect();
        let mut board = Board::initialize();
        let moves = shuffle_with_picks(&mut board, &picks);
        assert_eq!(moves.len(), picks.len());
        let mut replay = Board::initialize();
        let mut last = None;
        for (turn, d) in moves.iter().enumerate() {
            let candidates = candidate_moves(&replay, last);
            assert_eq!(*d, candidates[picks[turn] % candidates.len()]);
            if let Some(before) = last {
                assert_ne!(*d, Direction::opposite(&before));
            }
            assert!(replay.slide(*d));
            last = Some(*d);
        }
        assert_eq!(replay, board);
        assert_eq!(sorted_values(board.cells()), expected);
    }
}

#[test]
fn no_picks_make_no_move() {
    let mut board = Board::initialize();
    assert!(shuffle_with_picks(&mut board, &Vec::new()).is_empty());
    assert_eq!(board, Board::initialize());
}

#[test]
fn largest_pick_is_taken_modulo_too() {
    let mut board = Board::initialize();
    let moves = shuffle_with_picks(&mut board, &vec![usize::MAX]);
    let expected = [Up, Left][usize::MAX % 2];
    assert_eq!(moves, vec![expected]);
}

#[test]
fn make_pazzle_gives_an_arrangement() {
    assert_eq!(SHUFFLE_MOVES, 1000);
    let expected: Vec<i32> = (0..16).collect();
    for _ in 0..20 {
        let panel = make_pazzle();
        assert_eq!(sorted_values(panel), expected);
        let board = Board::from_cells(panel).unwrap();
        assert_eq!(find_zero(&panel), Some(board.empty_pos()));
    }
}

#[test]
fn make_pazzle_keeps_the_parity_of_a_walk_of_even_length() {
    // A thousand moves bring the gap to a cell whose row and column sum to
    // an even number, as the corner it started from.
    for _ in 0..20 {
        let panel = make_pazzle();
        let (row, column) = find_zero(&panel).unwrap();
        assert_eq!((row + column) % 2, 0);
    }
}
