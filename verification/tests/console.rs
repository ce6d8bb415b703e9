use fifteen_puzzle::board::Board;
use fifteen_puzzle::console::{command_for, parse_command, render_board, Command};
use fifteen_puzzle::direction::Direction;

#[test]
fn numbers_stand_for_commands() {
    assert_eq!(command_for(0), Some(Command::Quit));
    assert_eq!(command_for(1), Some(Command::Move(Direction::Up)));
    assert_eq!(command_for(2), Some(Command::Move(Direction::Down)));
    assert_eq!(command_for(3), Some(Command::Move(Direction::Left)));
    assert_eq!(command_for(4), Some(Command::Move(Direction::Right)));
}

#[test]
fn other_numbers_stand_for_nothing() {
    assert_eq!(command_for(5), None);
    assert_eq!(command_for(-1), None);
    assert_eq!(command_for(10), None);
    assert_eq!(command_for(i64::MAX), None);
    assert_eq!(command_for(i64::MIN), None);
}

#[test]
fn line_with_a_number_is_read() {
    assert_eq!(parse_command(b"0\n"), Some(Command::Quit));
    assert_eq!(parse_command(b"1\n"), Some(Command::Move(Direction::Up)));
    assert_eq!(parse_command(b"2\n"), Some(Command::Move(Direction::Down)));
    assert_eq!(parse_command(b"3\n"), Some(Command::Move(Direction::Left)));
    assert_eq!(parse_command(b"4\n"), Some(Command::Move(Direction::Right)));
}

#[test]
fn blanks_around_the_number_do_not_count() {
    assert_eq!(parse_command(b"3"), Some(Command::Move(Direction::Left)));
    assert_eq!(parse_command(b"  3"), Some(Command::Move(Direction::Left)));
    assert_eq!(parse_command(b"3  "), Some(Command::Move(Direction::Left)));
    assert_eq!(parse_command(b" \t 4 \r\n"), Some(Command::Move(Direction::Right)));
    assert_eq!(parse_command(b"\n0\n"), Some(Command::Quit));
}

#[test]
fn zeros_before_the_digit_do_not_count() {
    assert_eq!(parse_command(b"02\n"), Some(Command::Move(Direction::Down)));
    assert_eq!(parse_command(b"0004"), Some(Command::Move(Direction::Right)));
    assert_eq!(parse_command(b"00"), Some(Command::Quit));
    assert_eq!(parse_command(b"  000  "), Some(Command::Quit));
}

#[test]
fn line_without_a_number_is_refused() {
    assert_eq!(parse_command(b""), None);
    assert_eq!(parse_command(b"\n"), None);
    assert_eq!(parse_command(b"   \t\r\n"), None);
    assert_eq!(parse_command(b"up\n"), None);
    assert_eq!(parse_command(b"x"), None);
    assert_eq!(parse_command(b"1a"), None);
    assert_eq!(parse_command(b"a1"), None);
    assert_eq!(parse_command(b"1 2"), None);
    assert_eq!(parse_command(b"0 0"), None);
    assert_eq!(parse_command(b"-1"), None);
    assert_eq!(parse_command(b"1.0"), None);
    assert_eq!(parse_command("１".as_bytes()), None);
    assert_eq!(parse_command(&[0xff, b'1']), None);
}

#[test]
fn number_off_the_set_is_refused() {
    assert_eq!(parse_command(b"5\n"), None);
    assert_eq!(parse_command(b"9"), None);
    assert_eq!(parse_command(b"10"), None);
    assert_eq!(parse_command(b"12"), None);
    assert_eq!(parse_command(b"40"), None);
    assert_eq!(parse_command(b"005"), None);
    assert_eq!(parse_command(b"99999999999999999999999"), None);
}

#[test]
fn solved_board_as_text() {
    let text = render_board(&Board::initialize());
    assert_eq!(
        String::from_utf8(text).unwrap(),
        " 1  2  3  4 \n 5  6  7  8 \n 9 10 11 12 \n13 14 15    \n"
    );
}

#[test]
fn empty_slot_is_three_blanks_wherever_it_is() {
    let board = Board::from_cells([[5, 1, 2, 4], [9, 6, 3, 8], [13, 0, 7, 12], [14, 10, 11, 15]]).unwrap();
    assert_eq!(
        String::from_utf8(render_board(&board)).unwrap(),
        " 5  1  2  4 \n 9  6  3  8 \n13     7 12 \n14 10 11 15 \n"
    );
    let board = Board::from_cells([[0, 1, 2, 3], [4, 5, 6, 7], [8, 9, 10, 11], [12, 13, 14, 15]]).unwrap();
    assert_eq!(
        String::from_utf8(render_board(&board)).unwrap(),
        "    1  2  3 \n 4  5  6  7 \n 8  9 10 11 \n12 13 14 15 \n"
    );
}

#[test]
fn text_has_four_lines_of_twelve_columns() {
    let mut board = Board::initialize();
    for d in [Direction::Down, Direction::Right, Direction::Down, Direction::Right, Direction::Up] {
        board.apply_move(d);
        let text = String::from_utf8(render_board(&board)).unwrap();
        assert_eq!(text.len(), 52);
        let lines: Vec<&str> = text.lines().collect();
        assert_eq!(lines.len(), 4);
        for line in lines {
            assert_eq!(line.len(), 12);
        }
    }
}

#[test]
fn typed_line_drives_the_board() {
    let mut board = Board::initialize();
    // "2" moves a tile down: the tile above the gap.
    match parse_command(b"2\n") {
        Some(Command::Move(direction)) => assert_eq!(board.apply_move(direction), Some((2, 3))),
        other => panic!("unexpected command {:?}", other),
    }
    assert_eq!(
        String::from_utf8(render_board(&board)).unwrap(),
        " 1  2  3  4 \n 5  6  7  8 \n 9 10 11    \n13 14 15 12 \n"
    );
    // "1" would move a tile up into the gap, which is what solves it again.
    match parse_command(b"1\n") {
        Some(Command::Move(direction)) => assert_eq!(board.apply_move(direction), Some((3, 3))),
        other => panic!("unexpected command {:?}", other),
    }
    assert!(board.is_solved());
    // A refused line leaves the board alone.
    let before = board;
    assert_eq!(parse_command(b"7\n"), None);
    assert_eq!(board, before);
}
