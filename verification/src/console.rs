//! The game on a terminal: what a line typed by the player asks for, and
//! the board as text.

use crate::board::{grid_view, Board, BOARD_SIZE};
use crate::direction::Direction;
use crate::model::is_arrangement;
use vstd::prelude::*;

verus! {

/// What the player asks for on the terminal.
#[derive(Debug, Clone, Copy, PartialEq, Eq, Structural)]
pub enum Command {
    /// Leave the game.
    Quit,
    /// Let the tile next to the empty slot travel in this direction.
    Move(Direction),
}

/// The command that a number stands for: 0 leaves the game, and 1 to 4 move
/// a tile up, down, left and right. No other number stands for a command.
pub open spec fn command_of(number: int) -> Option<Command> {
    if number == 0 {
        Some(Command::Quit)
    } else if number == 1 {
        Some(Command::Move(Direction::Up))
    } else if number == 2 {
        Some(Command::Move(Direction::Down))
    } else if number == 3 {
        Some(Command::Move(Direction::Left))
    } else if number == 4 {
        Some(Command::Move(Direction::Right))
    } else {
        None
    }
}

/// The byte is a blank: a space, a tab, a line feed or a carriage return.
pub open spec fn is_blank(byte: u8) -> bool {
    byte == 32 || byte == 9 || byte == 10 || byte == 13
}

/// The part of the line from `start` up to `end` is the numeral of `number`,
/// a number from 0 to 4, and blanks are all there is around it. A numeral
/// is one decimal digit, which zeros may precede.
pub open spec fn holds_numeral(line: Seq<u8>, start: int, end: int, number: int) -> bool {
    &&& 0 <= start < end <= line.len()
    &&& 0 <= number <= 4
    &&& forall|i: int| 0 <= i < start ==> is_blank(#[trigger] line[i])
    &&& forall|i: int| end <= i < line.len() ==> is_blank(#[trigger] line[i])
    &&& forall|i: int| start <= i < end - 1 ==> #[trigger] line[i] == 48
    &&& line[end - 1] == 48 + number
}

/// The line reads as `number`.
pub open spec fn reads_as(line: Seq<u8>, number: int) -> bool {
    exists|start: int, end: int| holds_numeral(line, start, end, number)
}

/// The command that a number stands for, if it stands for one.
pub fn command_for(number: i64) -> (command: Option<Command>)
    ensures
        command == command_of(number as int),
{
    if number == 0 {
        Some(Command::Quit)
    } else if number == 1 {
        Some(Command::Move(Direction::Up))
    } else if number == 2 {
        Some(Command::Move(Direction::Down))
    } else if number == 3 {
        Some(Command::Move(Direction::Left))
    } else if number == 4 {
        Some(Command::Move(Direction::Right))
    } else {
        None
    }
}

/// Whether a byte is a blank.
fn blank(byte: u8) -> (yes: bool)
    ensures
        yes == is_blank(byte),
{
    byte == 32 || byte == 9 || byte == 10 || byte == 13
}

/// A numeral starts at the first byte of the line that is no blank and
/// ends behind the last one.
proof fn lemma_numeral_place(line: Seq<u8>, start: int, end: int, number: int, first: int, last: int)
    requires
        holds_numeral(line, start, end, number),
        0 <= first <= last < line.len(),
        !is_blank(line[first]),
        !is_blank(line[last]),
        forall|i: int| 0 <= i < first ==> is_blank(#[trigger] line[i]),
        forall|i: int| last < i < line.len() ==> is_blank(#[trigger] line[i]),
    ensures
        start == first,
        end == last + 1,
{
    assert(!is_blank(line[start]));
    assert(!is_blank(line[end - 1]));
    if start < first {
        assert(is_blank(line[start]));
    }
    if first < start {
        assert(is_blank(line[first]));
    }
    if end - 1 > last {
        assert(is_blank(line[end - 1]));
    }
    if last > end - 1 {
        assert(is_blank(line[last]));
    }
}

/// Reads the command that the player typed. The line must hold, between
/// blanks if any, the numeral of a number from 0 to 4; the command is then
/// the one that the number stands for. Any other line is refused.
pub fn parse_command(line: &[u8]) -> (command: Option<Command>)
    ensures
        command matches Some(c) ==> exists|number: int|
            reads_as(line@, number) && command_of(number) == Some(c),
        command is None ==> forall|number: int| !reads_as(line@, number),
{
    let mut first: usize = 0;
    while first < line.len() && blank(line[first])
        invariant
            first <= line@.len(),
            forall|i: int| 0 <= i < first ==> is_blank(#[trigger] line@[i]),
        decreases line@.len() - first,
    {
        first += 1;
    }
    if first == line.len() {
        assert forall|number: int| !reads_as(line@, number) by {
            if reads_as(line@, number) {
                let (start, end) = choose|start: int, end: int|
                    holds_numeral(line@, start, end, number);
                assert(is_blank(line@[start]));
            }
        }
        return None;
    }
    let mut last: usize = line.len() - 1;
    while last > first && blank(line[last])
        invariant
            first <= last < line@.len(),
            forall|i: int| last < i < line@.len() ==> is_blank(#[trigger] line@[i]),
        decreases last,
    {
        last -= 1;
    }
    let mut at: usize = first;
    while at < last
        invariant
            first <= at <= last < line@.len(),
            !is_blank(line@[first as int]),
            !is_blank(line@[last as int]),
            forall|i: int| 0 <= i < first ==> is_blank(#[trigger] line@[i]),
            forall|i: int| last < i < line@.len() ==> is_blank(#[trigger] line@[i]),
            forall|i: int| first <= i < at ==> #[trigger] line@[i] == 48,
        decreases last - at,
    {
        if line[at] != 48 {
            assert forall|number: int| !reads_as(line@, number) by {
                if reads_as(line@, number) {
                    let (start, end) = choose|start: int, end: int|
                        holds_numeral(line@, start, end, number);
                    lemma_numeral_place(line@, start, end, number, first as int, last as int);
                    assert(line@[at as int] == 48);
                }
            }
            return None;
        }
        at += 1;
    }
    let digit = line[last];
    if digit < 48 || digit > 52 {
        assert forall|number: int| !reads_as(line@, number) by {
            if reads_as(line@, number) {
                let (start, end) = choose|start: int, end: int|
                    holds_numeral(line@, start, end, number);
                lemma_numeral_place(line@, start, end, number, first as int, last as int);
            }
        }
        return None;
    }
    let number: i64 = (digit - 48) as i64;
    assert(holds_numeral(line@, first as int, last + 1, number as int));
    command_for(number)
}

/// The text of one cell, three bytes wide: the value in two columns, flush
/// right, and a blank behind it. The empty slot is all blank.
pub open spec fn cell_text(value: int) -> Seq<u8> {
    if value == 0 {
        seq![32u8, 32u8, 32u8]
    } else if value < 10 {
        seq![32u8, (48 + value) as u8, 32u8]
    } else {
        seq![(48 + value / 10) as u8, (48 + value % 10) as u8, 32u8]
    }
}

/// The text of one row: its four cells, and a line feed.
pub open spec fn row_text(row: Seq<int>) -> Seq<u8> {
    cell_text(row[0]) + cell_text(row[1]) + cell_text(row[2]) + cell_text(row[3]) + seq![10u8]
}

/// The text of a board: its four rows, first to last.
pub open spec fn board_text(cells: Seq<Seq<int>>) -> Seq<u8> {
    row_text(cells[0]) + row_text(cells[1]) + row_text(cells[2]) + row_text(cells[3])
}

/// Writes the text of one cell behind `text`.
fn push_cell(text: &mut Vec<u8>, value: i32)
    requires
        0 <= value < 16,
    ensures
        final(text)@ == old(text)@ + cell_text(value as int),
{
    if value == 0 {
        text.push(32);
        text.push(32);
    } else if value < 10 {
        text.push(32);
        text.push(48 + value as u8);
    } else {
        text.push(48 + (value / 10) as u8);
        text.push(48 + (value % 10) as u8);
    }
    text.push(32);
    assert(text@ =~= old(text)@ + cell_text(value as int));
}

/// The board as text, ready to be written to the terminal: four lines of
/// four cells.
pub fn render_board(board: &Board) -> (text: Vec<u8>)
    ensures
        text@ == board_text(board@.cells),
{
    let cells = board.cells();
    let ghost grid = grid_view(cells);
    let mut text: Vec<u8> = Vec::new();
    let mut y: usize = 0;
    while y < BOARD_SIZE
        invariant
            y <= 4,
            grid == grid_view(cells),
            is_arrangement(grid),
            text@ == (if y == 0 {
                Seq::<u8>::empty()
            } else if y == 1 {
                row_text(grid[0])
            } else if y == 2 {
                row_text(grid[0]) + row_text(grid[1])
            } else if y == 3 {
                row_text(grid[0]) + row_text(grid[1]) + row_text(grid[2])
            } else {
                board_text(grid)
            }),
        decreases 4 - y,
    {
        let ghost before = text@;
        let mut x: usize = 0;
        while x < BOARD_SIZE
            invariant
                y < 4,
                x <= 4,
                grid == grid_view(cells),
                is_arrangement(grid),
                text@ == before + (if x == 0 {
                    Seq::<u8>::empty()
                } else if x == 1 {
                    cell_text(grid[y as int][0])
                } else if x == 2 {
                    cell_text(grid[y as int][0]) + cell_text(grid[y as int][1])
                } else if x == 3 {
                    cell_text(grid[y as int][0]) + cell_text(grid[y as int][1]) + cell_text(
                        grid[y as int][2],
                    )
                } else {
                    cell_text(grid[y as int][0]) + cell_text(grid[y as int][1]) + cell_text(
                        grid[y as int][2],
                    ) + cell_text(grid[y as int][3])
                }),
            decreases 4 - x,
        {
            assert(0 <= grid[y as int][x as int] < 16);
            push_cell(&mut text, cells[y][x]);
            x += 1;
        }
        text.push(10);
        assert(text@ =~= before + row_text(grid[y as int]));
        y += 1;
    }
    text
}

} // verus!
