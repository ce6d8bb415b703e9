//! The executable board: sixteen cells and the cached position of the empty
//! slot, with the moves that act on them.

use crate::direction::Direction;
use crate::model::{
    adjacent, flatten, in_bounds, is_arrangement, lemma_arrangement_onto, lemma_solved_well_formed,
    lemma_swap_arrangement, solved_grid, swap_cells, BoardState,
};
use vstd::prelude::*;

verus! {

/// The number of rows, and of columns, of the board.
pub const BOARD_SIZE: usize = 4;

/// The cells of the solved board: the tiles in row-major order, then the
/// empty slot, which is written as 0.
pub const SOLVED_PANEL: [[i32; BOARD_SIZE]; BOARD_SIZE] = [
    [1, 2, 3, 4],
    [5, 6, 7, 8],
    [9, 10, 11, 12],
    [13, 14, 15, 0],
];

/// The cells of a panel as a grid of integers.
pub open spec fn grid_view(panel: [[i32; 4]; 4]) -> Seq<Seq<int>> {
    Seq::new(4, |r: int| Seq::new(4, |c: int| panel[r][c] as int))
}

/// The cell `(r1, c1)` comes before the cell `(r2, c2)` in row-major order.
pub open spec fn precedes(r1: int, c1: int, r2: int, c2: int) -> bool {
    r1 < r2 || (r1 == r2 && c1 < c2)
}

/// `found` is the first cell of `g`, in row-major order, that holds `tile`,
/// or `None` where no cell holds it.
pub open spec fn is_first_cell_with(g: Seq<Seq<int>>, tile: int, found: Option<(int, int)>) -> bool {
    match found {
        Some((y, x)) => {
            &&& in_bounds((y, x))
            &&& g[y][x] == tile
            &&& forall|r: int, c: int|
                0 <= r < 4 && 0 <= c < 4 && precedes(r, c, y, x) ==> #[trigger] g[r][c] != tile
        },
        None => forall|r: int, c: int| 0 <= r < 4 && 0 <= c < 4 ==> #[trigger] g[r][c] != tile,
    }
}

/// The position `(row, column)` as integers.
pub open spec fn position_view(p: (usize, usize)) -> (int, int) {
    (p.0 as int, p.1 as int)
}

/// The same for a position that may be missing.
pub open spec fn found_view(found: Option<(usize, usize)>) -> Option<(int, int)> {
    match found {
        Some(p) => Some(position_view(p)),
        None => None,
    }
}

/// Scans the panel row by row for the first cell that holds `tile`.
pub fn find_tile(panel: &[[i32; BOARD_SIZE]; BOARD_SIZE], tile: i32) -> (found: Option<
    (usize, usize),
>)
    ensures
        is_first_cell_with(grid_view(*panel), tile as int, found_view(found)),
{
    let ghost g = grid_view(*panel);
    let mut y: usize = 0;
    while y < BOARD_SIZE
        invariant
            y <= 4,
            g == grid_view(*panel),
            forall|r: int, c: int| 0 <= r < y && 0 <= c < 4 ==> #[trigger] g[r][c] != tile,
        decreases 4 - y,
    {
        let mut x: usize = 0;
        while x < BOARD_SIZE
            invariant
                y < 4,
                x <= 4,
                g == grid_view(*panel),
                forall|r: int, c: int| 0 <= r < y && 0 <= c < 4 ==> #[trigger] g[r][c] != tile,
                forall|c: int| 0 <= c < x ==> #[trigger] g[y as int][c] != tile,
            decreases 4 - x,
        {
            if panel[y][x] == tile {
                assert(g[y as int][x as int] == tile);
                return Some((y, x));
            }
            assert(g[y as int][x as int] != tile);
            x += 1;
        }
        y += 1;
    }
    None
}

/// Finds the empty slot of a panel: the first cell, row by row, that holds 0.
pub fn find_zero(panel: &[[i32; BOARD_SIZE]; BOARD_SIZE]) -> (found: Option<(usize, usize)>)
    ensures
        is_first_cell_with(grid_view(*panel), 0, found_view(found)),
{
    find_tile(panel, 0)
}

/// Whether two panels hold the same value in every cell.
pub fn same_cells(a: &[[i32; BOARD_SIZE]; BOARD_SIZE], b: &[[i32; BOARD_SIZE]; BOARD_SIZE]) -> (same:
    bool)
    ensures
        same == (grid_view(*a) == grid_view(*b)),
{
    let ghost ga = grid_view(*a);
    let ghost gb = grid_view(*b);
    let mut y: usize = 0;
    while y < BOARD_SIZE
        invariant
            y <= 4,
            ga == grid_view(*a),
            gb == grid_view(*b),
            forall|r: int, c: int| 0 <= r < y && 0 <= c < 4 ==> #[trigger] ga[r][c] == gb[r][c],
        decreases 4 - y,
    {
        let mut x: usize = 0;
        while x < BOARD_SIZE
            invariant
                y < 4,
                x <= 4,
                ga == grid_view(*a),
                gb == grid_view(*b),
                forall|r: int, c: int| 0 <= r < y && 0 <= c < 4 ==> #[trigger] ga[r][c] == gb[r][c],
                forall|c: int| 0 <= c < x ==> #[trigger] ga[y as int][c] == gb[y as int][c],
            decreases 4 - x,
        {
            if a[y][x] != b[y][x] {
                assert(ga[y as int][x as int] != gb[y as int][x as int]);
                return false;
            }
            assert(ga[y as int][x as int] == gb[y as int][x as int]);
            x += 1;
        }
        y += 1;
    }
    proof {
        assert forall|r: int| 0 <= r < 4 implies #[trigger] ga[r] == gb[r] by {
            assert forall|c: int| 0 <= c < 4 implies ga[r][c] == gb[r][c] by {}
            assert(ga[r] =~= gb[r]);
        }
        assert(ga =~= gb);
    }
    true
}

/// The solved panel is the solved grid of the model.
pub proof fn lemma_solved_panel()
    ensures
        grid_view(SOLVED_PANEL) == solved_grid(),
{
    let g = grid_view(SOLVED_PANEL);
    assert forall|r: int| 0 <= r < 4 implies #[trigger] g[r] == solved_grid()[r] by {
        assert(g[r] =~= solved_grid()[r]);
    }
    assert(g =~= solved_grid());
}

/// A board of the puzzle. Its cells always hold each of the values 0 to 15
/// once, and the cached position of the empty slot is always that of the 0.
#[derive(Debug, Clone, Copy, PartialEq, Eq)]
pub struct Board {
    cells: [[i32; BOARD_SIZE]; BOARD_SIZE],
    empty: (usize, usize),
}

impl View for Board {
    type V = BoardState;

    closed spec fn view(&self) -> BoardState {
        BoardState { cells: grid_view(self.cells), empty: position_view(self.empty) }
    }
}

impl Board {
    /// What holds of every board at all times.
    #[verifier::type_invariant]
    pub open spec fn consistent(self) -> bool {
        self@.well_formed()
    }

    /// The solved board.
    pub fn initialize() -> (board: Board)
        ensures
            board@ == BoardState::solved(),
            board@.well_formed(),
    {
        proof {
            lemma_solved_panel();
            lemma_solved_well_formed();
        }
        Board { cells: SOLVED_PANEL, empty: (3, 3) }
    }

    /// The cells of the board, by row and column.
    pub fn cells(&self) -> (panel: [[i32; BOARD_SIZE]; BOARD_SIZE])
        ensures
            grid_view(panel) == self@.cells,
            self@.well_formed(),
    {
        proof {
            use_type_invariant(self);
        }
        self.cells
    }

    /// The position `(row, column)` of the empty slot.
    pub fn empty_pos(&self) -> (p: (usize, usize))
        ensures
            position_view(p) == self@.empty,
            self@.well_formed(),
        no_unwind
    {
        proof {
            use_type_invariant(self);
        }
        self.empty
    }

    /// Scans the cells for the empty slot. The scan always finds it, where
    /// the cached position says it is.
    pub fn find_empty(&self) -> (p: (usize, usize))
        ensures
            position_view(p) == self@.empty,
    {
        proof {
            use_type_invariant(self);
        }
        match find_zero(&self.cells) {
            Some(p) => {
                assert(self@.cells[p.0 as int][p.1 as int] == 0);
                p
            },
            None => {
                assert(self@.cells[self@.empty.0][self@.empty.1] == 0);
                self.empty
            },
        }
    }

    /// Whether every cell holds what the solved board holds there.
    pub fn is_solved(&self) -> (solved: bool)
        ensures
            solved == self@.is_solved(),
    {
        proof {
            lemma_solved_panel();
        }
        same_cells(&self.cells, &SOLVED_PANEL)
    }

    /// The board with the given cells, where they hold each of the values 0
    /// to 15 once; `None` for any other panel.
    pub fn from_cells(panel: [[i32; BOARD_SIZE]; BOARD_SIZE]) -> (board: Option<Board>)
        ensures
            board is Some <==> is_arrangement(grid_view(panel)),
            board matches Some(b) ==> b@.cells == grid_view(panel) && b@.well_formed(),
    {
        let ghost g = grid_view(panel);
        let ghost flat = flatten(g);
        let mut seen: [bool; 16] = [false; 16];
        let mut i: usize = 0;
        while i < 16
            invariant
                i <= 16,
                g == grid_view(panel),
                flat == flatten(g),
                forall|k: int| 0 <= k < i ==> 0 <= #[trigger] flat[k] < 16,
                forall|k1: int, k2: int|
                    0 <= k1 < k2 < i ==> #[trigger] flat[k1] != #[trigger] flat[k2],
                forall|v: int|
                    0 <= v < 16 ==> (#[trigger] seen[v] <==> exists|k: int|
                        0 <= k < i && #[trigger] flat[k] == v),
            decreases 16 - i,
        {
            let tile: i32 = panel[i / 4][i % 4];
            assert(flat[i as int] == tile);
            if tile < 0 || tile >= 16 {
                assert(!(0 <= g[i as int / 4][i as int % 4] < 16));
                return None;
            }
            if seen[tile as usize] {
                proof {
                    let k = choose|k: int| 0 <= k < i && #[trigger] flat[k] == tile;
                    assert(k / 4 != i as int / 4 || k % 4 != i as int % 4);
                    assert(g[k / 4][k % 4] == g[i as int / 4][i as int % 4]);
                }
                return None;
            }
            let ghost before = seen;
            seen[tile as usize] = true;
            proof {
                assert forall|v: int| 0 <= v < 16 implies (#[trigger] seen[v] <==> exists|k: int|
                    0 <= k < i + 1 && #[trigger] flat[k] == v) by {
                    if v == tile {
                        assert(flat[i as int] == v);
                    } else {
                        assert(seen[v] == before[v]);
                        if before[v] {
                            let k = choose|k: int| 0 <= k < i && #[trigger] flat[k] == v;
                            assert(0 <= k < i + 1 && flat[k] == v);
                        }
                    }
                }
            }
            i += 1;
        }
        proof {
            assert forall|r: int, c: int| 0 <= r < 4 && 0 <= c < 4 implies 0 <= #[trigger] g[r][c]
                < 16 by {
                assert(flat[4 * r + c] == g[r][c]);
            }
            assert forall|r1: int, c1: int, r2: int, c2: int|
                0 <= r1 < 4 && 0 <= c1 < 4 && 0 <= r2 < 4 && 0 <= c2 < 4 && (r1 != r2 || c1 != c2)
                implies #[trigger] g[r1][c1] != #[trigger] g[r2][c2] by {
                assert(flat[4 * r1 + c1] == g[r1][c1]);
                assert(flat[4 * r2 + c2] == g[r2][c2]);
            }
            assert(is_arrangement(g));
            lemma_arrangement_onto(g);
            assert(flat.contains(0));
        }
        match find_zero(&panel) {
            Some(p) => Some(Board { cells: panel, empty: p }),
            None => {
                proof {
                    let k = choose|k: int| 0 <= k < flat.len() && flat[k] == 0;
                    assert(g[k / 4][k % 4] == 0);
                }
                None
            },
        }
    }

    /// Moves the tile at row `y`, column `x` into the empty slot, which is
    /// then at `(y, x)`.
    pub(crate) fn swap_with_empty(&mut self, y: usize, x: usize)
        requires
            y < 4,
            x < 4,
        ensures
            final(self)@.cells == swap_cells(
                old(self)@.cells,
                old(self)@.empty,
                (y as int, x as int),
            ),
            final(self)@.empty == (y as int, x as int),
            final(self)@.well_formed(),
        no_unwind
    {
        proof {
            use_type_invariant(&*self);
        }
        let ghost before = self@;
        let (ey, ex) = self.empty;
        let mut cells = self.cells;
        cells[ey][ex] = cells[y][x];
        cells[y][x] = 0;
        proof {
            let target = (y as int, x as int);
            let swapped = swap_cells(before.cells, before.empty, target);
            assert forall|r: int| 0 <= r < 4 implies #[trigger] grid_view(cells)[r] == swapped[r] by {
                assert(grid_view(cells)[r] =~= swapped[r]);
            }
            assert(grid_view(cells) =~= swapped);
            lemma_swap_arrangement(before.cells, before.empty, target);
        }
        *self = Board { cells, empty: (y, x) };
    }

    /// Moves the empty slot one step in direction `d`, trading places with
    /// the tile there. Returns whether there was such a tile; if not, the
    /// board stays as it is.
    pub fn slide(&mut self, d: Direction) -> (moved: bool)
        ensures
            moved == old(self)@.can_slide(d),
            final(self)@ == old(self)@.slide(d),
            final(self)@.well_formed(),
            !moved ==> *final(self) == *old(self),
        no_unwind
    {
        proof {
            use_type_invariant(&*self);
        }
        let (dy, dx) = d.delta();
        let (ey, ex) = self.empty;
        let target_y: isize = ey as isize + dy;
        let target_x: isize = ex as isize + dx;
        if target_y >= 0 && target_y < BOARD_SIZE as isize && target_x >= 0 && target_x
            < BOARD_SIZE as isize {
            self.swap_with_empty(target_y as usize, target_x as usize);
            true
        } else {
            false
        }
    }

    /// Moves the tile next to the empty slot in the given direction, into
    /// the slot: the tile that travels is the one on the opposite side of
    /// the slot. Returns the new position of the empty slot, or `None`,
    /// with the board unchanged, where no tile is there to travel.
    pub fn apply_move(&mut self, direction: Direction) -> (moved_to: Option<(usize, usize)>)
        ensures
            moved_to is Some <==> old(self)@.can_slide(direction.opposite_spec()),
            moved_to matches Some(p) ==> position_view(p) == final(self)@.empty,
            final(self)@ == old(self)@.move_tile(direction),
            final(self)@.well_formed(),
            moved_to is None ==> *final(self) == *old(self),
        no_unwind
    {
        if self.slide(direction.opposite()) {
            Some(self.empty_pos())
        } else {
            None
        }
    }

    /// Moves the tile at `target` into the empty slot, where `target` lies on
    /// the board and next to the slot. Returns whether it did; if not, the
    /// board stays as it is.
    pub fn apply_move_at(&mut self, target: (usize, usize)) -> (moved: bool)
        ensures
            moved == (in_bounds(position_view(target)) && adjacent(
                position_view(target),
                old(self)@.empty,
            )),
            final(self)@ == old(self)@.click(position_view(target)),
            final(self)@.well_formed(),
            !moved ==> *final(self) == *old(self),
        no_unwind
    {
        proof {
            use_type_invariant(&*self);
        }
        let (y, x) = target;
        let (ey, ex) = self.empty;
        if y < BOARD_SIZE && x < BOARD_SIZE && ((y == ey && (x + 1 == ex || ex + 1 == x)) || (x
            == ex && (y + 1 == ey || ey + 1 == y))) {
            self.swap_with_empty(y, x);
            true
        } else {
            false
        }
    }
}

} // verus!
