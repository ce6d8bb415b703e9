//! The mathematical model of the puzzle: a grid of integers, the position of
//! the empty slot, and what a move does to both. Every contract of the
//! executable board is stated over this model.

use crate::direction::Direction;
use vstd::multiset::Multiset;
use vstd::prelude::*;

verus! {

/// A position `(row, column)` lies on the 4x4 grid.
pub open spec fn in_bounds(p: (int, int)) -> bool {
    0 <= p.0 < 4 && 0 <= p.1 < 4
}

/// The position one step away from `p` in direction `d`.
pub open spec fn neighbour(p: (int, int), d: Direction) -> (int, int) {
    (p.0 + d.delta_spec().0, p.1 + d.delta_spec().1)
}

/// The distance between two integers.
pub open spec fn gap(x: int, y: int) -> int {
    if x >= y {
        x - y
    } else {
        y - x
    }
}

/// Two positions are orthogonal neighbours: their Manhattan distance is 1.
pub open spec fn adjacent(a: (int, int), b: (int, int)) -> bool {
    gap(a.0, b.0) + gap(a.1, b.1) == 1
}

/// The value that the solved board holds at row `r`, column `c`: the tiles
/// 1 to 15 in row-major order, then the empty slot.
pub open spec fn solved_cell(r: int, c: int) -> int {
    if r == 3 && c == 3 {
        0
    } else {
        4 * r + c + 1
    }
}

/// The grid of the solved board.
pub open spec fn solved_grid() -> Seq<Seq<int>> {
    Seq::new(4, |r: int| Seq::new(4, |c: int| solved_cell(r, c)))
}

/// `g` has four rows of four cells.
pub open spec fn is_grid(g: Seq<Seq<int>>) -> bool {
    g.len() == 4 && forall|r: int| 0 <= r < 4 ==> (#[trigger] g[r]).len() == 4
}

/// The cells of `g` in row-major order.
pub open spec fn flatten(g: Seq<Seq<int>>) -> Seq<int> {
    Seq::new(16, |i: int| g[i / 4][i % 4])
}

/// The sixteen values 0 to 15, each once.
pub open spec fn all_tiles() -> Multiset<int> {
    Seq::new(16, |i: int| i).to_multiset()
}

/// `g` is a grid that holds only the values 0 to 15 and none of them twice.
pub open spec fn is_arrangement(g: Seq<Seq<int>>) -> bool {
    &&& is_grid(g)
    &&& forall|r: int, c: int| 0 <= r < 4 && 0 <= c < 4 ==> 0 <= #[trigger] g[r][c] < 16
    &&& forall|r1: int, c1: int, r2: int, c2: int|
        0 <= r1 < 4 && 0 <= c1 < 4 && 0 <= r2 < 4 && 0 <= c2 < 4 && (r1 != r2 || c1 != c2)
            ==> #[trigger] g[r1][c1] != #[trigger] g[r2][c2]
}

/// The grid `g` with the contents of the cells `a` and `b` exchanged.
pub open spec fn swap_cells(g: Seq<Seq<int>>, a: (int, int), b: (int, int)) -> Seq<Seq<int>> {
    Seq::new(
        4,
        |r: int|
            Seq::new(
                4,
                |c: int|
                    if r == a.0 && c == a.1 {
                        g[b.0][b.1]
                    } else if r == b.0 && c == b.1 {
                        g[a.0][a.1]
                    } else {
                        g[r][c]
                    },
            ),
    )
}

/// A board: its cells by row and column, and where the empty slot is.
#[verifier::ext_equal]
pub struct BoardState {
    pub cells: Seq<Seq<int>>,
    pub empty: (int, int),
}

impl BoardState {
    /// The solved board, with the empty slot in the bottom right corner.
    pub open spec fn solved() -> BoardState {
        BoardState { cells: solved_grid(), empty: (3, 3) }
    }

    /// The cells are an arrangement of the sixteen values, and `empty` is the
    /// position of the cell that holds 0.
    pub open spec fn well_formed(self) -> bool {
        &&& is_arrangement(self.cells)
        &&& in_bounds(self.empty)
        &&& self.cells[self.empty.0][self.empty.1] == 0
    }

    /// Every cell holds what the solved board holds there.
    pub open spec fn is_solved(self) -> bool {
        self.cells == solved_grid()
    }

    /// The empty slot has a neighbour in direction `d`.
    pub open spec fn can_slide(self, d: Direction) -> bool {
        in_bounds(neighbour(self.empty, d))
    }

    /// The empty slot trades places with its neighbour in direction `d`;
    /// where there is no such neighbour, nothing changes.
    pub open spec fn slide(self, d: Direction) -> BoardState {
        let target = neighbour(self.empty, d);
        if in_bounds(target) {
            BoardState { cells: swap_cells(self.cells, self.empty, target), empty: target }
        } else {
            self
        }
    }

    /// The tile next to the empty slot travels in direction `d` into it: the
    /// empty slot goes the opposite way.
    pub open spec fn move_tile(self, d: Direction) -> BoardState {
        self.slide(d.opposite_spec())
    }

    /// The tile at `target` moves into the empty slot if it lies on the grid
    /// next to it; otherwise nothing changes.
    pub open spec fn click(self, target: (int, int)) -> BoardState {
        if in_bounds(target) && adjacent(target, self.empty) {
            BoardState { cells: swap_cells(self.cells, self.empty, target), empty: target }
        } else {
            self
        }
    }

    /// The board after the empty slot has gone through `moves`, first to last.
    pub open spec fn walk(self, moves: Seq<Direction>) -> BoardState
        decreases moves.len(),
    {
        if moves.len() == 0 {
            self
        } else {
            self.walk(moves.drop_last()).slide(moves.last())
        }
    }

    /// Each of `moves` found a neighbour to trade with when its turn came.
    pub open spec fn legal_walk(self, moves: Seq<Direction>) -> bool
        decreases moves.len(),
    {
        moves.len() == 0 || (self.legal_walk(moves.drop_last()) && self.walk(
            moves.drop_last(),
        ).can_slide(moves.last()))
    }

    /// The board can be had from the solved board by legal moves alone.
    pub open spec fn reachable(self) -> bool {
        exists|moves: Seq<Direction>|
            BoardState::solved().legal_walk(moves) && #[trigger] BoardState::solved().walk(moves)
                == self
    }
}

/// No move of the sequence undoes the one before it.
pub open spec fn no_backtrack(moves: Seq<Direction>) -> bool {
    forall|i: int, j: int|
        0 <= i && j == i + 1 && j < moves.len() ==> #[trigger] moves[j] != (#[trigger] moves[
            i
        ]).opposite_spec()
}

/// The solved board is well formed, and it is solved.
pub proof fn lemma_solved_well_formed()
    ensures
        BoardState::solved().well_formed(),
        BoardState::solved().is_solved(),
{
}

/// A board is solved exactly when no cell differs from the solved board.
pub proof fn lemma_solved_cells(s: BoardState)
    requires
        is_grid(s.cells),
    ensures
        s.is_solved() <==> forall|r: int, c: int|
            0 <= r < 4 && 0 <= c < 4 ==> #[trigger] s.cells[r][c] == solved_cell(r, c),
{
    if forall|r: int, c: int|
        0 <= r < 4 && 0 <= c < 4 ==> #[trigger] s.cells[r][c] == solved_cell(r, c) {
        assert forall|r: int| 0 <= r < 4 implies #[trigger] s.cells[r] == solved_grid()[r] by {
            assert forall|c: int| 0 <= c < 4 implies s.cells[r][c] == solved_grid()[r][c] by {
                assert(s.cells[r][c] == solved_cell(r, c));
            }
            assert(s.cells[r] =~= solved_grid()[r]);
        }
        assert(s.cells =~= solved_grid());
    }
}

/// A board that differs from the solved board in some cell is not solved.
pub proof fn lemma_differing_cell_not_solved(s: BoardState, r: int, c: int)
    requires
        0 <= r < 4,
        0 <= c < 4,
        s.cells[r][c] != solved_cell(r, c),
    ensures
        !s.is_solved(),
{
    assert(solved_grid()[r][c] == solved_cell(r, c));
}

/// Exchanging two cells of an arrangement gives an arrangement.
pub proof fn lemma_swap_arrangement(g: Seq<Seq<int>>, a: (int, int), b: (int, int))
    requires
        is_arrangement(g),
        in_bounds(a),
        in_bounds(b),
    ensures
        is_arrangement(swap_cells(g, a, b)),
{
    let h = swap_cells(g, a, b);
    assert forall|r: int, c: int| 0 <= r < 4 && 0 <= c < 4 implies 0 <= #[trigger] h[r][c] < 16 by {
        assert(0 <= g[r][c] < 16);
        assert(0 <= g[a.0][a.1] < 16);
        assert(0 <= g[b.0][b.1] < 16);
    }
    assert forall|r1: int, c1: int, r2: int, c2: int|
        0 <= r1 < 4 && 0 <= c1 < 4 && 0 <= r2 < 4 && 0 <= c2 < 4 && (r1 != r2 || c1 != c2)
        implies #[trigger] h[r1][c1] != #[trigger] h[r2][c2] by {
        let p1 = if r1 == a.0 && c1 == a.1 {
            b
        } else if r1 == b.0 && c1 == b.1 {
            a
        } else {
            (r1, c1)
        };
        let p2 = if r2 == a.0 && c2 == a.1 {
            b
        } else if r2 == b.0 && c2 == b.1 {
            a
        } else {
            (r2, c2)
        };
        assert(h[r1][c1] == g[p1.0][p1.1]);
        assert(h[r2][c2] == g[p2.0][p2.1]);
        assert(p1.0 != p2.0 || p1.1 != p2.1);
    }
}

/// A move keeps a well-formed board well formed.
pub proof fn lemma_slide_well_formed(s: BoardState, d: Direction)
    requires
        s.well_formed(),
    ensures
        s.slide(d).well_formed(),
{
    let target = neighbour(s.empty, d);
    if in_bounds(target) {
        lemma_swap_arrangement(s.cells, s.empty, target);
    }
}

/// A click keeps a well-formed board well formed.
pub proof fn lemma_click_well_formed(s: BoardState, target: (int, int))
    requires
        s.well_formed(),
    ensures
        s.click(target).well_formed(),
{
    if in_bounds(target) && adjacent(target, s.empty) {
        lemma_swap_arrangement(s.cells, s.empty, target);
    }
}

/// A click on a cell next to the empty slot is the move in the direction
/// that leads from the empty slot to that cell.
pub proof fn lemma_click_is_slide(s: BoardState, d: Direction)
    requires
        in_bounds(s.empty),
    ensures
        s.click(neighbour(s.empty, d)) == s.slide(d),
{
}

/// Two well-formed boards with the same cells have the empty slot in the
/// same place.
pub proof fn lemma_cells_fix_empty(a: BoardState, b: BoardState)
    requires
        a.well_formed(),
        b.well_formed(),
        a.cells == b.cells,
    ensures
        a == b,
{
}

/// Any sequence of moves keeps a well-formed board well formed.
pub proof fn lemma_walk_well_formed(s: BoardState, moves: Seq<Direction>)
    requires
        s.well_formed(),
    ensures
        s.walk(moves).well_formed(),
    decreases moves.len(),
{
    if moves.len() > 0 {
        lemma_walk_well_formed(s, moves.drop_last());
        lemma_slide_well_formed(s.walk(moves.drop_last()), moves.last());
    }
}

/// One more move at the end of a walk.
pub proof fn lemma_walk_push(s: BoardState, moves: Seq<Direction>, d: Direction)
    ensures
        s.walk(moves.push(d)) == s.walk(moves).slide(d),
        s.legal_walk(moves.push(d)) == (s.legal_walk(moves) && s.walk(moves).can_slide(d)),
{
    assert(moves.push(d).drop_last() =~= moves);
    assert(moves.push(d).last() == d);
}

/// Every board that legal moves lead to from the solved board is well formed.
pub proof fn lemma_reachable_well_formed(s: BoardState)
    requires
        s.reachable(),
    ensures
        s.well_formed(),
{
    let moves = choose|moves: Seq<Direction>|
        BoardState::solved().legal_walk(moves) && #[trigger] BoardState::solved().walk(moves) == s;
    lemma_solved_well_formed();
    lemma_walk_well_formed(BoardState::solved(), moves);
}

/// A move leads from a board that can be reached from the solved board to
/// one that can be reached too: no move makes a board unsolvable.
pub proof fn lemma_slide_reachable(s: BoardState, d: Direction)
    requires
        s.reachable(),
    ensures
        s.slide(d).reachable(),
{
    if s.can_slide(d) {
        let moves = choose|moves: Seq<Direction>|
            BoardState::solved().legal_walk(moves) && #[trigger] BoardState::solved().walk(moves)
                == s;
        lemma_walk_push(BoardState::solved(), moves, d);
        assert(BoardState::solved().walk(moves.push(d)) == s.slide(d));
    }
}

/// So does any sequence of moves.
pub proof fn lemma_walk_reachable(s: BoardState, moves: Seq<Direction>)
    requires
        s.reachable(),
    ensures
        s.walk(moves).reachable(),
    decreases moves.len(),
{
    if moves.len() > 0 {
        lemma_walk_reachable(s, moves.drop_last());
        lemma_slide_reachable(s.walk(moves.drop_last()), moves.last());
    }
}

/// The solved board can be reached from itself, by no move at all.
pub proof fn lemma_solved_reachable()
    ensures
        BoardState::solved().reachable(),
{
    let none = Seq::<Direction>::empty();
    assert(BoardState::solved().legal_walk(none));
    assert(BoardState::solved().walk(none) == BoardState::solved());
}

/// A move of the empty slot that found a tile to trade with, followed by
/// the opposite move, restores the board.
pub proof fn lemma_round_trip(s: BoardState, d: Direction)
    requires
        is_grid(s.cells),
        in_bounds(s.empty),
        s.can_slide(d),
    ensures
        s.slide(d).can_slide(d.opposite_spec()),
        s.slide(d).slide(d.opposite_spec()) == s,
{
    let t = neighbour(s.empty, d);
    let back = s.slide(d).slide(d.opposite_spec());
    assert(neighbour(t, d.opposite_spec()) == s.empty);
    assert forall|r: int| 0 <= r < 4 implies #[trigger] back.cells[r] == s.cells[r] by {
        assert(back.cells[r] =~= s.cells[r]);
    }
    assert(back.cells =~= s.cells);
}

/// A tile that travelled in direction `d`, sent back in the opposite
/// direction, restores the board.
pub proof fn lemma_move_round_trip(s: BoardState, d: Direction)
    requires
        is_grid(s.cells),
        in_bounds(s.empty),
        s.can_slide(d.opposite_spec()),
    ensures
        s.move_tile(d) != s,
        s.move_tile(d).move_tile(d.opposite_spec()) == s,
{
    lemma_round_trip(s, d.opposite_spec());
    assert(d.opposite_spec().opposite_spec() == d);
}

/// A click that moved a tile, followed by a click on the cell that was
/// empty before, restores the board.
pub proof fn lemma_click_round_trip(s: BoardState, target: (int, int))
    requires
        is_grid(s.cells),
        in_bounds(s.empty),
        in_bounds(target),
        adjacent(target, s.empty),
    ensures
        s.click(target).click(s.empty) == s,
{
    let back = s.click(target).click(s.empty);
    assert forall|r: int| 0 <= r < 4 implies #[trigger] back.cells[r] == s.cells[r] by {
        assert(back.cells[r] =~= s.cells[r]);
    }
    assert(back.cells =~= s.cells);
}

/// In an arrangement every one of the sixteen values sits in some cell.
pub proof fn lemma_arrangement_onto(g: Seq<Seq<int>>)
    requires
        is_arrangement(g),
    ensures
        flatten(g).no_duplicates(),
        forall|v: int| 0 <= v < 16 <==> #[trigger] flatten(g).contains(v),
{
    let s = flatten(g);
    assert forall|i: int, j: int| 0 <= i < s.len() && 0 <= j < s.len() && i != j implies s[i]
        != s[j] by {
        assert(i / 4 != j / 4 || i % 4 != j % 4);
        assert(g[i / 4][i % 4] != g[j / 4][j % 4]);
    }
    s.unique_seq_to_set();
    let range = vstd::set_lib::set_int_range(0, 16);
    vstd::set_lib::lemma_int_range(0, 16);
    assert forall|v: int| s.to_set().contains(v) implies range.contains(v) by {
        let i = choose|i: int| 0 <= i < s.len() && s[i] == v;
        assert(0 <= g[i / 4][i % 4] < 16);
    }
    vstd::seq_lib::seq_to_set_is_finite(s);
    vstd::set_lib::lemma_subset_equality(s.to_set(), range);
    assert forall|v: int| 0 <= v < 16 <==> #[trigger] s.contains(v) by {
        assert(range.contains(v) <==> 0 <= v < 16);
        assert(s.to_set().contains(v) <==> s.contains(v));
    }
}

/// The cells of a grid hold each of the values 0 to 15 exactly once, as a
/// multiset, exactly when the grid is an arrangement.
pub proof fn lemma_arrangement_multiset(g: Seq<Seq<int>>)
    requires
        is_grid(g),
    ensures
        is_arrangement(g) <==> flatten(g).to_multiset() == all_tiles(),
{
    let s = flatten(g);
    let t = Seq::new(16, |i: int| i);
    assert(t.no_duplicates());
    t.lemma_multiset_has_no_duplicates();
    t.to_multiset_ensures();
    s.to_multiset_ensures();
    assert forall|v: int| 0 <= v < 16 <==> #[trigger] t.contains(v) by {
        if 0 <= v < 16 {
            assert(t[v] == v);
        }
    }
    if is_arrangement(g) {
        lemma_arrangement_onto(g);
        s.lemma_multiset_has_no_duplicates();
        assert forall|v: int| s.to_multiset().count(v) == t.to_multiset().count(v) by {
            if 0 <= v < 16 {
                assert(s.contains(v));
                assert(t.contains(v));
                assert(s.to_multiset().contains(v));
                assert(t.to_multiset().contains(v));
            } else {
                assert(!s.contains(v));
                assert(!t.contains(v));
            }
        }
        assert(s.to_multiset() =~= t.to_multiset());
    }
    if s.to_multiset() == all_tiles() {
        s.lemma_multiset_has_no_duplicates_conv();
        assert forall|r: int, c: int| 0 <= r < 4 && 0 <= c < 4 implies 0 <= #[trigger] g[r][c]
            < 16 by {
            let i = 4 * r + c;
            assert(i / 4 == r && i % 4 == c);
            assert(s[i] == g[r][c]);
            assert(s.contains(g[r][c]));
            assert(s.to_multiset().count(g[r][c]) > 0);
            assert(t.to_multiset().count(g[r][c]) > 0);
            assert(t.contains(g[r][c]));
        }
        assert forall|r1: int, c1: int, r2: int, c2: int|
            0 <= r1 < 4 && 0 <= c1 < 4 && 0 <= r2 < 4 && 0 <= c2 < 4 && (r1 != r2 || c1 != c2)
            implies #[trigger] g[r1][c1] != #[trigger] g[r2][c2] by {
            let i = 4 * r1 + c1;
            let j = 4 * r2 + c2;
            assert(i / 4 == r1 && i % 4 == c1);
            assert(j / 4 == r2 && j % 4 == c2);
            assert(s[i] == g[r1][c1]);
            assert(s[j] == g[r2][c2]);
            assert(i != j);
        }
    }
}

} // verus!
