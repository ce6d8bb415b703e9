//! The four directions in which a tile, or the empty slot, can travel.

use vstd::prelude::*;

verus! {

/// A direction on the board. Rows grow downwards and columns grow to the
/// right, so `Up` leads to the row above and `Left` to the column before.
#[derive(Debug, Clone, Copy, PartialEq, Eq, Structural)]
pub enum Direction {
    Up,
    Down,
    Left,
    Right,
}

impl Direction {
    /// The step `(rows, columns)` that one move in this direction makes.
    pub open spec fn delta_spec(self) -> (int, int) {
        match self {
            Direction::Up => (-1, 0),
            Direction::Down => (1, 0),
            Direction::Left => (0, -1),
            Direction::Right => (0, 1),
        }
    }

    /// The direction that undoes this one.
    pub open spec fn opposite_spec(self) -> Direction {
        match self {
            Direction::Up => Direction::Down,
            Direction::Down => Direction::Up,
            Direction::Left => Direction::Right,
            Direction::Right => Direction::Left,
        }
    }

    /// The step `(rows, columns)` that one move in this direction makes.
    pub fn delta(&self) -> (d: (isize, isize))
        ensures
            d.0 == self.delta_spec().0,
            d.1 == self.delta_spec().1,
        no_unwind
    {
        match self {
            Direction::Up => (-1, 0),
            Direction::Down => (1, 0),
            Direction::Left => (0, -1),
            Direction::Right => (0, 1),
        }
    }

    /// The direction that undoes this one: `Up` and `Down` are each other's
    /// opposite, and so are `Left` and `Right`.
    pub fn opposite(&self) -> (o: Direction)
        ensures
            o == self.opposite_spec(),
        no_unwind
    {
        match self {
            Direction::Up => Direction::Down,
            Direction::Down => Direction::Up,
            Direction::Left => Direction::Right,
            Direction::Right => Direction::Left,
        }
    }
}

/// Taking the opposite twice gives the direction back, no direction is its
/// own opposite, and the step of the opposite is the negated step.
pub proof fn lemma_opposite(d: Direction)
    ensures
        d.opposite_spec().opposite_spec() == d,
        d.opposite_spec() != d,
        d.opposite_spec().delta_spec().0 == -d.delta_spec().0,
        d.opposite_spec().delta_spec().1 == -d.delta_spec().1,
{
}

} // verus!
