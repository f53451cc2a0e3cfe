//! Compass directions for single-square translation.
use vstd::prelude::*;

verus! {

/// One of the four orthogonal or four diagonal unit steps.
#[derive(PartialEq, Eq, Copy, Clone, Debug, Structural)]
pub enum Direction {
    Up,
    Down,
    Left,
    Right,
    UpLeft,
    UpRight,
    DownLeft,
    DownRight,
}

impl Direction {
    /// Rank delta of one step in this direction.
    pub open spec fn rank_delta(self) -> int {
        match self {
            Direction::Up => 1,
            Direction::Down => -1,
            Direction::Left => 0,
            Direction::Right => 0,
            Direction::UpLeft => 1,
            Direction::UpRight => 1,
            Direction::DownLeft => -1,
            Direction::DownRight => -1,
        }
    }

    /// File delta of one step in this direction.
    pub open spec fn file_delta(self) -> int {
        match self {
            Direction::Up => 0,
            Direction::Down => 0,
            Direction::Left => -1,
            Direction::Right => 1,
            Direction::UpLeft => -1,
            Direction::UpRight => 1,
            Direction::DownLeft => -1,
            Direction::DownRight => 1,
        }
    }

    /// The involutive negation: one step this way, then one step the
    /// negated way, returns to the start.
    pub fn negate(self) -> (r: Direction)
        ensures
            r == self.negate_spec(),
            r.rank_delta() == -self.rank_delta(),
            r.file_delta() == -self.file_delta(),
            r.negate_spec() == self,
    {
        match self {
            Direction::Up => Direction::Down,
            Direction::Down => Direction::Up,
            Direction::Left => Direction::Right,
            Direction::Right => Direction::Left,
            Direction::UpLeft => Direction::DownRight,
            Direction::UpRight => Direction::DownLeft,
            Direction::DownLeft => Direction::UpRight,
            Direction::DownRight => Direction::UpLeft,
        }
    }

    pub open spec fn negate_spec(self) -> Direction {
        match self {
            Direction::Up => Direction::Down,
            Direction::Down => Direction::Up,
            Direction::Left => Direction::Right,
            Direction::Right => Direction::Left,
            Direction::UpLeft => Direction::DownRight,
            Direction::UpRight => Direction::DownLeft,
            Direction::DownLeft => Direction::UpRight,
            Direction::DownRight => Direction::UpLeft,
        }
    }
}

} // verus!
