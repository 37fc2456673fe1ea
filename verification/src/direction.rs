use vstd::prelude::*;

verus! {

/// The direction the head moves on the next tick. `Still` is the state
/// before the first key press: the simulation does nothing with it.
#[derive(Debug, Copy, Clone, Eq, PartialEq, Structural)]
pub enum Direction {
    Up,
    Right,
    Down,
    Left,
    Still,
}

/// Whether two directions are exact opposites (up/down or left/right).
pub open spec fn opposite(dir1: Direction, dir2: Direction) -> bool {
    ||| dir1 == Direction::Up && dir2 == Direction::Down
    ||| dir1 == Direction::Down && dir2 == Direction::Up
    ||| dir1 == Direction::Left && dir2 == Direction::Right
    ||| dir1 == Direction::Right && dir2 == Direction::Left
}

impl Direction {
    /// Whether the two directions are exact opposites. The input handler
    /// uses this to keep a snake longer than one segment from reversing
    /// straight into its own neck; the grid itself performs no such
    /// filtering.
    pub fn check_opposite(dir1: Direction, dir2: Direction) -> (r: bool)
        ensures
            r == opposite(dir1, dir2),
    {
        dir1 == Direction::Up && dir2 == Direction::Down
            || dir1 == Direction::Down && dir2 == Direction::Up
            || dir1 == Direction::Left && dir2 == Direction::Right
            || dir1 == Direction::Right && dir2 == Direction::Left
    }
}

} // verus!
