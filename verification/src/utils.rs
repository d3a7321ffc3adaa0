//! Small shared vocabulary for the interactive shell around the renderer.

use vstd::prelude::*;

verus! {

/// A panning direction, as issued by the input loop one keypress at a time.
#[derive(Debug, Clone, Copy, PartialEq, Eq, Structural)]
pub enum Direction {
    Up,
    Down,
    Left,
    Right,
}

impl Direction {
    /// The unit step this direction stands for, as `(re, im)` components on
    /// the complex plane: up is the positive imaginary axis, right the
    /// positive real axis.
    pub fn unit(self) -> (d: (i8, i8))
        ensures
            self is Up ==> d == (0i8, 1i8),
            self is Down ==> d == (0i8, -1i8),
            self is Left ==> d == (-1i8, 0i8),
            self is Right ==> d == (1i8, 0i8),
    {
        match self {
            Direction::Up => (0, 1),
            Direction::Down => (0, -1),
            Direction::Left => (-1, 0),
            Direction::Right => (1, 0),
        }
    }
}

} // verus!
