//! The nine symbolic movement inputs of a player.
use vstd::prelude::*;

verus! {

/// One of the eight compass directions, or no input at all. Screen
/// coordinates are used: `y` grows downwards.
#[derive(Clone, Copy, Debug, PartialEq, Eq, Structural)]
pub enum Movement {
    Stop,
    Up,
    UpRight,
    Right,
    DownRight,
    Down,
    DownLeft,
    Left,
    UpLeft,
}

/// The axis components of a movement input, each of them -1, 0 or 1.
pub open spec fn axes(m: Movement) -> (int, int) {
    match m {
        Movement::Stop => (0, 0),
        Movement::Up => (0, -1),
        Movement::UpRight => (1, -1),
        Movement::Right => (1, 0),
        Movement::DownRight => (1, 1),
        Movement::Down => (0, 1),
        Movement::DownLeft => (-1, 1),
        Movement::Left => (-1, 0),
        Movement::UpLeft => (-1, -1),
    }
}

impl Default for Movement {
    fn default() -> (r: Self)
        ensures
            r == Movement::Stop,
    {
        Movement::Stop
    }
}

impl Movement {
    /// The direction of the force this input asks for, before it is scaled
    /// to unit length: `(x, y)` with each component in `{-1, 0, 1}`.
    pub fn direction(self) -> (r: (i8, i8))
        ensures
            r.0 as int == axes(self).0,
            r.1 as int == axes(self).1,
    {
        match self {
            Movement::Stop => (0, 0),
            Movement::Up => (0, -1),
            Movement::UpRight => (1, -1),
            Movement::Right => (1, 0),
            Movement::DownRight => (1, 1),
            Movement::Down => (0, 1),
            Movement::DownLeft => (-1, 1),
            Movement::Left => (-1, 0),
            Movement::UpLeft => (-1, -1),
        }
    }

    /// The input whose axis components are `horiz` and `vert`, when both are
    /// in `{-1, 0, 1}`.
    pub fn from_axes(horiz: i8, vert: i8) -> (r: Option<Movement>)
        ensures
            r.is_some() <==> (-1 <= horiz <= 1 && -1 <= vert <= 1),
            r.is_some() ==> axes(r.unwrap()) == (horiz as int, vert as int),
    {
        match (horiz, vert) {
            (0, 1) => Some(Movement::Down),
            (-1, 1) => Some(Movement::DownLeft),
            (1, 1) => Some(Movement::DownRight),
            (-1, 0) => Some(Movement::Left),
            (1, 0) => Some(Movement::Right),
            (0, 0) => Some(Movement::Stop),
            (0, -1) => Some(Movement::Up),
            (-1, -1) => Some(Movement::UpLeft),
            (1, -1) => Some(Movement::UpRight),
            _ => None,
        }
    }
}

} // verus!
