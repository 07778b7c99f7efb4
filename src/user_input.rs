//! Turning held movement keys into a movement input.
use vstd::prelude::*;
use crate::movement::{Movement, axes};

verus! {

pub const KEY_W: usize = 87;
pub const KEY_S: usize = 83;
pub const KEY_D: usize = 68;
pub const KEY_A: usize = 65;

/// The component along one axis when `neg` pushes one way and `pos` the
/// other: opposite keys cancel.
pub open spec fn axis(neg: bool, pos: bool) -> int {
    if neg == pos {
        0
    } else if pos {
        1
    } else {
        -1
    }
}

fn movement_vector(neg: bool, pos: bool) -> (r: i8)
    ensures
        r as int == axis(neg, pos),
{
    match (neg, pos) {
        (true, true) | (false, false) => 0,
        (false, true) => 1,
        (true, false) => -1,
    }
}

/// Which of the movement keys W, S, A and D are held down.
pub struct CurHeldKeys {
    pub w: bool,
    pub s: bool,
    pub a: bool,
    pub d: bool,
}

impl CurHeldKeys {
    /// The movement the held keys ask for: A and D steer along `x`, W and S
    /// along `y` (downwards positive).
    pub open spec fn direction_spec(&self) -> (int, int) {
        (axis(self.a, self.d), axis(self.w, self.s))
    }

    pub fn new() -> (r: Self)
        ensures
            !r.w && !r.s && !r.a && !r.d,
    {
        CurHeldKeys { w: false, s: false, a: false, d: false }
    }

    /// Records a key going down or up; other key codes are ignored.
    pub fn set(&mut self, code: usize, down: bool)
        ensures
            final(self).w == if code == KEY_W { down } else { old(self).w },
            final(self).s == if code == KEY_S { down } else { old(self).s },
            final(self).d == if code == KEY_D { down } else { old(self).d },
            final(self).a == if code == KEY_A { down } else { old(self).a },
    {
        if code == KEY_W {
            self.w = down;
        } else if code == KEY_S {
            self.s = down;
        } else if code == KEY_D {
            self.d = down;
        } else if code == KEY_A {
            self.a = down;
        }
    }

    pub fn no_keys_held(&self) -> (r: bool)
        ensures
            r == (!self.w && !self.s && !self.a && !self.d),
    {
        !self.w && !self.s && !self.a && !self.d
    }

    pub fn get_cur_direction(&self) -> (r: Movement)
        ensures
            axes(r) == self.direction_spec(),
    {
        let horiz = movement_vector(self.a, self.d);
        let vert = movement_vector(self.w, self.s);
        Movement::from_axes(horiz, vert).unwrap()
    }

    /// Applies a key event and returns the new movement input when it
    /// differs from the one before, which must then be sent to the server
    /// and applied to the local player.
    pub fn process_movement_update(&mut self, code: usize, down: bool) -> (r: Option<Movement>)
        ensures
            final(self).w == if code == KEY_W { down } else { old(self).w },
            final(self).s == if code == KEY_S { down } else { old(self).s },
            final(self).d == if code == KEY_D { down } else { old(self).d },
            final(self).a == if code == KEY_A { down } else { old(self).a },
            old(self).direction_spec() == final(self).direction_spec() ==> r.is_none(),
            old(self).direction_spec() != final(self).direction_spec() ==> r.is_some() && axes(
                r.unwrap(),
            ) == final(self).direction_spec(),
    {
        let old_direction = self.get_cur_direction();
        self.set(code, down);
        let new_direction = self.get_cur_direction();
        if old_direction != new_direction {
            Some(new_direction)
        } else {
            None
        }
    }
}

} // verus!
