use vstd::prelude::*;

verus! {

/// How many times a track or a sound is played back.
#[derive(Copy, Clone, Debug, PartialEq, Eq, Structural)]
pub enum Repeat {
    /// Repeats forever.
    Forever,
    /// Repeats the given amount of times (0 plays once).
    Times(u16),
}

/// The mixer's loop count: -1 repeats forever, a non-negative count repeats that many times.
pub const LOOP_FOREVER: i32 = -1;

impl Repeat {
    /// The loop count of this repetition as the mixer expects it.
    pub open spec fn loops_spec(&self) -> int {
        match *self {
            Repeat::Forever => LOOP_FOREVER as int,
            Repeat::Times(n) => n as int,
        }
    }

    pub fn to_sdl2_repeats(&self) -> (r: i32)
        ensures
            r as int == self.loops_spec(),
    {
        match *self {
            Repeat::Forever => LOOP_FOREVER,
            Repeat::Times(val) => val as i32,
        }
    }
}

} // verus!
