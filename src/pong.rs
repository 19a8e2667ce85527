use vstd::prelude::*;

use crate::dispatch::{Access, Mode, System};

verus! {

/// Resource tag of the transform storage.
pub const TRANSFORM: u64 = 1;

/// Resource tag of the paddle storage.
pub const PADDLE: u64 = 2;

/// Resource tag of the input handler.
pub const INPUT: u64 = 3;

/// The core game state.
pub struct Pong;

/// What the game loop does after an event or an update.
#[derive(Clone, Copy, Debug, PartialEq, Eq, Structural)]
pub enum Trans {
    Continue,
    Quit,
}

impl Pong {
    /// Quits when the window asks to close or Escape is pressed; every other
    /// event is ignored.
    pub fn handle_event(&mut self, close_requested: bool, escape_down: bool) -> (r: Trans)
        ensures
            r == (if close_requested || escape_down {
                Trans::Quit
            } else {
                Trans::Continue
            }),
    {
        if close_requested || escape_down {
            Trans::Quit
        } else {
            Trans::Continue
        }
    }

    /// A frame update never changes state by itself.
    pub fn update(&mut self) -> (r: Trans)
        ensures
            r == Trans::Continue,
    {
        Trans::Continue
    }
}

#[derive(Clone, Copy, Debug, PartialEq, Eq, Structural)]
pub enum Side {
    Left,
    Right,
}

pub open spec fn axis_name(side: Side) -> Seq<char> {
    match side {
        Side::Left => "left_paddle"@,
        Side::Right => "right_paddle"@,
    }
}

/// Moves each paddle along the input axis bound to its side.
pub struct PaddleSystem;

impl System for PaddleSystem {
    /// Writes transforms, reads paddles and the input handler.
    open spec fn access_set(&self) -> Seq<Access> {
        seq![
            Access { resource: TRANSFORM, mode: Mode::Write },
            Access { resource: PADDLE, mode: Mode::Read },
            Access { resource: INPUT, mode: Mode::Read },
        ]
    }

    fn accesses(&self) -> (r: Vec<Access>) {
        let r = vec![
            Access { resource: TRANSFORM, mode: Mode::Write },
            Access { resource: PADDLE, mode: Mode::Read },
            Access { resource: INPUT, mode: Mode::Read },
        ];
        assert(r@ =~= self.access_set());
        r
    }
}

impl PaddleSystem {
    /// The input axis that drives a paddle on `side`.
    pub fn axis_for(side: Side) -> (r: &'static str)
        ensures
            r@ == axis_name(side),
    {
        match side {
            Side::Left => "left_paddle",
            Side::Right => "right_paddle",
        }
    }
}

} // verus!
