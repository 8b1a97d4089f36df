use std::time::Duration;
use vstd::prelude::*;

verus! {

/// Orientation of a wall.
#[derive(Debug, Clone, Copy, PartialEq, Eq, Structural)]
pub enum Axis {
    Horizontal,
    Vertical,
}

/// Phase of a play session.
#[derive(Debug, Clone, Copy, PartialEq, Eq, Structural)]
pub enum Phase {
    Playing,
    Paused,
    LevelClear,
    GameOver,
}

/// Remaining level time shown by the HUD when the timer is enabled.
#[derive(Debug, Clone, Copy, PartialEq, Eq)]
pub struct TimerView {
    pub remaining: Duration,
}

impl Axis {
    /// The other orientation.
    pub fn toggled(self) -> (r: Axis)
        ensures
            r != self,
            r == (match self {
                Axis::Horizontal => Axis::Vertical,
                Axis::Vertical => Axis::Horizontal,
            }),
    {
        match self {
            Axis::Horizontal => Axis::Vertical,
            Axis::Vertical => Axis::Horizontal,
        }
    }
}

} // verus!
