//! Player control inputs.

use vstd::prelude::*;

verus! {

/// Player control inputs.
#[derive(Clone, Copy, Debug, PartialEq, Eq, Structural)]
pub struct Controls {
    /// Move the player.
    pub direction: Direction,
    /// Shoot the cannon.
    pub fire: bool,
}

/// The player can only move left or right, but can also be stationary.
#[derive(Clone, Copy, Debug, PartialEq, Eq, Structural)]
pub enum Direction {
    /// Do not move the player.
    Still,
    /// Move to the left.
    Left,
    /// Move to the right.
    Right,
}

} // verus!
