//! How the player steers.

use vstd::prelude::*;

verus! {

/// What the keys steer: the player on the map, or the selection in the menu.
#[derive(Clone, Copy, Debug, PartialEq, Eq, Structural)]
pub enum ControlMode {
    Default,
    Menu,
}

impl Default for ControlMode {
    fn default() -> (mode: Self)
        ensures
            mode == ControlMode::Default,
    {
        ControlMode::Default
    }
}

} // verus!
