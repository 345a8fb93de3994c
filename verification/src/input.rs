//! Keyboard movement intent: what the W/A/S/D keys ask for this frame,
//! independently of the mouse. Turning the intent into motion in world
//! space is the application's part.

use vstd::prelude::*;

verus! {

/// Movement asked for in one frame: `forward` (W minus S) and `strafe`
/// (D minus A), each in `-1..=1`.
#[derive(Debug, Clone, Copy, PartialEq, Eq, Structural)]
pub struct MovementIntent {
    pub forward: i8,
    pub strafe: i8,
}

impl MovementIntent {
    /// The intent of the keys held this frame: opposite keys cancel out.
    pub fn from_keys(w: bool, s: bool, d: bool, a: bool) -> (intent: MovementIntent)
        ensures
            intent.forward == (if w { 1int } else { 0int }) - (if s { 1int } else { 0int }),
            intent.strafe == (if d { 1int } else { 0int }) - (if a { 1int } else { 0int }),
    {
        let mut forward: i8 = 0;
        if w {
            forward = forward + 1;
        }
        if s {
            forward = forward - 1;
        }
        let mut strafe: i8 = 0;
        if d {
            strafe = strafe + 1;
        }
        if a {
            strafe = strafe - 1;
        }
        MovementIntent { forward, strafe }
    }

    /// Whether no movement is asked for (no key, or opposite keys).
    pub fn is_zero(&self) -> (zero: bool)
        ensures
            zero == (self.forward == 0 && self.strafe == 0),
    {
        self.forward == 0 && self.strafe == 0
    }
}

} // verus!
