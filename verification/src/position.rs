//! The four sides of a screen, on which neighbouring machines lie.
use vstd::prelude::*;

verus! {

/// A side of the screen.
#[derive(Clone, Copy, Debug, PartialEq, Eq, Structural)]
pub enum Position {
    Left,
    Right,
    Top,
    Bottom,
}

} // verus!
