//! The closed set of discrete commands that can be applied to the
//! falling piece. Parsing raw input into a command is an input-layer
//! concern and stays outside the core.

use vstd::prelude::*;

verus! {

#[derive(Clone, Copy, Debug, PartialEq, Eq, Structural)]
pub enum MoveCommand {
    Down,
    Left,
    Right,
    Rotate,
}

} // verus!
