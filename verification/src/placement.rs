//! Placement metadata the editor attaches to a gate: where along a gate's
//! border each pin sits. Only the index lives here; turning it into screen
//! coordinates is the editor's business.

use vstd::prelude::*;

verus! {

/// A position on the border of a gate, counted in grid steps clockwise from
/// the top-left corner, where an input or output pin attaches.
#[derive(Debug, Clone, Copy, PartialEq, Eq, Structural)]
pub struct InOutPosition(pub u16);

impl InOutPosition {
    pub fn new(pos: u16) -> (r: InOutPosition)
        ensures
            r.0 == pos,
    {
        InOutPosition(pos)
    }

    pub fn get(&self) -> (r: u16)
        ensures
            r == self.0,
    {
        self.0
    }
}

/// Which way a placed gate faces on the canvas.
#[derive(Debug, Clone, Copy, PartialEq, Eq, Structural)]
pub enum Orientation {
    Up,
    Down,
    Left,
    Right,
}

/// The properties a gate description declares for the editor: pin counts,
/// pin positions along the border, and optional memory size and drawn size.
pub struct GateProps {
    pub num_ins: u8,
    pub num_outs: u8,
    pub inputs_pos: Vec<InOutPosition>,
    pub outputs_pos: Vec<InOutPosition>,
    pub memory: Option<u8>,
    pub height: Option<u8>,
    pub width: Option<u8>,
}

} // verus!
