//! The circular anchors of the field.

use crate::vector::{Vec2, WORLD_LIMIT};
use vstd::prelude::*;

verus! {

/// The palette that the nodes of a field cycle through.
#[derive(Clone, Copy, Debug, PartialEq, Eq, Structural)]
pub enum Color {
    White,
    Magenta,
    Cyan,
    Green,
    Red,
    Yellow,
}

/// An immovable circle: an obstacle, and something to orbit.
#[derive(Clone, Copy, Debug, PartialEq, Eq, Structural)]
pub struct Node {
    pub pos: Vec2,
    pub radius: u32,
    pub color: Color,
}

impl Node {
    /// The centre lies in the world and the radius is positive.
    pub open spec fn wf(self) -> bool {
        self.pos.in_world() && self.radius > 0
    }

    /// Whether the node is well formed.
    pub fn check(&self) -> (b: bool)
        ensures
            b == self.wf(),
    {
        -WORLD_LIMIT <= self.pos.x && self.pos.x <= WORLD_LIMIT && -WORLD_LIMIT <= self.pos.y
            && self.pos.y <= WORLD_LIMIT && self.radius > 0
    }
}

/// Every node of the sequence is well formed.
pub open spec fn nodes_wf(nodes: Seq<Node>) -> bool {
    forall|i: int| 0 <= i < nodes.len() ==> (#[trigger] nodes[i]).wf()
}

} // verus!
