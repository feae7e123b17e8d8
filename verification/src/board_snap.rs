//! Smart-guide and ortho decisions of the board canvas that need no geometry:
//! which edges of a resize may snap, and when the ortho constraint holds.

use vstd::prelude::*;

verus! {

/// The direction of an alignment guide.
#[derive(Clone, Copy, Debug, PartialEq, Eq, Structural)]
pub enum GuideAxis {
    Vertical,
    Horizontal,
}

/// Which edges of a resize are free to snap (anchor edges are fixed).
#[derive(Clone, Copy, Debug, PartialEq, Eq, Structural)]
pub struct ResizeSnapEdges {
    pub left: bool,
    pub right: bool,
    pub top: bool,
    pub bottom: bool,
}

/// The edges a resize handle moves. Handles are numbered clockwise from the
/// top-left corner: 0 NW, 1 N, 2 NE, 3 E, 4 SE, 5 S, 6 SW, and any other
/// number is the west edge.
pub open spec fn handle_edges(handle: u8) -> ResizeSnapEdges {
    ResizeSnapEdges {
        left: handle == 0 || handle == 6 || handle > 6,
        right: handle == 2 || handle == 3 || handle == 4,
        top: handle == 0 || handle == 1 || handle == 2,
        bottom: handle == 4 || handle == 5 || handle == 6,
    }
}

impl ResizeSnapEdges {
    pub fn for_handle(handle: u8) -> (e: Self)
        ensures
            e == handle_edges(handle),
    {
        match handle {
            0 => Self { left: true, right: false, top: true, bottom: false },
            1 => Self { left: false, right: false, top: true, bottom: false },
            2 => Self { left: false, right: true, top: true, bottom: false },
            3 => Self { left: false, right: true, top: false, bottom: false },
            4 => Self { left: false, right: true, top: false, bottom: true },
            5 => Self { left: false, right: false, top: false, bottom: true },
            6 => Self { left: true, right: false, top: false, bottom: true },
            _ => Self { left: true, right: false, top: false, bottom: false },
        }
    }
}

/// Handles facing each other free facing edges: the handle across the box
/// (four places round) moves the left edge where this one moves the right,
/// and the top where this one moves the bottom; a corner frees two edges and
/// a side one.
pub proof fn facing_handles_free_facing_edges(handle: u8)
    requires
        handle < 8,
    ensures
        handle_edges(handle).left == handle_edges(((handle + 4) % 8) as u8).right,
        handle_edges(handle).top == handle_edges(((handle + 4) % 8) as u8).bottom,
        handle % 2 == 0 ==> (handle_edges(handle).left || handle_edges(handle).right) && (
        handle_edges(handle).top || handle_edges(handle).bottom),
        handle % 2 == 1 ==> (handle_edges(handle).left || handle_edges(handle).right) != (
        handle_edges(handle).top || handle_edges(handle).bottom),
{
}

/// A resize handle never frees both edges of one axis: the opposite edge is
/// the anchor.
pub proof fn handle_keeps_an_anchor_per_axis(handle: u8)
    ensures
        !(handle_edges(handle).left && handle_edges(handle).right),
        !(handle_edges(handle).top && handle_edges(handle).bottom),
{
}

/// The one constraint-layer predicate: Shift inverts the persistent F8 ortho
/// state while held.
pub fn effective_ortho(ortho: bool, shift_down: bool) -> (r: bool)
    ensures
        r == (ortho != shift_down),
{
    ortho ^ shift_down
}

} // verus!
