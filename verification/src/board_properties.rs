//! The selection property strip's panels.

use vstd::prelude::*;

verus! {

/// One property panel of the selection strip.
#[derive(Clone, Copy, Debug, PartialEq, Eq, Structural)]
pub enum Panel {
    Fill,
    Stroke,
    Corners,
    Wire,
    Filter,
}

} // verus!
