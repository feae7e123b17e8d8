//! Which optional sub-panels the left tools rail and the bottom readout bar
//! can show. Only the panel sets are the board's own.

use vstd::prelude::*;

verus! {

/// Left tools rail: panels that act on the board canvas.
#[derive(Clone, Copy, Debug, PartialEq, Eq, Structural)]
pub enum ToolPanel {
    Selection,
}

/// Bottom readout bar: informational panels.
#[derive(Clone, Copy, Debug, PartialEq, Eq, Structural)]
pub enum ReadoutPanel {
    Metrics,
    /// Link health: how many workbook items point at missing files.
    LinkHealth,
}

/// The rail slot each tool panel occupies.
pub open spec fn tool_panel_slot(p: ToolPanel) -> usize {
    match p {
        ToolPanel::Selection => 4,
    }
}

/// The readout slot each readout panel occupies.
pub open spec fn readout_panel_slot(p: ReadoutPanel) -> usize {
    match p {
        ReadoutPanel::Metrics => 0,
        ReadoutPanel::LinkHealth => 1,
    }
}

impl ReadoutPanel {
    /// Every readout panel, in slot order.
    pub const ALL: [ReadoutPanel; 2] = [ReadoutPanel::Metrics, ReadoutPanel::LinkHealth];

    /// The panel's name in the readout bar.
    pub fn label(self) -> (s: &'static str)
        ensures
            self == ReadoutPanel::Metrics ==> s == "Metrics",
            self == ReadoutPanel::LinkHealth ==> s == "Link health",
    {
        match self {
            ReadoutPanel::Metrics => "Metrics",
            ReadoutPanel::LinkHealth => "Link health",
        }
    }
}

impl From<ToolPanel> for usize {
    fn from(p: ToolPanel) -> (r: usize) {
        match p {
            ToolPanel::Selection => 4,
        }
    }
}

impl vstd::std_specs::convert::FromSpecImpl<ToolPanel> for usize {
    open spec fn obeys_from_spec() -> bool {
        true
    }

    open spec fn from_spec(p: ToolPanel) -> usize {
        tool_panel_slot(p)
    }
}

impl From<ReadoutPanel> for usize {
    fn from(p: ReadoutPanel) -> (r: usize) {
        match p {
            ReadoutPanel::Metrics => 0,
            ReadoutPanel::LinkHealth => 1,
        }
    }
}

impl vstd::std_specs::convert::FromSpecImpl<ReadoutPanel> for usize {
    open spec fn obeys_from_spec() -> bool {
        true
    }

    open spec fn from_spec(p: ReadoutPanel) -> usize {
        readout_panel_slot(p)
    }
}

} // verus!
