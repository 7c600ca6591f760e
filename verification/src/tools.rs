//! Editing tool modes of the schematic canvas.

use vstd::prelude::*;

verus! {

/// Tool that the pointer currently applies on the canvas.
#[derive(Clone, Copy, Debug, PartialEq, Eq)]
pub enum CanvasTool {
    Select,
    PlaceSymbol,
    Wire,
    NetLabel,
    SheetPort,
    Power,
    Junction,
    NoConnect,
    Bus,
    Text,
    Pan,
}

/// Toolbar caption of a tool.
pub open spec fn canvas_tool_label(t: CanvasTool) -> Seq<char> {
    match t {
        CanvasTool::Select => "Select"@,
        CanvasTool::PlaceSymbol => "Place"@,
        CanvasTool::Wire => "Wire"@,
        CanvasTool::NetLabel => "Net Label"@,
        CanvasTool::SheetPort => "Sheet Port"@,
        CanvasTool::Power => "Power"@,
        CanvasTool::Junction => "Junction"@,
        CanvasTool::NoConnect => "No Connect"@,
        CanvasTool::Bus => "Bus"@,
        CanvasTool::Text => "Text"@,
        CanvasTool::Pan => "Pan"@,
    }
}

impl CanvasTool {
    /// The tool that a new editor starts with.
    pub fn default_tool() -> (t: CanvasTool)
        ensures
            t == CanvasTool::Select,
    {
        CanvasTool::Select
    }

    /// Toolbar caption.
    pub fn label(self) -> (s: &'static str)
        ensures
            s@ == canvas_tool_label(self),
    {
        match self {
            CanvasTool::Select => "Select",
            CanvasTool::PlaceSymbol => "Place",
            CanvasTool::Wire => "Wire",
            CanvasTool::NetLabel => "Net Label",
            CanvasTool::SheetPort => "Sheet Port",
            CanvasTool::Power => "Power",
            CanvasTool::Junction => "Junction",
            CanvasTool::NoConnect => "No Connect",
            CanvasTool::Bus => "Bus",
            CanvasTool::Text => "Text",
            CanvasTool::Pan => "Pan",
        }
    }
}

} // verus!
