//! The command palette: its commands, which of them a query shows, and
//! which action a chosen entry runs.

use vstd::prelude::*;

use crate::text::unicode_lowercase;
use crate::text::has_infix;

verus! {

/// An action of the command palette.
#[derive(Clone, Copy, Debug, PartialEq, Eq)]
pub enum PaletteCommand {
    Save,
    Erc,
    ExportSvg,
    ExportNetlist,
    ExportSexp,
    ExportPdf,
    ExportMcad,
    Duplicate,
    Delete,
    Fit,
    ToolSelect,
    ToolWire,
    ToolLabel,
    ToolPower,
    Place,
    ToolPan,
    ToggleGrid,
    ToggleSnap,
    Undo,
    Redo,
    Focus,
}

/// The palette's entries: `(id, label)`, in the order they are listed.
pub const COMMAND_LIST: [(&'static str, &'static str); 21] = [
    ("save", "Save schematic"),
    ("erc", "Run ERC"),
    ("export_svg", "Export SVG"),
    ("export_netlist", "Export connectivity netlist"),
    ("export_sexp", "Export S-expression netlist"),
    ("export_pdf", "Export PDF plot"),
    ("export_mcad", "Export MCAD handoff JSON"),
    ("duplicate", "Duplicate selection"),
    ("delete", "Delete selection"),
    ("fit", "Zoom to fit"),
    ("select", "Tool: Select"),
    ("wire", "Tool: Wire"),
    ("label", "Tool: Net label"),
    ("power", "Tool: Power"),
    ("place", "Tool: Place symbol"),
    ("pan", "Tool: Pan"),
    ("grid", "Toggle grid"),
    ("snap", "Toggle snap"),
    ("undo", "Undo"),
    ("redo", "Redo"),
    ("focus", "Focus canvas"),
];

/// The action an entry id stands for; an unknown id runs nothing.
pub open spec fn spec_palette_command(id: Seq<char>) -> Option<PaletteCommand> {
    if id == "save"@ {
        Some(PaletteCommand::Save)
    } else if id == "erc"@ {
        Some(PaletteCommand::Erc)
    } else if id == "export_svg"@ {
        Some(PaletteCommand::ExportSvg)
    } else if id == "export_netlist"@ {
        Some(PaletteCommand::ExportNetlist)
    } else if id == "export_sexp"@ {
        Some(PaletteCommand::ExportSexp)
    } else if id == "export_pdf"@ {
        Some(PaletteCommand::ExportPdf)
    } else if id == "export_mcad"@ {
        Some(PaletteCommand::ExportMcad)
    } else if id == "duplicate"@ {
        Some(PaletteCommand::Duplicate)
    } else if id == "delete"@ {
        Some(PaletteCommand::Delete)
    } else if id == "fit"@ {
        Some(PaletteCommand::Fit)
    } else if id == "select"@ {
        Some(PaletteCommand::ToolSelect)
    } else if id == "wire"@ {
        Some(PaletteCommand::ToolWire)
    } else if id == "label"@ {
        Some(PaletteCommand::ToolLabel)
    } else if id == "power"@ {
        Some(PaletteCommand::ToolPower)
    } else if id == "place"@ {
        Some(PaletteCommand::Place)
    } else if id == "pan"@ {
        Some(PaletteCommand::ToolPan)
    } else if id == "grid"@ {
        Some(PaletteCommand::ToggleGrid)
    } else if id == "snap"@ {
        Some(PaletteCommand::ToggleSnap)
    } else if id == "undo"@ {
        Some(PaletteCommand::Undo)
    } else if id == "redo"@ {
        Some(PaletteCommand::Redo)
    } else if id == "focus"@ {
        Some(PaletteCommand::Focus)
    } else {
        None
    }
}

/// The action a chosen palette entry runs.
pub fn palette_command(id: &str) -> (c: Option<PaletteCommand>)
    ensures
        c == spec_palette_command(id@),
{
    if crate::text::str_eq(id, "save") {
        Some(PaletteCommand::Save)
    } else if crate::text::str_eq(id, "erc") {
        Some(PaletteCommand::Erc)
    } else if crate::text::str_eq(id, "export_svg") {
        Some(PaletteCommand::ExportSvg)
    } else if crate::text::str_eq(id, "export_netlist") {
        Some(PaletteCommand::ExportNetlist)
    } else if crate::text::str_eq(id, "export_sexp") {
        Some(PaletteCommand::ExportSexp)
    } else if crate::text::str_eq(id, "export_pdf") {
        Some(PaletteCommand::ExportPdf)
    } else if crate::text::str_eq(id, "export_mcad") {
        Some(PaletteCommand::ExportMcad)
    } else if crate::text::str_eq(id, "duplicate") {
        Some(PaletteCommand::Duplicate)
    } else if crate::text::str_eq(id, "delete") {
        Some(PaletteCommand::Delete)
    } else if crate::text::str_eq(id, "fit") {
        Some(PaletteCommand::Fit)
    } else if crate::text::str_eq(id, "select") {
        Some(PaletteCommand::ToolSelect)
    } else if crate::text::str_eq(id, "wire") {
        Some(PaletteCommand::ToolWire)
    } else if crate::text::str_eq(id, "label") {
        Some(PaletteCommand::ToolLabel)
    } else if crate::text::str_eq(id, "power") {
        Some(PaletteCommand::ToolPower)
    } else if crate::text::str_eq(id, "place") {
        Some(PaletteCommand::Place)
    } else if crate::text::str_eq(id, "pan") {
        Some(PaletteCommand::ToolPan)
    } else if crate::text::str_eq(id, "grid") {
        Some(PaletteCommand::ToggleGrid)
    } else if crate::text::str_eq(id, "snap") {
        Some(PaletteCommand::ToggleSnap)
    } else if crate::text::str_eq(id, "undo") {
        Some(PaletteCommand::Undo)
    } else if crate::text::str_eq(id, "redo") {
        Some(PaletteCommand::Redo)
    } else if crate::text::str_eq(id, "focus") {
        Some(PaletteCommand::Focus)
    } else {
        None
    }
}

/// Whether an entry label is listed for a query (both lower-cased): all
/// entries for an empty query, else those whose label contains it.
pub open spec fn label_listed(label_lower: Seq<char>, query_lower: Seq<char>) -> bool {
    query_lower.len() == 0 || has_infix(label_lower, query_lower)
}

/// Whether an entry is listed, with its label and the query lower-cased.
pub fn palette_entry_listed(label_lower: &str, query_lower: &str) -> (r: bool)
    ensures
        r == label_listed(label_lower@, query_lower@),
{
    query_lower.unicode_len() == 0 || crate::text::contains(label_lower, query_lower)
}

/// Positions in [`COMMAND_LIST`] of the entries a palette query lists, in
/// order. The query and the labels are compared lower-cased.
pub fn palette_entries(query: &str) -> (r: Vec<usize>)
    ensures
        forall|k: int| 0 <= k < r@.len() ==> #[trigger] r@[k] < 21 && label_listed(
            unicode_lowercase(COMMAND_LIST@[r@[k] as int].1@),
            unicode_lowercase(query@),
        ),
        forall|i: int|
            0 <= i < 21 && label_listed(unicode_lowercase(COMMAND_LIST@[i].1@), unicode_lowercase(query@)) ==> r@.contains(
                i as usize,
            ),
        forall|k: int, l: int| 0 <= k < l < r@.len() ==> #[trigger] r@[k] < #[trigger] r@[l],
{
    let q = crate::text::str_to_lowercase(query);
    let list = COMMAND_LIST;
    let mut out: Vec<usize> = Vec::new();
    let mut i: usize = 0;
    while i < 21
        invariant
            q@ == unicode_lowercase(query@),
            list@ == COMMAND_LIST@,
            list@.len() == 21,
            i <= 21,
            forall|k: int| 0 <= k < out@.len() ==> #[trigger] out@[k] < i && label_listed(
                unicode_lowercase(list@[out@[k] as int].1@),
                q@,
            ),
            forall|a: int| 0 <= a < i && label_listed(unicode_lowercase(list@[a].1@), q@) ==> out@.contains(a as usize),
            forall|k: int, l: int| 0 <= k < l < out@.len() ==> #[trigger] out@[k] < #[trigger] out@[l],
        decreases 21 - i,
    {
        let label = crate::text::str_to_lowercase(list[i].1);
        let ghost before = out@;
        if palette_entry_listed(label.as_str(), q.as_str()) {
            out.push(i);
            proof {
                assert(out@[before.len() as int] == i);
                assert forall|a: int| 0 <= a < i && label_listed(unicode_lowercase(list@[a].1@), q@) implies out@.contains(
                    a as usize,
                ) by {
                    let k = choose|k: int| 0 <= k < before.len() && before[k] == a as usize;
                    assert(out@[k] == a as usize);
                }
            }
        }
        i = i + 1;
    }
    out
}

} // verus!
