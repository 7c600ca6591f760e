use tokito_native::component_value::{default_value_for_library_id, value_placeholder_for_prefix};
use tokito_native::editor_state::{pin_on_right_side, InteractionResult, SelectionFilter};
use tokito_native::history::{EditHistory, CANVAS_UNDO_CAP};
use tokito_native::symbol_kind::{kind_from_refdes, CompKind};
use tokito_native::tools::CanvasTool;

#[test]
fn undo_then_redo_restores() {
    let mut h: EditHistory<u32> = EditHistory::new();
    h.before_edit(1);
    // The canvas is now 2; undo brings back 1, redo brings back 2.
    assert_eq!(h.undo(2), 1);
    assert_eq!(h.redo(1), 2);
    assert_eq!(h.undo(2), 1);
}

#[test]
fn undo_with_empty_history_keeps_current() {
    let mut h: EditHistory<u32> = EditHistory::new();
    assert_eq!(h.undo(7), 7);
    assert_eq!(h.redo(7), 7);
}

#[test]
fn new_edit_clears_redo() {
    let mut h: EditHistory<u32> = EditHistory::new();
    h.before_edit(1);
    assert_eq!(h.undo(2), 1);
    h.before_edit(1);
    assert_eq!(h.redo(3), 3);
    assert_eq!(h.undo(3), 1);
}

#[test]
fn undo_keeps_at_most_cap_snapshots() {
    let mut h: EditHistory<usize> = EditHistory::new();
    for i in 0..(CANVAS_UNDO_CAP + 5) {
        h.before_edit(i);
    }
    let mut current = 999;
    let mut restored = Vec::new();
    for _ in 0..(CANVAS_UNDO_CAP + 5) {
        let prev = h.undo(current);
        if prev == current {
            break;
        }
        restored.push(prev);
        current = prev;
    }
    assert_eq!(restored.len(), CANVAS_UNDO_CAP);
    assert_eq!(restored[0], CANVAS_UNDO_CAP + 4);
    assert_eq!(*restored.last().unwrap(), 5);
}

#[test]
fn clear_forgets_everything() {
    let mut h: EditHistory<u32> = EditHistory::new();
    h.before_edit(1);
    h.clear();
    assert_eq!(h.undo(5), 5);
}

#[test]
fn selection_filter_cycles_through_all() {
    let mut f = SelectionFilter::default_filter();
    assert_eq!(f, SelectionFilter::All);
    let mut labels = Vec::new();
    for _ in 0..5 {
        labels.push(f.label());
        f = f.cycle();
    }
    assert_eq!(f, SelectionFilter::All);
    assert_eq!(labels, vec!["All", "Symbols", "Wires", "Labels", "Annotations"]);
}

#[test]
fn selection_filter_admits() {
    assert!(SelectionFilter::All.allows_symbols() && SelectionFilter::All.allows_annotations());
    assert!(SelectionFilter::Wires.allows_wires());
    assert!(!SelectionFilter::Wires.allows_symbols());
    assert!(SelectionFilter::Labels.allows_labels() && !SelectionFilter::Labels.allows_annotations());
}

#[test]
fn canvas_tools() {
    assert_eq!(CanvasTool::default_tool(), CanvasTool::Select);
    assert_eq!(CanvasTool::NetLabel.label(), "Net Label");
    assert_eq!(CanvasTool::NoConnect.label(), "No Connect");
    assert_eq!(CanvasTool::PlaceSymbol.label(), "Place");
}

#[test]
fn interaction_results() {
    assert!(InteractionResult::none().log.is_none());
    assert_eq!(InteractionResult::msg("Placed R1".to_string()).log.as_deref(), Some("Placed R1"));
}

#[test]
fn kinds_from_designators() {
    assert_eq!(kind_from_refdes("R1"), CompKind::Resistor);
    assert_eq!(kind_from_refdes("  c12"), CompKind::Capacitor);
    assert_eq!(kind_from_refdes("Z3"), CompKind::Diode);
    assert_eq!(kind_from_refdes("J2"), CompKind::IC);
    assert_eq!(kind_from_refdes("Q7"), CompKind::Transistor);
    assert_eq!(kind_from_refdes(""), CompKind::IC);
    assert_eq!(kind_from_refdes("X1"), CompKind::Generic);
}

#[test]
fn default_values_from_ids() {
    assert_eq!(default_value_for_library_id("Device:R"), "R");
    assert_eq!(default_value_for_library_id("Device:R_0603"), "R");
    assert_eq!(default_value_for_library_id("Device:LED"), "LED");
    assert_eq!(default_value_for_library_id("Device:D"), "D");
    assert_eq!(default_value_for_library_id("Connector:Conn_01x04"), "Conn");
    assert_eq!(default_value_for_library_id("Switch:SW_Push"), "SW");
    assert_eq!(default_value_for_library_id("MCU:ATmega328P"), "ATmega328P");
    assert_eq!(default_value_for_library_id("Lib:ABCDEFGHIJKLMNOPQ"), "???");
    assert_eq!(default_value_for_library_id("Lib:--"), "Lib:--");
    assert_eq!(default_value_for_library_id("--"), "???");
}

#[test]
fn value_placeholders() {
    assert_eq!(value_placeholder_for_prefix("R"), "e.g. 10k, 4.7k");
    assert_eq!(value_placeholder_for_prefix("SW"), "e.g. SW_SPST");
    assert_eq!(value_placeholder_for_prefix("X"), "component value");
}

#[test]
fn pin_sides() {
    assert!(pin_on_right_side(" OUT "));
    assert!(pin_on_right_side("2"));
    assert!(pin_on_right_side("IN_b"));
    assert!(!pin_on_right_side("1"));
    assert!(!pin_on_right_side("IN_B"));
}

use tokito_native::editor_state::PinEndpoint;
use tokito_native::selection::{DeleteTarget, ItemCounts, Selection};
use tokito_native::wiring::{copy_prefix, highlighted_net, inherited_wire_net, SegmentPins};

fn counts(segments: usize, net_labels: usize, junctions: usize, buses: usize) -> ItemCounts {
    ItemCounts {
        segments,
        net_labels,
        power_symbols: 0,
        junctions,
        no_connects: 0,
        text_items: 0,
        buses,
    }
}

fn refs(v: &[&str]) -> Vec<String> {
    v.iter().map(|s| s.to_string()).collect()
}

#[test]
fn select_all_respects_filter() {
    let mut sel = Selection::new();
    sel.select_all(SelectionFilter::All, &refs(&["R1", "C1", "R1"]), counts(3, 2, 1, 1));
    assert_eq!(sel.syms, refs(&["R1", "C1"]));
    assert_eq!(sel.primary_sym.as_deref(), Some("R1"));
    assert_eq!(sel.segments, vec![0, 1, 2]);
    assert_eq!(sel.primary_segment, Some(0));
    assert_eq!(sel.net_label, Some(0));
    assert_eq!(sel.junction, Some(0));
    assert_eq!(sel.bus, Some(0));
    assert_eq!(sel.selection_count(), 2 + 3 + 3);
    assert!(sel.has_selection());

    sel.select_all(SelectionFilter::Wires, &refs(&["R1"]), counts(2, 2, 1, 0));
    assert!(sel.syms.is_empty() && sel.primary_sym.is_none());
    assert_eq!(sel.segments, vec![0, 1]);
    assert!(sel.net_label.is_none() && sel.junction.is_none() && sel.bus.is_none());
    assert_eq!(sel.selection_count(), 2);

    sel.clear_selection();
    assert!(!sel.has_selection());
}

#[test]
fn delete_order_and_rotation() {
    let mut sel = Selection::new();
    sel.select_all(SelectionFilter::Labels, &[], counts(0, 3, 0, 0));
    assert_eq!(sel.take_delete_target(), DeleteTarget::NetLabel(0));
    assert_eq!(sel.take_delete_target(), DeleteTarget::Nothing);

    let mut sel = Selection::new();
    sel.select_all(SelectionFilter::All, &refs(&["U1"]), counts(1, 1, 0, 0));
    assert_eq!(sel.take_delete_target(), DeleteTarget::Symbols);
    assert_eq!(sel.selection_count(), 0);

    let mut sel = Selection::new();
    assert!(!sel.rotation_targets());
    sel.primary_sym = Some("Q3".to_string());
    assert!(sel.rotation_targets());
    assert_eq!(sel.syms, refs(&["Q3"]));
}

fn pin(r: &str, p: &str) -> PinEndpoint {
    PinEndpoint { ref_des: r.to_string(), pin_name: p.to_string() }
}

#[test]
fn wire_net_inheritance() {
    let segs = vec![
        SegmentPins { net: "VCC".to_string(), start_pin: Some(pin("U1", "8")), end_pin: None },
        SegmentPins { net: "".to_string(), start_pin: None, end_pin: None },
        SegmentPins { net: "SDA".to_string(), start_pin: None, end_pin: Some(pin("U1", "5")) },
    ];
    assert_eq!(inherited_wire_net(Some(&pin("U1", "5")), &segs, None, "X"), "SDA");
    assert_eq!(inherited_wire_net(Some(&pin("R1", "1")), &segs, Some(1), "X"), "SDA");
    assert_eq!(inherited_wire_net(None, &segs, Some(3), "  "), "NET");
    assert_eq!(inherited_wire_net(None, &segs, None, " GND "), "GND");
}

#[test]
fn highlighted_nets() {
    let nets = refs(&["A", "B"]);
    let labels = refs(&["L0"]);
    assert_eq!(highlighted_net(Some(1), &nets, Some(0), &labels).as_deref(), Some("B"));
    assert_eq!(highlighted_net(Some(5), &nets, Some(0), &labels).as_deref(), Some("L0"));
    assert_eq!(highlighted_net(None, &nets, None, &labels), None);
}

#[test]
fn copy_prefixes() {
    assert_eq!(copy_prefix("R12"), "R");
    assert_eq!(copy_prefix("SW3"), "SW");
    assert_eq!(copy_prefix("12"), "U");
    assert_eq!(copy_prefix(""), "U");
}

use tokito_native::shortcuts::{shortcut_actions, ShortcutAction, ShortcutInput, ShortcutKey};
use tokito_native::shortcuts::ShortcutKey::{Backspace, Delete, Escape, A, C, G, R, S, W, Y, Z};

fn keys(cmd: bool, shift: bool, canvas_focus: bool, text_field: bool, prompt: bool, pressed: &[ShortcutKey]) -> ShortcutInput {
    ShortcutInput {
        cmd,
        shift,
        canvas_focus,
        text_field,
        prompt_focused: prompt,
        pressed: pressed.to_vec(),
    }
}

#[test]
fn shortcut_edits() {
    assert_eq!(shortcut_actions(&keys(true, false, true, false, false, &[Z])), vec![ShortcutAction::Undo]);
    assert_eq!(shortcut_actions(&keys(true, true, true, false, false, &[Z])), vec![ShortcutAction::Redo]);
    assert_eq!(shortcut_actions(&keys(true, false, true, false, false, &[Y])), vec![ShortcutAction::Redo]);
    // Undo is off while the prompt has focus; Ctrl+C still copies on the canvas.
    assert!(shortcut_actions(&keys(true, false, true, false, true, &[Z])).is_empty());
    assert_eq!(
        shortcut_actions(&keys(true, false, true, false, true, &[C])),
        vec![ShortcutAction::CopySelection]
    );
    assert_eq!(
        shortcut_actions(&keys(false, false, false, false, false, &[Backspace])),
        vec![ShortcutAction::DeleteSelected]
    );
    // A text field has the keys: Delete does not reach the canvas.
    assert!(shortcut_actions(&keys(false, false, false, true, false, &[Delete])).is_empty());
    assert_eq!(
        shortcut_actions(&keys(false, false, false, true, false, &[Escape])),
        vec![ShortcutAction::CancelAndDeselect]
    );
}

#[test]
fn shortcut_tools_in_order() {
    assert_eq!(
        shortcut_actions(&keys(false, false, true, false, false, &[R, W, G])),
        vec![
            ShortcutAction::SetTool(CanvasTool::Wire),
            ShortcutAction::ToggleGrid,
            ShortcutAction::RotateSelected
        ]
    );
    assert_eq!(
        shortcut_actions(&keys(false, false, true, false, false, &[A])),
        vec![ShortcutAction::PlaceGenericIc]
    );
    assert_eq!(
        shortcut_actions(&keys(true, false, true, false, false, &[A])),
        vec![ShortcutAction::SelectAll]
    );
    assert!(shortcut_actions(&keys(true, false, true, false, false, &[S, R])).is_empty());
}

#[test]
fn kinds_ignore_letter_case() {
    for d in ["r1", "c2", "l3", "d4", "q5", "u6", "x7", " z8"] {
        assert_eq!(kind_from_refdes(d), kind_from_refdes(&d.to_ascii_uppercase()));
    }
}

#[test]
fn select_net_and_focus_violation() {
    let ids = [7u128, 3, 7, 9];
    let nets = refs(&["SDA", "GND", "SDA ", "X"]);
    let labels = refs(&[" SDA", "GND", "SDA"]);
    let mut sel = Selection::new();
    sel.syms.push("R1".to_string());
    sel.select_net_for_segment(2, &ids, &nets, &labels);
    assert!(sel.syms.is_empty());
    assert_eq!(sel.segments, vec![0, 2]);
    assert_eq!(sel.primary_segment, Some(2));
    assert_eq!(sel.net_label, Some(2));
    sel.select_net_for_segment(9, &ids, &nets, &labels);
    assert_eq!(sel.segments, vec![0, 2]);

    let mut sel = Selection::new();
    assert!(sel.focus_violation(Some("U3"), Some(" GND"), &nets, false));
    assert_eq!(sel.syms, refs(&["U3"]));
    assert_eq!(sel.primary_sym.as_deref(), Some("U3"));
    assert_eq!(sel.segments, vec![1]);
    assert_eq!(sel.primary_segment, Some(1));
    assert!(!sel.focus_violation(None, Some("nope"), &nets, false));
    assert!(sel.segments.is_empty() && sel.primary_segment.is_none());
    assert!(sel.focus_violation(None, None, &nets, true));
}

#[test]
fn default_values_stay_in_their_range() {
    let ids = ["Device:R", "Lib:ABCDEFGHIJKLMNOPQ", "Lib:--", "NE555", ":", "", "A:b:C_1", "x:\u{e9}"];
    for id in ids {
        let v = default_value_for_library_id(id);
        assert!(!v.is_empty());
        let family = ["???", "R", "C", "L", "D", "LED", "SW", "Conn"].contains(&v.as_str());
        let kept = (v == id || v == id.rsplit(':').next().unwrap())
            && v.len() <= 16
            && v.chars().any(|c| c.is_ascii_alphanumeric());
        assert!(family || kept, "{id} gave {v}");
    }
    assert_eq!(default_value_for_library_id("A:b:C_1"), "C");
    assert_eq!(default_value_for_library_id("NE555"), "NE555");
}
