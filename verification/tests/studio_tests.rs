use tokito_native::connectivity::{
    all_net_names, components_summary, display_pins_for_symbol, segment_indices_for_net, segment_indices_for_net_id, PlacedPart,
};
use tokito_native::erc::erc_note_from_slice;
use tokito_native::kicad_library::{short_name, KicadSymbolLibrary};
use tokito_native::lib_file::SymbolLibFile;
use tokito_native::mcad::{footprint_class, FootprintClass};
use tokito_native::palette::{palette_command, palette_entries, palette_entry_listed, PaletteCommand, COMMAND_LIST};
use tokito_native::projects::{design_matches, filtered_project_designs, project_design_order, DesignRow};
use tokito_native::studio::{
    push_decimal, short_date, time_stamp_label, util_truncate, PlaceScope, ProjectsSort, SettingsSection, StudioTab,
};
use tokito_native::symbol_gen::{regulator_3pin, semiconductor_3pin};
use tokito_native::symbol_kind::CompKind;

#[test]
fn studio_labels() {
    assert_eq!(StudioTab::Canvas.panel_label(), "Schematic");
    assert_eq!(StudioTab::Viewer3d.panel_label(), "Preview");
    assert_eq!(StudioTab::DOCK_TABS.len(), 10);
    assert!(!StudioTab::ADDABLE_TABS.contains(&StudioTab::Canvas));
    assert_eq!(SettingsSection::default_section(), SettingsSection::General);
    assert_eq!(SettingsSection::Ai.label(), "AI & Build");
    assert_eq!(PlaceScope::Catalog.label(), "LCSC");
    assert_eq!(ProjectsSort::default_sort(), ProjectsSort::UpdatedDesc);
}

#[test]
fn truncation() {
    assert_eq!(util_truncate("hello", 10), "hello");
    assert_eq!(util_truncate("hello world", 5), "hello\u{2026}");
    assert_eq!(util_truncate("\u{e9}\u{e9}\u{e9}", 2), "\u{e9}\u{e9}\u{2026}");
}

#[test]
fn short_dates() {
    assert_eq!(short_date("2024-05-01T10:00:00+00:00"), "2024-05-01");
    assert_eq!(short_date("2024-05"), "2024-05");
    // Ten bytes would split a character: the text is kept whole.
    assert_eq!(short_date("2024-05-0\u{e9}xyz"), "2024-05-0\u{e9}xyz");
}

#[test]
fn decimal_text() {
    let mut s = String::from("n=");
    push_decimal(&mut s, 0);
    push_decimal(&mut s, 1207);
    assert_eq!(s, "n=01207");
    assert_eq!(time_stamp_label(1700000000), "t1700000000");
}

fn v(code: &str, msg: &str) -> (String, String) {
    (code.to_string(), msg.to_string())
}

#[test]
fn erc_notes() {
    assert_eq!(erc_note_from_slice(&[]), None);
    assert_eq!(
        erc_note_from_slice(&[v("E1", "unconnected pin")]).as_deref(),
        Some("ERC advisory (1): E1: unconnected pin")
    );
    let many = vec![v("A", "a"), v("B", "b"), v("C", "c"), v("D", "d"), v("E", "e"), v("F", "f")];
    assert_eq!(
        erc_note_from_slice(&many).as_deref(),
        Some("ERC advisory (6): A: a | B: b | C: c | D: d (+2 more)")
    );
}

fn strings(v: &[&str]) -> Vec<String> {
    v.iter().map(|s| s.to_string()).collect()
}

#[test]
fn net_names_sorted_unique() {
    let nets = strings(&[" VCC", "GND", "", "VCC ", "  "]);
    let labels = strings(&["SDA", "GND", "AGND"]);
    assert_eq!(all_net_names(&nets, &labels), vec!["AGND", "GND", "SDA", "VCC"]);
    assert!(all_net_names(&[], &[]).is_empty());
}

#[test]
fn segments_on_a_net() {
    let nets = strings(&["GND", " VCC", "GND ", "SDA"]);
    assert_eq!(segment_indices_for_net(" GND", &nets, &[]), vec![0, 2]);
    assert!(segment_indices_for_net("  ", &nets, &[]).is_empty());
    assert_eq!(segment_indices_for_net_id(7, &[7, 3, 7, 7]), vec![0, 2, 3]);
}

#[test]
fn component_summary_sorted_by_designator() {
    let parts = vec![
        PlacedPart { ref_des: "U1".to_string(), part_id: Some(5) },
        PlacedPart { ref_des: "C2".to_string(), part_id: None },
        PlacedPart { ref_des: "R1".to_string(), part_id: Some(9) },
        PlacedPart { ref_des: "C2".to_string(), part_id: Some(5) },
    ];
    let cache = vec![(5u128, "LM358".to_string())];
    let rows = components_summary(&parts, &cache);
    let got: Vec<(&str, &str)> = rows.iter().map(|(a, b)| (a.as_str(), b.as_str())).collect();
    assert_eq!(
        got,
        vec![("C2", "\u{2014}"), ("C2", "LM358"), ("R1", "\u{2014}"), ("U1", "LM358")]
    );
}

fn row(id: u128, name: &str, desc: Option<&str>, updated_at: i128) -> DesignRow {
    DesignRow { id, name: name.to_string(), description: desc.map(|d| d.to_string()), updated_at }
}

fn sample_rows() -> Vec<DesignRow> {
    vec![
        row(1, "Amp board", Some("audio"), 30),
        row(2, "beta", None, 10),
        row(3, "Zeta", Some("AUDIO preamp"), 20),
        row(4, "Amp board", None, 20),
    ]
}

#[test]
fn project_search_and_order() {
    let rows = sample_rows();
    assert_eq!(filtered_project_designs(&rows, "", ProjectsSort::NameAsc, &[]), vec![0, 3, 2, 1]);
    assert_eq!(filtered_project_designs(&rows, "", ProjectsSort::NameDesc, &[]), vec![1, 2, 0, 3]);
    assert_eq!(filtered_project_designs(&rows, "", ProjectsSort::UpdatedAsc, &[]), vec![1, 2, 3, 0]);
    assert_eq!(filtered_project_designs(&rows, "", ProjectsSort::UpdatedDesc, &[]), vec![0, 2, 3, 1]);
    assert_eq!(filtered_project_designs(&rows, " Audio ", ProjectsSort::NameAsc, &[]), vec![0, 2]);
    assert_eq!(filtered_project_designs(&rows, "", ProjectsSort::NameAsc, &[2, 3]), vec![2, 1, 0, 3]);
    assert!(filtered_project_designs(&rows, "nothing", ProjectsSort::NameAsc, &[]).is_empty());
}

#[test]
fn project_search_lowercases_unicode() {
    let rows = vec![row(1, "\u{c9}TUDE", None, 1), row(2, "other", None, 2)];
    assert_eq!(filtered_project_designs(&rows, "\u{e9}tu", ProjectsSort::NameAsc, &[]), vec![0]);
}

#[test]
fn project_order_with_given_matches() {
    let rows = sample_rows();
    assert_eq!(project_design_order(&rows, &[true, false, true, true], ProjectsSort::UpdatedDesc, &[4]), vec![3, 0, 2]);
    assert!(design_matches("amp board", None, ""));
    assert!(design_matches("zeta", Some("audio preamp"), "pre"));
    assert!(!design_matches("zeta", None, "pre"));
}

#[test]
fn palette_entries_and_commands() {
    assert_eq!(palette_entries("").len(), COMMAND_LIST.len());
    let tools: Vec<&str> = palette_entries("TOOL").iter().map(|&i| COMMAND_LIST[i].0).collect();
    assert_eq!(tools, vec!["select", "wire", "label", "power", "place", "pan"]);
    assert_eq!(palette_command("export_pdf"), Some(PaletteCommand::ExportPdf));
    assert_eq!(palette_command("grid"), Some(PaletteCommand::ToggleGrid));
    assert_eq!(palette_command("nope"), None);
    assert!(palette_entry_listed("zoom to fit", ""));
    assert!(palette_entry_listed("zoom to fit", "to f"));
    assert!(!palette_entry_listed("zoom to fit", "Zoom"));
}

#[test]
fn footprint_classes() {
    assert_eq!(footprint_class("Resistor_SMD:R_0805_2012Metric"), FootprintClass::Chip0805);
    assert_eq!(footprint_class("sot-23"), FootprintClass::Sot23);
    assert_eq!(footprint_class("Package_QFP:LQFP-48"), FootprintClass::Qfp);
    assert_eq!(footprint_class("PinHeader_1x04"), FootprintClass::Header1x04);
    assert_eq!(footprint_class("TO-220"), FootprintClass::Other);
}

#[test]
fn generated_symbols_parse_back() {
    let text = semiconductor_3pin("2N7002", "N-MOSFET", "Q");
    let lib = SymbolLibFile::parse(&text).unwrap();
    let sym = &lib.symbols()[0];
    assert_eq!(sym.name, "2N7002");
    assert_eq!(sym.pins.len(), 3);
    assert_eq!(sym.properties[0].default_text, "Q");
    assert_eq!(sym.properties[2].default_text, "N-MOSFET");
    assert!(text.starts_with("(tokito_symbol_lib\n\t(version 20251024)\n"));
    let reg = regulator_3pin("LM317", "Adjustable regulator", "TO-220");
    let lib = SymbolLibFile::parse(&reg).unwrap();
    let sym = &lib.symbols()[0];
    assert_eq!(sym.properties.len(), 4);
    assert_eq!(sym.properties[3].name, "Footprint");
    assert_eq!(sym.properties[3].default_text, "TO-220");
    assert_eq!(sym.pins[1].angle.as_deref(), Some("270"));
}

fn kicad_symbol(name: Option<&str>, pins: usize) -> kiutils_kicad::Symbol {
    kiutils_kicad::Symbol {
        name: name.map(|n| n.to_string()),
        property_count: 0,
        pin_count: pins,
        unit_count: 0,
        has_embedded_fonts: false,
        properties: Vec::new(),
        pins: Vec::new(),
        units: Vec::new(),
        graphics: Vec::new(),
        graphic_count: 0,
        extends: None,
        in_bom: None,
        on_board: None,
        pin_names_hide: false,
        pin_names_offset: None,
        pin_numbers_hide: false,
        power: false,
        exclude_from_sim: None,
    }
}

#[test]
fn kicad_library_names() {
    assert_eq!(short_name("Device:R"), "R");
    assert_eq!(short_name("A:B:C"), "C");
    assert_eq!(short_name("plain"), "plain");
    let symbols = vec![
        (Some("Device:R".to_string()), kicad_symbol(Some("Device:R"), 2)),
        (None, kicad_symbol(None, 0)),
        (Some("Other:R".to_string()), kicad_symbol(Some("Other:R"), 3)),
        (Some("Device:R".to_string()), kicad_symbol(Some("Device:R"), 4)),
        (Some("Device:Q_NPN_BCE".to_string()), kicad_symbol(Some("Device:Q_NPN_BCE"), 3)),
    ];
    let lib = KicadSymbolLibrary::from_symbols(std::path::PathBuf::from("lib.kicad_sym"), symbols);
    assert!(lib.contains("Device:R"));
    assert!(!lib.contains("R"));
    // A later symbol of the same name replaces the earlier one.
    assert_eq!(lib.symbol("Device:R").unwrap().pin_count, 4);
    assert_eq!(lib.resolve_symbol_name_for_kind(CompKind::Resistor).as_deref(), Some("Device:R"));
    assert_eq!(lib.resolve_symbol_name_for_kind(CompKind::Transistor).as_deref(), Some("Device:Q_NPN_BCE"));
    assert_eq!(lib.resolve_symbol_name_for_kind(CompKind::IC), None);
    let short_only = KicadSymbolLibrary::from_symbols(
        std::path::PathBuf::from("x"),
        vec![(Some("Passive:C".to_string()), kicad_symbol(Some("Passive:C"), 2))],
    );
    assert_eq!(short_only.resolve_symbol_name_for_kind(CompKind::Capacitor).as_deref(), Some("Passive:C"));
    assert_eq!(lib.path, std::path::PathBuf::from("lib.kicad_sym"));
}

use tokito_native::studio_state::{ConsoleLog, RecentDesigns, CONSOLE_MAX_LINES, RECENT_DESIGNS_MAX};

#[test]
fn console_keeps_latest_lines() {
    let mut c = ConsoleLog::new();
    for i in 0..(CONSOLE_MAX_LINES + 3) {
        c.log_console(format!("line {i}"));
    }
    assert_eq!(c.lines.len(), CONSOLE_MAX_LINES);
    assert_eq!(c.lines[0], "line 3");
    assert_eq!(c.lines.last().unwrap(), &format!("line {}", CONSOLE_MAX_LINES + 2));
    let shown = c.set_err("disk full");
    assert_eq!(shown, "disk full");
    assert_eq!(c.lines.last().unwrap(), "[error] disk full");
    assert_eq!(c.lines.len(), CONSOLE_MAX_LINES);
}

#[test]
fn recent_designs_move_to_front() {
    let mut r = RecentDesigns::new();
    r.push_recent_design(1);
    r.push_recent_design(2);
    r.push_recent_design(3);
    r.push_recent_design(1);
    assert_eq!(r.ids, vec![1, 3, 2]);
    for id in 10..60u128 {
        r.push_recent_design(id);
    }
    assert_eq!(r.ids.len(), RECENT_DESIGNS_MAX);
    assert_eq!(r.ids[0], 59);
    assert_eq!(r.ids[RECENT_DESIGNS_MAX - 1], 36);
}

#[test]
fn display_pins_sorted_unique() {
    assert_eq!(
        display_pins_for_symbol(&strings(&["3", "1", "2", "1"]), &[true, true, false, true]),
        vec!["1", "3"]
    );
    assert_eq!(display_pins_for_symbol(&strings(&["1", "2"]), &[true, false]), vec!["1"]);
    assert_eq!(display_pins_for_symbol(&[], &[true, true]), vec!["1", "2"]);
    assert_eq!(display_pins_for_symbol(&[], &[false, true]), vec!["2"]);
    assert!(display_pins_for_symbol(&strings(&["A"]), &[false]).is_empty());
    assert_eq!(
        display_pins_for_symbol(&strings(&["B", "A", "10", "9"]), &[true, true, true, true]),
        vec!["10", "9", "A", "B"]
    );
}
