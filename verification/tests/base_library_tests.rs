use tokito_native::base_library::{library_prefix_for_folder, placement_value_for_symbols, symbol_hits, BaseSymbolLibrary};
use tokito_native::lib_file::SymbolLibFile;
use tokito_native::symbol_kind::CompKind;

#[test]
fn refdes_prefix_for_opamp_is_u_not_l() {
    assert_eq!(
        BaseSymbolLibrary::refdes_prefix_for_library_id("Amplifier_Operational:LM358"),
        "U"
    );
    assert_eq!(
        BaseSymbolLibrary::refdes_prefix_for_library_id("Device:R"),
        "R"
    );
    assert_eq!(
        BaseSymbolLibrary::refdes_prefix_for_library_id("Connector:Conn_01x02"),
        "J"
    );
}

#[test]
fn refdes_prefix_other_families() {
    assert_eq!(BaseSymbolLibrary::refdes_prefix_for_library_id("Device:Q_NPN"), "Q");
    assert_eq!(BaseSymbolLibrary::refdes_prefix_for_library_id("Device:X"), "U");
    assert_eq!(BaseSymbolLibrary::refdes_prefix_for_library_id("Crystal:HC49"), "Y");
    assert_eq!(BaseSymbolLibrary::refdes_prefix_for_library_id("Switch:SW_Push"), "S");
    assert_eq!(BaseSymbolLibrary::refdes_prefix_for_library_id("Battery:CR2032"), "BT");
    assert_eq!(BaseSymbolLibrary::refdes_prefix_for_library_id("LED:WS2812"), "D");
    assert_eq!(BaseSymbolLibrary::refdes_prefix_for_library_id("BC547"), "Q");
    assert_eq!(BaseSymbolLibrary::refdes_prefix_for_library_id("Misc:C"), "C");
    assert_eq!(BaseSymbolLibrary::refdes_prefix_for_library_id("Foo"), "U");
}

#[test]
fn fallback_templates() {
    assert_eq!(
        BaseSymbolLibrary::fallback_template_for_key("Amplifier_Operational:TL072"),
        Some("Interface:MCP6002")
    );
    assert_eq!(BaseSymbolLibrary::fallback_template_for_key("Diode:1N4007"), Some("Device:D"));
    assert_eq!(BaseSymbolLibrary::fallback_template_for_key("Device:R"), None);
}

fn lib_from(text: &str, prefix: Option<&str>) -> BaseSymbolLibrary {
    let mut lib = BaseSymbolLibrary::new();
    lib.load_symbols(SymbolLibFile::parse(text).unwrap(), prefix);
    lib
}

const DEVICE: &str = r#"(tokito_symbol_lib
  (symbol "R" (property "Value" "R" (at 0 0 0)) (pin passive line (at 0 1 270) (number "1")) (pin passive line (at 0 -1 90) (number "2")))
  (symbol "C" (property "Value" "" (at 0 0 0)) (pin passive line (at 0 1 270) (number "1")))
  (symbol "U" (rectangle (start -1 1) (end 1 -1)))
  (symbol "D" (pin passive line (at 0 1 270) (number "1"))))"#;

const AMPS: &str = r#"(tokito_symbol_lib
  (symbol "LM358" (pin input line (at -5 0 0) (number "1")))
  (symbol "TL072" (extends "LM358"))
  (symbol "OPA2134" (extends "Missing")))"#;

const INTERFACE: &str = r#"(tokito_symbol_lib
  (symbol "MCP6002" (polyline (pts (xy 0 0) (xy 1 1))) (pin input line (at -5 0 0) (number "3"))))"#;

fn sample_library() -> BaseSymbolLibrary {
    let mut lib = lib_from(DEVICE, Some("Device"));
    lib.load_symbols(SymbolLibFile::parse(AMPS).unwrap(), Some("Amplifier_Operational"));
    lib.load_symbols(SymbolLibFile::parse(INTERFACE).unwrap(), Some("Interface"));
    lib
}

#[test]
fn load_then_lookup() {
    let lib = sample_library();
    assert_eq!(lib.symbol_count(), 8);
    assert!(lib.contains("Device:R"));
    assert!(!lib.contains("R"));
    assert_eq!(lib.symbol("Device:R").unwrap().pins.len(), 2);
    assert!(lib.symbol("Nope:R").is_none());
}

#[test]
fn load_without_prefix_keeps_short_names() {
    let lib = lib_from(DEVICE, None);
    assert!(lib.contains("R"));
    assert!(!lib.contains("Device:R"));
}

#[test]
fn reloading_an_id_replaces_the_symbol() {
    let mut lib = lib_from(DEVICE, Some("Device"));
    lib.load_symbols(
        SymbolLibFile::parse("(tokito_symbol_lib (symbol \"R\" (property \"Value\" \"1k\")))").unwrap(),
        Some("Device"),
    );
    assert_eq!(lib.symbol_count(), 4);
    assert_eq!(lib.default_value_for("Device:R"), "1k");
}

#[test]
fn default_values() {
    let lib = sample_library();
    assert_eq!(lib.default_value_for("Device:R"), "R");
    // An empty Value field falls back to the id's suggestion.
    assert_eq!(lib.default_value_for("Device:C"), "C");
    assert_eq!(lib.default_value_for("Amplifier_Operational:LM358"), "LM358");
    assert_eq!(lib.default_value_for("Unknown:SW_Push"), "SW");
}

#[test]
fn resolve_extends_copies_parent_art() {
    let mut lib = sample_library();
    assert!(lib.symbol("Amplifier_Operational:TL072").unwrap().pins.is_empty());
    lib.finish_loading();
    let tl = lib.symbol("Amplifier_Operational:TL072").unwrap();
    assert_eq!(tl.pins.len(), 1);
    assert_eq!(tl.pins[0].number.as_deref(), Some("1"));
    // An unknown parent falls back to the op-amp template.
    let opa = lib.symbol("Amplifier_Operational:OPA2134").unwrap();
    assert_eq!(opa.pins[0].number.as_deref(), Some("3"));
    assert_eq!(opa.graphics.len(), 1);
    // Symbols with art are untouched.
    assert_eq!(lib.symbol("Device:R").unwrap().pins.len(), 2);
    assert_eq!(lib.symbol_count(), 8);
}

#[test]
fn resolve_for_kind_prefers_full_then_short_names() {
    let lib = sample_library();
    assert_eq!(lib.resolve_symbol_name_for_kind(CompKind::Resistor).as_deref(), Some("Device:R"));
    assert_eq!(lib.resolve_symbol_name_for_kind(CompKind::IC).as_deref(), Some("Device:U"));
    assert_eq!(lib.resolve_symbol_name_for_kind(CompKind::Transistor), None);
    let short_only = lib_from(DEVICE, Some("Passive"));
    assert_eq!(short_only.resolve_symbol_name_for_kind(CompKind::Resistor).as_deref(), Some("Passive:R"));
}

#[test]
fn mpn_lookup_ignores_ascii_case() {
    let lib = sample_library();
    for q in ["lm358", "LM358", "Lm358", " LM358\t"] {
        assert_eq!(lib.lookup_by_mpn(q).as_deref(), Some("Amplifier_Operational:LM358"));
    }
    assert_eq!(lib.lookup_by_mpn("MCP6002"), lib.lookup_by_mpn("mcp6002"));
}

#[test]
fn mpn_lookup_prefers_non_device_then_shorter() {
    let lib = sample_library();
    assert_eq!(lib.lookup_by_mpn(" lm358 ").as_deref(), Some("Amplifier_Operational:LM358"));
    assert_eq!(lib.lookup_by_mpn("x"), None);
    assert_eq!(lib.lookup_by_mpn("zz"), None);
    // Every `Device:` id contains "e:", and so does `Interface:MCP6002`;
    // ids outside `Device` come first.
    assert_eq!(lib.lookup_by_mpn("E:").as_deref(), Some("Interface:MCP6002"));
    let mut ranked = lib_from("(tokito_symbol_lib (symbol \"LM358X\"))", Some("Device"));
    ranked.load_symbols(SymbolLibFile::parse("(tokito_symbol_lib (symbol \"LM358_DUAL_OPAMP\"))").unwrap(), Some("Vendor"));
    ranked.load_symbols(SymbolLibFile::parse("(tokito_symbol_lib (symbol \"LM358\"))").unwrap(), Some("Amp"));
    assert_eq!(ranked.lookup_by_mpn("lm358").as_deref(), Some("Amp:LM358"));
}

#[test]
fn default_for_prefix_u_prefers_ic_family_keys() {
    let lib = sample_library();
    assert_eq!(lib.default_for_prefix("U").as_deref(), Some("Amplifier_Operational:LM358"));
    assert_eq!(lib.default_for_prefix("R").as_deref(), Some("Device:R"));
    assert_eq!(lib.default_for_prefix("Q"), None);
    assert_eq!(lib.default_for_prefix("X").as_deref(), Some("Device:U"));
    let device_only = lib_from(DEVICE, Some("Device"));
    assert_eq!(device_only.default_for_prefix("U").as_deref(), Some("Device:U"));
}

#[test]
fn placement_resolution_order() {
    let lib = sample_library();
    assert_eq!(
        lib.resolve_for_placement(Some("Device:C"), Some("LM358"), "U").as_deref(),
        Some("Device:C")
    );
    assert_eq!(
        lib.resolve_for_placement(Some("Device:ZZ"), Some("mcp6002"), "U").as_deref(),
        Some("Interface:MCP6002")
    );
    assert_eq!(lib.resolve_for_placement(Some(""), None, "R").as_deref(), Some("Device:R"));
    assert_eq!(lib.resolve_for_placement(None, None, "Q"), None);
}

#[test]
fn search_sorts_and_limits() {
    let lib = sample_library();
    assert_eq!(lib.search("  ", 3), vec!["Device:R", "Device:C", "Device:U"]);
    assert_eq!(
        lib.search(" AMP", 10),
        vec![
            "Amplifier_Operational:LM358",
            "Amplifier_Operational:OPA2134",
            "Amplifier_Operational:TL072"
        ]
    );
    assert_eq!(lib.search("device:", 2), vec!["Device:C", "Device:D"]);
    assert!(lib.search("nothing", 5).is_empty());
}

#[test]
fn place_panel_symbol_hits() {
    let lib = sample_library();
    assert_eq!(symbol_hits(Some(&lib), "   ").len(), 8);
    assert_eq!(symbol_hits(Some(&lib), " mcp ").len(), 1);
    assert!(symbol_hits(None, "r").is_empty());
}

#[test]
fn placement_values() {
    let lib = sample_library();
    assert_eq!(placement_value_for_symbols(Some(&lib), Some("Device:R"), "R", Some("RC0603")), "R");
    assert_eq!(placement_value_for_symbols(None, None, "C", None), "R");
    assert_eq!(placement_value_for_symbols(Some(&lib), Some("Device:U"), "U", Some("STM32")), "STM32");
    assert_eq!(placement_value_for_symbols(Some(&lib), Some("Device:U"), "U", None), "U");
    assert_eq!(placement_value_for_symbols(None, None, "U", None), "???");
}

#[test]
fn folder_prefixes() {
    assert_eq!(library_prefix_for_folder(Some("Device")), Some("Device"));
    assert_eq!(library_prefix_for_folder(Some("base-symbols")), None);
    assert_eq!(library_prefix_for_folder(Some("mine.symdir")), None);
    assert_eq!(library_prefix_for_folder(None), None);
}
