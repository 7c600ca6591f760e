use tokito_native::lib_file::{pin_names, GraphicRecord, PointText, SymbolLibFile};

const IMPORT_ROOT: &str = r#"(kicad_symbol_lib
	(version 20220914)
	(symbol "Device:R"
		(pin passive line
			(at 0 3.81 270)
			(length 1.27)
			(name "2" (effects (font (size 1.27 1.27))))
			(number "2" (effects (font (size 1.27 1.27))))
		)
		(pin passive line
			(at 0 -3.81 90)
			(length 1.27)
			(name "1" (effects (font (size 1.27 1.27))))
			(number "1" (effects (font (size 1.27 1.27))))
		)
		(property "Reference" "R"
			(at 2.032 0 90)
			(effects (font (size 1.27 1.27)))
		)
	)
)"#;

#[test]
fn parses_import_symbol_lib_root() {
    let lib = SymbolLibFile::parse(IMPORT_ROOT).expect("import root");
    assert_eq!(lib.symbols().len(), 1);
    assert_eq!(lib.symbols()[0].pins.len(), 2);
}

fn point(p: &Option<PointText>) -> (Option<&str>, Option<&str>) {
    match p {
        Some(p) => (p.x.as_deref(), p.y.as_deref()),
        None => (None, None),
    }
}

#[test]
fn import_root_pin_and_property_fields() {
    let lib = SymbolLibFile::parse(IMPORT_ROOT).unwrap();
    let sym = &lib.symbols()[0];
    assert_eq!(sym.name, "Device:R");
    assert!(sym.extends.is_none());
    assert!(sym.graphics.is_empty());
    let p0 = &sym.pins[0];
    assert_eq!(p0.number.as_deref(), Some("2"));
    assert_eq!(point(&p0.at), (Some("0"), Some("3.81")));
    assert_eq!(p0.angle.as_deref(), Some("270"));
    assert_eq!(p0.length.as_deref(), Some("1.27"));
    let p1 = &sym.pins[1];
    assert_eq!(p1.number.as_deref(), Some("1"));
    assert_eq!(point(&p1.at), (Some("0"), Some("-3.81")));
    assert_eq!(p1.angle.as_deref(), Some("90"));
    assert_eq!(sym.properties.len(), 1);
    let prop = &sym.properties[0];
    assert_eq!(prop.name, "Reference");
    assert_eq!(prop.default_text, "R");
    assert_eq!(prop.placements.len(), 1);
    assert_eq!(prop.placements[0].x.as_deref(), Some("2.032"));
    assert_eq!(prop.placements[0].y.as_deref(), Some("0"));
    assert_eq!(prop.placements[0].rot.as_deref(), Some("90"));
    assert!(!prop.hide);
    // `(font (size ...))` has no atoms of its own, so no sizes are read.
    let font = prop.font.as_ref().expect("font");
    assert!(font.height.is_none());
    assert!(font.width.is_none());
}

const NESTED: &str = r#"(tokito_symbol_lib
  (symbol "Base"
    (property "Value" "Base" (at 1 2 0) (at 3 4 90) (hide yes) (effects (font 1.5 2.5)))
    (symbol "Base_0_1"
      (rectangle (start -1 1) (end 1 -1))
      (polyline (pts (xy 0 0) (xy 1 1) (xy 2 0)))
      (circle (center 0 0) (radius 1)))
    (symbol "Base_1_1" (pin input line (at -2 0) (length 1) (number "1") (at -3 0))))
  (symbol "Child" (extends "Base")))"#;

#[test]
fn nested_units_contribute_graphics_and_pins() {
    let lib = SymbolLibFile::parse(NESTED).unwrap();
    let syms = lib.symbols();
    assert_eq!(syms.len(), 2);
    let base = &syms[0];
    assert_eq!(base.name, "Base");
    assert_eq!(base.graphics.len(), 3);
    match &base.graphics[0] {
        GraphicRecord::Shape { kind, start, end, center } => {
            assert_eq!(kind, "rectangle");
            assert_eq!(point(start), (Some("-1"), Some("1")));
            assert_eq!(point(end), (Some("1"), Some("-1")));
            assert!(center.is_none());
        },
        GraphicRecord::Polyline { .. } => panic!("expected a rectangle"),
    }
    match &base.graphics[1] {
        GraphicRecord::Polyline { points } => {
            let pts: Vec<(Option<&str>, Option<&str>)> =
                points.iter().map(|p| (p.x.as_deref(), p.y.as_deref())).collect();
            assert_eq!(pts, vec![(Some("0"), Some("0")), (Some("1"), Some("1")), (Some("2"), Some("0"))]);
        },
        GraphicRecord::Shape { .. } => panic!("expected a polyline"),
    }
    match &base.graphics[2] {
        GraphicRecord::Shape { kind, center, start, .. } => {
            assert_eq!(kind, "circle");
            assert_eq!(point(center), (Some("0"), Some("0")));
            assert!(start.is_none());
        },
        GraphicRecord::Polyline { .. } => panic!("expected a circle"),
    }
    assert_eq!(base.pins.len(), 1);
    // The last `at` of a pin wins; it has no angle atom.
    assert_eq!(point(&base.pins[0].at), (Some("-3"), Some("0")));
    assert!(base.pins[0].angle.is_none());
    let prop = &base.properties[0];
    assert_eq!(prop.placements.len(), 2);
    assert_eq!(prop.placements[1].rot.as_deref(), Some("90"));
    assert!(prop.hide);
    let font = prop.font.as_ref().unwrap();
    assert_eq!(font.height.as_deref(), Some("1.5"));
    assert_eq!(font.width.as_deref(), Some("2.5"));
    let child = &syms[1];
    assert_eq!(child.extends.as_deref(), Some("Base"));
    assert!(child.pins.is_empty() && child.graphics.is_empty() && child.properties.is_empty());
}

#[test]
fn atom_root_is_rejected() {
    let e = SymbolLibFile::parse("tokito_symbol_lib").unwrap_err();
    assert_eq!(e.message, "expected symbol library root list");
}

#[test]
fn unsupported_root_is_rejected() {
    let e = SymbolLibFile::parse("((eeschema_lib) (symbol \"A\"))").unwrap_err();
    assert_eq!(e.message, "unsupported library root 'eeschema_lib'");
}

#[test]
fn root_tag_atom_is_not_checked() {
    // Only a first item that is itself a headed list is checked.
    let lib = SymbolLibFile::parse("(other_lib (symbol \"A\"))").unwrap();
    assert_eq!(lib.symbols()[0].name, "A");
}

#[test]
fn library_without_symbols_is_rejected() {
    let e = SymbolLibFile::parse("(kicad_symbol_lib (version 1))").unwrap_err();
    assert_eq!(e.message, "no symbols found in library file");
}

#[test]
fn syntax_errors_pass_through() {
    let e = SymbolLibFile::parse("(kicad_symbol_lib (symbol \"A\")").unwrap_err();
    assert_eq!(e.message, "unclosed list");
}

#[test]
fn symbol_without_name_atom_is_skipped() {
    let lib = SymbolLibFile::parse("(tokito_symbol_lib (symbol (x)) (symbol \"B\"))").unwrap();
    assert_eq!(lib.symbols().len(), 1);
    assert_eq!(lib.symbols()[0].name, "B");
}

#[test]
fn normalize_rewrites_imported_root() {
    assert_eq!(
        SymbolLibFile::normalize_to_tokito_format("  \n(kicad_symbol_lib (version 1))"),
        "(tokito_symbol_lib (version 1))"
    );
    assert_eq!(SymbolLibFile::normalize_to_tokito_format("  (other 1)"), "  (other 1)");
}

#[test]
fn library_extensions() {
    assert!(SymbolLibFile::is_library_extension(Some(SymbolLibFile::EXTENSION)));
    assert!(SymbolLibFile::is_library_extension(Some(SymbolLibFile::IMPORT_SYM_EXT)));
    assert!(!SymbolLibFile::is_library_extension(Some("txt")));
    assert!(!SymbolLibFile::is_library_extension(None));
}

#[test]
fn into_symbols_keeps_file_order() {
    let lib = SymbolLibFile::parse(NESTED).unwrap();
    let names: Vec<String> = lib.into_symbols().into_iter().map(|s| s.name).collect();
    assert_eq!(names, vec!["Base", "Child"]);
}

#[test]
fn normalize_twice_is_normalize_once() {
    for text in ["  (kicad_symbol_lib (symbol \"A\"))", "(tokito_symbol_lib)", " x"] {
        let once = SymbolLibFile::normalize_to_tokito_format(text);
        assert_eq!(SymbolLibFile::normalize_to_tokito_format(&once), once);
    }
}

#[test]
fn importable_paths() {
    assert!(SymbolLibFile::is_importable_path("/tmp/lib/Device/R.tokito_sym"));
    assert!(!SymbolLibFile::is_importable_path("/tmp/lib/Device/R.kicad_sym"));
    assert!(!SymbolLibFile::is_importable_path("tokito_sym"));
}

#[test]
fn pins_named_by_number_or_position() {
    let numbers = vec![Some("A".to_string()), None, Some(String::new()), Some("7".to_string()), None];
    let placed = vec![true, false, true, true, true];
    assert_eq!(pin_names(&numbers, &placed), vec!["A", "2", "7", "4"]);
}
