# tokito_native

The verified core of a schematic-capture tool, written in Verus.

- `src/` is the library, every function proved against its contract:
  the S-expression reader and the `.tokito_sym` / `.kicad_sym` library
  format and what printing then reading gives (`sexpr`, `sexpr_layout`,
  `lib_file`, `symbol_gen`), the symbol libraries and
  their lookups (`base_library`, `kicad_library`, `component_value`,
  `symbol_kind`), the editor's state (`editor_state`, `selection`,
  `shortcuts`, `history`, `tools`, `wiring`, `connectivity`,
  `item_lists`, `netlist`), and the
  studio panels' lists and text (`studio`, `studio_state`, `projects`,
  `palette`, `erc`, `mcad`). Public `law_*` proof functions state the
  properties that hold across calls.
- `tests/` runs the library on concrete inputs.
- `app/` is a small command-line front end: file and folder I/O, the
  KiCad reader, and the numeric (floating-point) symbol geometry.
