//! Verified core of a schematic-capture tool: the symbol-library file format
//! and its S-expression reader, the symbol libraries and their lookups,
//! component value heuristics, the editor's modes, selection, shortcuts and
//! undo history, and the list and text helpers of the studio panels.

pub mod base_library;
pub mod component_value;
pub mod connectivity;
pub mod editor_state;
pub mod erc;
pub mod history;
pub mod item_lists;
pub mod kicad_library;
pub mod lib_file;
pub mod netlist;
pub mod mcad;
pub mod palette;
pub mod projects;
pub mod selection;
pub mod sexpr;
pub mod sexpr_layout;
pub mod shortcuts;
pub mod studio;
pub mod studio_state;
pub mod symbol_gen;
pub mod symbol_kind;
pub mod text;
pub mod tools;
pub mod wiring;
