//! Editor state that involves no canvas geometry: the selection filter,
//! sheet entries, pin references, hover results and interaction messages.

use vstd::prelude::*;

verus! {

/// Which kinds of items a marquee or select-all picks up.
#[derive(Clone, Copy, Debug, PartialEq, Eq)]
pub enum SelectionFilter {
    All,
    Symbols,
    Wires,
    Labels,
    Annotations,
}

/// Caption of a selection filter.
pub open spec fn selection_filter_label(f: SelectionFilter) -> Seq<char> {
    match f {
        SelectionFilter::All => "All"@,
        SelectionFilter::Symbols => "Symbols"@,
        SelectionFilter::Wires => "Wires"@,
        SelectionFilter::Labels => "Labels"@,
        SelectionFilter::Annotations => "Annotations"@,
    }
}

/// The next filter in the toolbar cycle.
pub open spec fn next_filter(f: SelectionFilter) -> SelectionFilter {
    match f {
        SelectionFilter::All => SelectionFilter::Symbols,
        SelectionFilter::Symbols => SelectionFilter::Wires,
        SelectionFilter::Wires => SelectionFilter::Labels,
        SelectionFilter::Labels => SelectionFilter::Annotations,
        SelectionFilter::Annotations => SelectionFilter::All,
    }
}

/// The filter admits symbols.
pub open spec fn admits_symbols(f: SelectionFilter) -> bool {
    f == SelectionFilter::All || f == SelectionFilter::Symbols
}

/// The filter admits wires (and buses).
pub open spec fn admits_wires(f: SelectionFilter) -> bool {
    f == SelectionFilter::All || f == SelectionFilter::Wires
}

/// The filter admits net labels and power symbols.
pub open spec fn admits_labels(f: SelectionFilter) -> bool {
    f == SelectionFilter::All || f == SelectionFilter::Labels
}

/// The filter admits junctions, no-connects and text.
pub open spec fn admits_annotations(f: SelectionFilter) -> bool {
    f == SelectionFilter::All || f == SelectionFilter::Annotations
}

impl SelectionFilter {
    /// The filter a new editor starts with.
    pub fn default_filter() -> (f: SelectionFilter)
        ensures
            f == SelectionFilter::All,
    {
        SelectionFilter::All
    }

    /// Caption of the filter.
    pub fn label(self) -> (s: &'static str)
        ensures
            s@ == selection_filter_label(self),
    {
        match self {
            SelectionFilter::All => "All",
            SelectionFilter::Symbols => "Symbols",
            SelectionFilter::Wires => "Wires",
            SelectionFilter::Labels => "Labels",
            SelectionFilter::Annotations => "Annotations",
        }
    }

    /// Next filter: All, Symbols, Wires, Labels, Annotations, then All again.
    pub fn cycle(self) -> (f: SelectionFilter)
        ensures
            f == next_filter(self),
    {
        match self {
            SelectionFilter::All => SelectionFilter::Symbols,
            SelectionFilter::Symbols => SelectionFilter::Wires,
            SelectionFilter::Wires => SelectionFilter::Labels,
            SelectionFilter::Labels => SelectionFilter::Annotations,
            SelectionFilter::Annotations => SelectionFilter::All,
        }
    }

    /// Whether the filter admits symbols.
    pub fn allows_symbols(self) -> (r: bool)
        ensures
            r == admits_symbols(self),
    {
        matches!(self, SelectionFilter::All | SelectionFilter::Symbols)
    }

    /// Whether the filter admits wires and buses.
    pub fn allows_wires(self) -> (r: bool)
        ensures
            r == admits_wires(self),
    {
        matches!(self, SelectionFilter::All | SelectionFilter::Wires)
    }

    /// Whether the filter admits net labels and power symbols.
    pub fn allows_labels(self) -> (r: bool)
        ensures
            r == admits_labels(self),
    {
        matches!(self, SelectionFilter::All | SelectionFilter::Labels)
    }

    /// Whether the filter admits junctions, no-connects and text.
    pub fn allows_annotations(self) -> (r: bool)
        ensures
            r == admits_annotations(self),
    {
        matches!(self, SelectionFilter::All | SelectionFilter::Annotations)
    }
}

/// Cycling the filter five times comes back to where it started, and the
/// five filters met on the way are all different (so every filter is met).
pub proof fn law_filter_cycle_period(f: SelectionFilter)
    ensures
        next_filter(next_filter(next_filter(next_filter(next_filter(f))))) == f,
        iterate_filter(f, 5) == f,
        forall|j: int, k: int|
            0 <= j < k < 5 ==> #[trigger] iterate_filter(f, j) != #[trigger] iterate_filter(f, k),
{
    assert(iterate_filter(f, 0) == f);
    assert(iterate_filter(f, 1) == next_filter(f));
    assert(iterate_filter(f, 2) == next_filter(next_filter(f)));
    assert(iterate_filter(f, 3) == next_filter(next_filter(next_filter(f))));
    assert(iterate_filter(f, 4) == next_filter(next_filter(next_filter(next_filter(f)))));
    assert(iterate_filter(f, 5) == next_filter(iterate_filter(f, 4)));
}

/// The filter after `k` cycle steps.
pub open spec fn iterate_filter(f: SelectionFilter, k: int) -> SelectionFilter
    decreases k,
{
    if k <= 0 {
        f
    } else {
        next_filter(iterate_filter(f, k - 1))
    }
}

/// `All` admits every kind of item; each other filter admits exactly one.
pub proof fn law_filter_admits_one_kind(f: SelectionFilter)
    ensures
        f == SelectionFilter::All ==> admits_symbols(f) && admits_wires(f) && admits_labels(f) && admits_annotations(f),
        f != SelectionFilter::All ==> (admits_symbols(f) as int) + (admits_wires(f) as int) + (admits_labels(f) as int)
            + (admits_annotations(f) as int) == 1,
{
}

/// A schematic sheet of the design.
#[derive(Debug)]
pub struct SheetInfo {
    pub id: String,
    pub name: String,
}

/// A symbol pin, named by the symbol's reference designator and pin name.
#[derive(Debug)]
pub struct PinEndpoint {
    pub ref_des: String,
    pub pin_name: String,
}

/// What the pointer is over: a symbol and possibly one of its pins.
#[derive(Debug)]
pub struct HoverState {
    pub symbol: Option<String>,
    pub pin: Option<PinEndpoint>,
}

/// Outcome of a pointer interaction: a message for the console, if any.
#[derive(Debug)]
pub struct InteractionResult {
    pub log: Option<String>,
}

impl InteractionResult {
    /// An interaction with nothing to report.
    pub fn none() -> (r: Self)
        ensures
            r.log is None,
    {
        InteractionResult { log: None }
    }

    /// An interaction that reports `s`.
    pub fn msg(s: String) -> (r: Self)
        ensures
            r.log == Some(s),
    {
        InteractionResult { log: Some(s) }
    }
}

/// Pin names drawn on the right of a default symbol body (compared after
/// trimming and ASCII lower-casing).
pub open spec fn is_right_pin_name(l: Seq<char>) -> bool {
    l == "2"@ || l == "b"@ || l == "out"@ || l == "vout"@ || l == "sda"@ || l == "scl"@ || l == "tx"@ || l == "miso"@
}

/// Whether a pin of a symbol without library art goes on the right side:
/// outputs and second terminals by name, or a name ending in `_b`.
pub fn pin_on_right_side(pin_name: &str) -> (r: bool)
    ensures
        r == (is_right_pin_name(crate::text::ascii_lower(crate::text::trim_ws(pin_name@)))
            || crate::text::has_suffix(pin_name@, "_b"@)),
{
    let l = crate::text::to_ascii_lower(crate::text::trim(pin_name));
    let t = l.as_str();
    let named = crate::text::str_eq(t, "2") || crate::text::str_eq(t, "b") || crate::text::str_eq(t, "out")
        || crate::text::str_eq(t, "vout") || crate::text::str_eq(t, "sda") || crate::text::str_eq(t, "scl")
        || crate::text::str_eq(t, "tx") || crate::text::str_eq(t, "miso");
    named || crate::text::ends_with(pin_name, "_b")
}

} // verus!

verus! {

/// The pins drawn on the right of a default body: those named `2`, `B`,
/// `OUT`, `VOUT`, `SDA`, `SCL`, `TX` or `MISO`, in any ASCII case and
/// with any surrounding white space, and those whose name ends in `_b`;
/// every other pin goes on the left.
pub proof fn law_right_side_pins(pin_name: Seq<char>)
    ensures
        ({
            let l = crate::text::ascii_lower(crate::text::trim_ws(pin_name));
            let named = l == "2"@ || l == "b"@ || l == "out"@ || l == "vout"@ || l == "sda"@ || l == "scl"@
                || l == "tx"@ || l == "miso"@;
            let right = is_right_pin_name(l) || crate::text::has_suffix(pin_name, "_b"@);
            &&& named ==> right
            &&& crate::text::has_suffix(pin_name, "_b"@) ==> right
            &&& (!named && !crate::text::has_suffix(pin_name, "_b"@)) ==> !right
        }),
{
}

} // verus!
