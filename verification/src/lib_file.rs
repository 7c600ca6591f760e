//! Symbol library files (`.tokito_sym`, and imported `.kicad_sym`).
//!
//! A library is one S-expression: a root list whose `symbol` items each
//! describe a symbol with its graphics, pins and fields. The reader keeps
//! every coordinate, angle and size as the atom text that the file holds;
//! turning that text into numbers is left to the caller.

use vstd::prelude::*;
use vstd::string::StringExecFns;
use vstd::string::StringSliceAdditionalSpecFns;

use crate::sexpr::{
    failure_message, lemma_list_head_model, lemma_sexprs_model, lemma_sexprs_model_subrange,
    list_head, model_head, model_items, model_tail, sexpr_model, sexprs_model, spec_parse,
    ParseError, Sexpr, SexprModel,
};
use crate::text::{opt_str, opt_string, str_eq};

verus! {

// ---------------------------------------------------------------------------
// Records
// ---------------------------------------------------------------------------

/// An `x`/`y` pair of atoms, as written in the file.
#[derive(Debug)]
pub struct PointText {
    pub x: Option<String>,
    pub y: Option<String>,
}

/// One `(at x y rot)` placement of a field, as written in the file.
#[derive(Debug)]
pub struct Placement {
    pub x: Option<String>,
    pub y: Option<String>,
    pub rot: Option<String>,
}

/// The `(font h w)` sizes of a field, as written in the file.
#[derive(Debug)]
pub struct FontText {
    pub height: Option<String>,
    pub width: Option<String>,
}

/// A `(pin ...)` record: the last `number`, `at` and `length` children.
#[derive(Debug)]
pub struct PinRecord {
    /// Atom of the last `(number n)` child.
    pub number: Option<String>,
    /// Point of the last `(at x y ...)` child.
    pub at: Option<PointText>,
    /// Third atom of the last `at` child that has one.
    pub angle: Option<String>,
    /// Atom of the last `(length l)` child.
    pub length: Option<String>,
}

/// A `(property "Name" "Text" ...)` record.
#[derive(Debug)]
pub struct PropertyRecord {
    pub name: String,
    pub default_text: String,
    /// Every `(at x y rot)` child, in file order.
    pub placements: Vec<Placement>,
    /// The last `(hide ...)` child says `yes`.
    pub hide: bool,
    /// First `font` of the last `effects` child that holds one.
    pub font: Option<FontText>,
}

/// A drawing primitive of a symbol.
#[derive(Debug)]
pub enum GraphicRecord {
    /// `line`, `rectangle`, `circle` or `arc` with the points of its last
    /// `start`, `end` and `center` children.
    Shape {
        kind: String,
        start: Option<PointText>,
        end: Option<PointText>,
        center: Option<PointText>,
    },
    /// `polyline`: the `xy` points of its first `pts` child, in order.
    Polyline { points: Vec<PointText> },
}

/// A library symbol.
#[derive(Debug)]
pub struct Symbol {
    pub name: String,
    /// Parent symbol name from `(extends "...")`.
    pub extends: Option<String>,
    pub graphics: Vec<GraphicRecord>,
    pub pins: Vec<PinRecord>,
    pub properties: Vec<PropertyRecord>,
}

/// A parsed symbol library file.
#[derive(Debug)]
pub struct SymbolLibFile {
    symbols: Vec<Symbol>,
}

// ---------------------------------------------------------------------------
// Models
// ---------------------------------------------------------------------------

/// Value of a point: its coordinate atoms.
pub struct PointModel {
    pub x: Option<Seq<char>>,
    pub y: Option<Seq<char>>,
}

/// Value of a field placement.
pub struct PlacementModel {
    pub x: Option<Seq<char>>,
    pub y: Option<Seq<char>>,
    pub rot: Option<Seq<char>>,
}

/// Value of a field font.
pub struct FontModel {
    pub height: Option<Seq<char>>,
    pub width: Option<Seq<char>>,
}

/// Value of a pin record.
pub struct PinModel {
    pub number: Option<Seq<char>>,
    pub at: Option<PointModel>,
    pub angle: Option<Seq<char>>,
    pub length: Option<Seq<char>>,
}

/// Value of a field record.
pub struct PropertyModel {
    pub name: Seq<char>,
    pub default_text: Seq<char>,
    pub placements: Seq<PlacementModel>,
    pub hide: bool,
    pub font: Option<FontModel>,
}

/// Value of a drawing primitive.
pub enum GraphicModel {
    Shape { kind: Seq<char>, start: Option<PointModel>, end: Option<PointModel>, center: Option<PointModel> },
    Polyline { points: Seq<PointModel> },
}

/// Value of a library symbol.
pub struct SymbolModel {
    pub name: Seq<char>,
    pub extends: Option<Seq<char>>,
    pub graphics: Seq<GraphicModel>,
    pub pins: Seq<PinModel>,
    pub properties: Seq<PropertyModel>,
}

/// The value of a point.
pub open spec fn point_view(p: PointText) -> PointModel {
    PointModel { x: opt_string(p.x), y: opt_string(p.y) }
}

/// The value of an optional point.
pub open spec fn opt_point_view(p: Option<PointText>) -> Option<PointModel> {
    match p {
        Some(q) => Some(point_view(q)),
        None => None,
    }
}

/// The value of a placement.
pub open spec fn placement_view(p: Placement) -> PlacementModel {
    PlacementModel { x: opt_string(p.x), y: opt_string(p.y), rot: opt_string(p.rot) }
}

/// The values of placements.
pub open spec fn placements_view(s: Seq<Placement>) -> Seq<PlacementModel> {
    s.map_values(|q: Placement| placement_view(q))
}

/// The values of points.
pub open spec fn points_view(s: Seq<PointText>) -> Seq<PointModel> {
    s.map_values(|q: PointText| point_view(q))
}

/// The value of an optional font.
pub open spec fn font_view(f: Option<FontText>) -> Option<FontModel> {
    match f {
        Some(g) => Some(FontModel { height: opt_string(g.height), width: opt_string(g.width) }),
        None => None,
    }
}

/// The value of a pin record.
pub open spec fn pin_view(p: PinRecord) -> PinModel {
    PinModel { number: opt_string(p.number), at: opt_point_view(p.at), angle: opt_string(p.angle), length: opt_string(p.length) }
}

/// The value of a field record.
pub open spec fn property_view(p: PropertyRecord) -> PropertyModel {
    PropertyModel {
        name: p.name@,
        default_text: p.default_text@,
        placements: placements_view(p.placements@),
        hide: p.hide,
        font: font_view(p.font),
    }
}

/// The value of a drawing primitive.
pub open spec fn graphic_view(g: GraphicRecord) -> GraphicModel {
    match g {
        GraphicRecord::Shape { kind, start, end, center } => GraphicModel::Shape {
            kind: kind@,
            start: opt_point_view(start),
            end: opt_point_view(end),
            center: opt_point_view(center),
        },
        GraphicRecord::Polyline { points } => GraphicModel::Polyline {
            points: points_view(points@),
        },
    }
}

/// The value of a symbol.
pub open spec fn symbol_view(s: Symbol) -> SymbolModel {
    SymbolModel {
        name: s.name@,
        extends: opt_string(s.extends),
        graphics: s.graphics@.map_values(|g: GraphicRecord| graphic_view(g)),
        pins: s.pins@.map_values(|p: PinRecord| pin_view(p)),
        properties: s.properties@.map_values(|p: PropertyRecord| property_view(p)),
    }
}

/// The values of symbols.
pub open spec fn symbols_view(s: Seq<Symbol>) -> Seq<SymbolModel> {
    s.map_values(|x: Symbol| symbol_view(x))
}

// ---------------------------------------------------------------------------
// What the file says
// ---------------------------------------------------------------------------

/// The atom at index `i` of a sequence of values, if that item is an atom.
pub open spec fn atom_in(s: Seq<SexprModel>, i: int) -> Option<Seq<char>> {
    if 0 <= i < s.len() && s[i] is Atom {
        Some(s[i]->Atom_0)
    } else {
        None
    }
}

/// The first two atoms of a tail, read as a point.
pub open spec fn point_of(t: Seq<SexprModel>) -> PointModel {
    PointModel { x: atom_in(t, 0), y: atom_in(t, 1) }
}

/// The point of an optional list tail.
pub open spec fn opt_point_of(t: Option<Seq<SexprModel>>) -> Option<PointModel> {
    match t {
        Some(u) => Some(point_of(u)),
        None => None,
    }
}

/// The tail of the last item headed by `h`.
pub open spec fn last_headed(s: Seq<SexprModel>, h: Seq<char>) -> Option<Seq<SexprModel>>
    decreases s.len(),
{
    if s.len() == 0 {
        None
    } else if model_head(s.last()) == Some(h) {
        Some(model_tail(s.last()))
    } else {
        last_headed(s.drop_last(), h)
    }
}

/// The atom at index `k` of the tail of the last item headed by `h` whose
/// tail has an atom there.
pub open spec fn last_atom_headed(s: Seq<SexprModel>, h: Seq<char>, k: int) -> Option<Seq<char>>
    decreases s.len(),
{
    if s.len() == 0 {
        None
    } else if model_head(s.last()) == Some(h) && atom_in(model_tail(s.last()), k) is Some {
        atom_in(model_tail(s.last()), k)
    } else {
        last_atom_headed(s.drop_last(), h, k)
    }
}

/// The first item headed by `h`.
pub open spec fn first_headed(s: Seq<SexprModel>, h: Seq<char>) -> Option<SexprModel>
    decreases s.len(),
{
    if s.len() == 0 {
        None
    } else if model_head(s[0]) == Some(h) {
        Some(s[0])
    } else {
        first_headed(s.subrange(1, s.len() as int), h)
    }
}

/// The item that `first_headed` finds is headed by `h`.
pub proof fn lemma_first_headed(s: Seq<SexprModel>, h: Seq<char>)
    ensures
        first_headed(s, h) matches Some(c) ==> model_head(c) == Some(h),
    decreases s.len(),
{
    if s.len() > 0 && model_head(s[0]) != Some(h) {
        lemma_first_headed(s.subrange(1, s.len() as int), h);
    }
}

/// The points of all items headed by `h`, in order.
pub open spec fn headed_points(s: Seq<SexprModel>, h: Seq<char>) -> Seq<PointModel>
    decreases s.len(),
{
    if s.len() == 0 {
        Seq::empty()
    } else if model_head(s.last()) == Some(h) {
        headed_points(s.drop_last(), h).push(point_of(model_tail(s.last())))
    } else {
        headed_points(s.drop_last(), h)
    }
}

/// The placements of all `at` items, in order.
pub open spec fn placements_of(s: Seq<SexprModel>) -> Seq<PlacementModel>
    decreases s.len(),
{
    if s.len() == 0 {
        Seq::empty()
    } else if model_head(s.last()) == Some("at"@) {
        let t = model_tail(s.last());
        placements_of(s.drop_last()).push(PlacementModel { x: atom_in(t, 0), y: atom_in(t, 1), rot: atom_in(t, 2) })
    } else {
        placements_of(s.drop_last())
    }
}

/// The font of an `effects` item: its first `font` child.
pub open spec fn effects_font(e: SexprModel) -> Option<FontModel> {
    match first_headed(model_items(e), "font"@) {
        Some(f) => Some(FontModel { height: atom_in(model_tail(f), 0), width: atom_in(model_tail(f), 1) }),
        None => None,
    }
}

/// The font of the last `effects` item that has one.
pub open spec fn last_font(s: Seq<SexprModel>) -> Option<FontModel>
    decreases s.len(),
{
    if s.len() == 0 {
        None
    } else if model_head(s.last()) == Some("effects"@) && effects_font(s.last()) is Some {
        effects_font(s.last())
    } else {
        last_font(s.drop_last())
    }
}

/// The record of a `pin` item.
pub open spec fn pin_of(m: SexprModel) -> PinModel {
    let items = model_items(m);
    PinModel {
        number: last_atom_headed(items, "number"@, 0),
        at: opt_point_of(last_headed(items, "at"@)),
        angle: last_atom_headed(items, "at"@, 2),
        length: last_atom_headed(items, "length"@, 0),
    }
}

/// The record of a `property` item, when its tail starts with two atoms.
pub open spec fn property_of(m: SexprModel) -> Option<PropertyModel> {
    let t = model_tail(m);
    let items = model_items(m);
    if atom_in(t, 0) is Some && atom_in(t, 1) is Some {
        Some(PropertyModel {
            name: atom_in(t, 0)->0,
            default_text: atom_in(t, 1)->0,
            placements: placements_of(items),
            hide: match last_headed(items, "hide"@) {
                Some(u) => atom_in(u, 0) == Some("yes"@),
                None => false,
            },
            font: last_font(items),
        })
    } else {
        None
    }
}

/// Heads of the drawing primitives that are read as shapes.
pub open spec fn is_shape_head(h: Seq<char>) -> bool {
    h == "line"@ || h == "rectangle"@ || h == "circle"@ || h == "arc"@
}

/// The record of a drawing item, if it is one.
pub open spec fn graphic_of(m: SexprModel) -> Option<GraphicModel> {
    let items = model_items(m);
    match model_head(m) {
        Some(h) => if is_shape_head(h) {
            Some(GraphicModel::Shape {
                kind: h,
                start: opt_point_of(last_headed(items, "start"@)),
                end: opt_point_of(last_headed(items, "end"@)),
                center: opt_point_of(last_headed(items, "center"@)),
            })
        } else if h == "polyline"@ {
            Some(GraphicModel::Polyline {
                points: match first_headed(items, "pts"@) {
                    Some(p) => headed_points(model_items(p), "xy"@),
                    None => Seq::empty(),
                },
            })
        } else {
            None
        },
        None => None,
    }
}

/// All pins in an item and everything nested in it, in document order.
pub open spec fn pins_in(m: SexprModel) -> Seq<PinModel>
    decreases m,
{
    let own = if model_head(m) == Some("pin"@) { seq![pin_of(m)] } else { Seq::empty() };
    match m {
        SexprModel::List(items) => own + pins_in_all(items),
        SexprModel::Atom(_) => own,
    }
}

/// The pins found in a sequence of expressions, in walk order.
pub open spec fn pins_in_all(s: Seq<SexprModel>) -> Seq<PinModel>
    decreases s,
{
    if s.len() == 0 {
        Seq::empty()
    } else {
        pins_in_all(s.drop_last()) + pins_in(s.last())
    }
}

/// All fields in an item and everything nested in it, in document order.
pub open spec fn properties_in(m: SexprModel) -> Seq<PropertyModel>
    decreases m,
{
    let own = if model_head(m) == Some("property"@) && property_of(m) is Some {
        seq![property_of(m)->0]
    } else {
        Seq::empty()
    };
    match m {
        SexprModel::List(items) => own + properties_in_all(items),
        SexprModel::Atom(_) => own,
    }
}

/// The fields found in a sequence of expressions, in walk order.
pub open spec fn properties_in_all(s: Seq<SexprModel>) -> Seq<PropertyModel>
    decreases s,
{
    if s.len() == 0 {
        Seq::empty()
    } else {
        properties_in_all(s.drop_last()) + properties_in(s.last())
    }
}

/// All drawing primitives in an item and everything nested in it, in
/// document order.
pub open spec fn graphics_in(m: SexprModel) -> Seq<GraphicModel>
    decreases m,
{
    let own = match graphic_of(m) {
        Some(g) => seq![g],
        None => Seq::empty(),
    };
    match m {
        SexprModel::List(items) => own + graphics_in_all(items),
        SexprModel::Atom(_) => own,
    }
}

/// The drawing primitives found in a sequence of expressions, in walk order.
pub open spec fn graphics_in_all(s: Seq<SexprModel>) -> Seq<GraphicModel>
    decreases s,
{
    if s.len() == 0 {
        Seq::empty()
    } else {
        graphics_in_all(s.drop_last()) + graphics_in(s.last())
    }
}

/// The parent named by the first `extends` child of a symbol item.
pub open spec fn extends_of(m: SexprModel) -> Option<Seq<char>> {
    match first_headed(model_items(m), "extends"@) {
        Some(c) => atom_in(model_tail(c), 0),
        None => None,
    }
}

/// The symbol described by a `symbol` item with a name.
pub open spec fn symbol_of(m: SexprModel) -> SymbolModel {
    SymbolModel {
        name: atom_in(model_tail(m), 0)->0,
        extends: extends_of(m),
        graphics: graphics_in(m),
        pins: pins_in(m),
        properties: properties_in(m),
    }
}

/// Whether a root item describes a symbol.
pub open spec fn is_symbol_item(m: SexprModel) -> bool {
    model_head(m) == Some("symbol"@) && atom_in(model_tail(m), 0) is Some
}

/// The symbols among the root items, in order.
pub open spec fn symbols_in(s: Seq<SexprModel>) -> Seq<SymbolModel>
    decreases s.len(),
{
    if s.len() == 0 {
        Seq::empty()
    } else if is_symbol_item(s.last()) {
        symbols_in(s.drop_last()).push(symbol_of(s.last()))
    } else {
        symbols_in(s.drop_last())
    }
}

/// An imported library text with its root tag rewritten.
pub open spec fn spec_normalize(text: Seq<char>) -> Seq<char> {
    let t = crate::text::trim_start_ws(text);
    if crate::text::has_prefix(t, "(kicad_symbol_lib"@) {
        "(tokito_symbol_lib"@ + t.subrange(17, t.len() as int)
    } else {
        text
    }
}

/// Rewriting the root tag twice is rewriting it once: a rewritten text
/// starts with this tool's own tag.
pub proof fn law_normalize_idempotent(text: Seq<char>)
    ensures
        spec_normalize(spec_normalize(text)) == spec_normalize(text),
{
    reveal_strlit("(tokito_symbol_lib");
    reveal_strlit("(kicad_symbol_lib");
    let t = crate::text::trim_start_ws(text);
    if crate::text::has_prefix(t, "(kicad_symbol_lib"@) {
        let r = "(tokito_symbol_lib"@ + t.subrange(17, t.len() as int);
        assert(r[0] == '(');
        assert(!crate::text::is_unicode_ws('('));
        assert(crate::text::trim_start_ws(r) == r);
        assert(r[1] == 't');
        assert(!crate::text::has_prefix(r, "(kicad_symbol_lib"@)) by {
            assert("(kicad_symbol_lib"@[1] == 'k');
        }
    }
}

/// What reading a library text gives: its symbols, or the error message.
pub open spec fn spec_parse_library(text: Seq<u8>) -> Result<Seq<SymbolModel>, Seq<char>> {
    match spec_parse(text) {
        Err(f) => Err(failure_message(f)),
        Ok(SexprModel::Atom(_)) => Err("expected symbol library root list"@),
        Ok(SexprModel::List(items)) => {
            if items.len() > 0 && model_head(items[0]) is Some && model_head(items[0])->0 != "tokito_symbol_lib"@
                && model_head(items[0])->0 != "kicad_symbol_lib"@ {
                Err("unsupported library root '"@ + model_head(items[0])->0 + "'"@)
            } else if symbols_in(items).len() == 0 {
                Err("no symbols found in library file"@)
            } else {
                Ok(symbols_in(items))
            }
        },
    }
}

} // verus!

verus! {

// ---------------------------------------------------------------------------
// Reading
// ---------------------------------------------------------------------------

/// Copy of the atom at index `i` of a tail.
fn atom_text(tail: &[Sexpr], i: usize) -> (r: Option<String>)
    ensures
        opt_string(r) == atom_in(sexprs_model(tail@), i as int),
{
    proof {
        lemma_sexprs_model(tail@);
    }
    if i < tail.len() {
        match &tail[i] {
            Sexpr::Atom(s) => Some(s.clone()),
            Sexpr::List(_) => None,
        }
    } else {
        None
    }
}

/// The first two atoms of a tail.
fn point_text(tail: &[Sexpr]) -> (p: PointText)
    ensures
        point_view(p) == point_of(sexprs_model(tail@)),
{
    PointText { x: atom_text(tail, 0), y: atom_text(tail, 1) }
}

/// The tail of the last item headed by `h`.
fn last_headed_tail<'a>(items: &'a [Sexpr], h: &str) -> (r: Option<&'a [Sexpr]>)
    ensures
        match r {
            Some(t) => last_headed(sexprs_model(items@), h@) == Some(sexprs_model(t@)),
            None => last_headed(sexprs_model(items@), h@) is None,
        },
{
    let ghost ms = sexprs_model(items@);
    proof {
        lemma_sexprs_model(items@);
    }
    let mut found: Option<&'a [Sexpr]> = None;
    let mut i: usize = 0;
    while i < items.len()
        invariant
            ms == sexprs_model(items@),
            ms.len() == items@.len(),
            forall|j: int| 0 <= j < items@.len() ==> #[trigger] ms[j] == sexpr_model(items@[j]),
            i <= items@.len(),
            match found {
                Some(t) => last_headed(ms.subrange(0, i as int), h@) == Some(sexprs_model(t@)),
                None => last_headed(ms.subrange(0, i as int), h@) is None,
            },
        decreases items@.len() - i,
    {
        proof {
            lemma_list_head_model(items@[i as int]);
            assert(ms.subrange(0, i + 1).drop_last() =~= ms.subrange(0, i as int));
        }
        match list_head(&items[i]) {
            Some((hd, tail)) => {
                if str_eq(hd, h) {
                    found = Some(tail);
                }
            },
            None => {},
        }
        i = i + 1;
    }
    proof {
        assert(ms.subrange(0, items@.len() as int) =~= ms);
    }
    found
}

/// The atom at index `k` of the last item headed by `h` that has one there.
fn last_atom_headed_text(items: &[Sexpr], h: &str, k: usize) -> (r: Option<String>)
    ensures
        opt_string(r) == last_atom_headed(sexprs_model(items@), h@, k as int),
{
    let ghost ms = sexprs_model(items@);
    proof {
        lemma_sexprs_model(items@);
    }
    let mut found: Option<String> = None;
    let mut i: usize = 0;
    while i < items.len()
        invariant
            ms == sexprs_model(items@),
            ms.len() == items@.len(),
            forall|j: int| 0 <= j < items@.len() ==> #[trigger] ms[j] == sexpr_model(items@[j]),
            i <= items@.len(),
            opt_string(found) == last_atom_headed(ms.subrange(0, i as int), h@, k as int),
        decreases items@.len() - i,
    {
        proof {
            lemma_list_head_model(items@[i as int]);
            assert(ms.subrange(0, i + 1).drop_last() =~= ms.subrange(0, i as int));
        }
        match list_head(&items[i]) {
            Some((hd, tail)) => {
                if str_eq(hd, h) {
                    let a = atom_text(tail, k);
                    if a.is_some() {
                        found = a;
                    }
                }
            },
            None => {},
        }
        i = i + 1;
    }
    proof {
        assert(ms.subrange(0, items@.len() as int) =~= ms);
    }
    found
}

/// The first item headed by `h`.
fn first_headed_item<'a>(items: &'a [Sexpr], h: &str) -> (r: Option<&'a Sexpr>)
    ensures
        match r {
            Some(c) => first_headed(sexprs_model(items@), h@) == Some(sexpr_model(*c)),
            None => first_headed(sexprs_model(items@), h@) is None,
        },
{
    let ghost ms = sexprs_model(items@);
    proof {
        lemma_sexprs_model(items@);
    }
    let mut i: usize = 0;
    assert(ms.subrange(0, ms.len() as int) =~= ms);
    while i < items.len()
        invariant
            ms == sexprs_model(items@),
            ms.len() == items@.len(),
            forall|j: int| 0 <= j < items@.len() ==> #[trigger] ms[j] == sexpr_model(items@[j]),
            i <= items@.len(),
            first_headed(ms, h@) == first_headed(ms.subrange(i as int, ms.len() as int), h@),
        decreases items@.len() - i,
    {
        proof {
            lemma_list_head_model(items@[i as int]);
            assert(ms.subrange(i as int, ms.len() as int)[0] == ms[i as int]);
            assert(ms.subrange(i as int, ms.len() as int).subrange(1, ms.len() - i) =~= ms.subrange(i + 1, ms.len() as int));
        }
        match list_head(&items[i]) {
            Some((hd, _)) => {
                if str_eq(hd, h) {
                    return Some(&items[i]);
                }
            },
            None => {},
        }
        i = i + 1;
    }
    None
}

} // verus!

verus! {

/// Points of all items headed by `h`, in order.
fn headed_point_texts(items: &[Sexpr], h: &str) -> (r: Vec<PointText>)
    ensures
        points_view(r@) == headed_points(sexprs_model(items@), h@),
{
    let ghost ms = sexprs_model(items@);
    proof {
        lemma_sexprs_model(items@);
    }
    let mut out: Vec<PointText> = Vec::new();
    let mut i: usize = 0;
    while i < items.len()
        invariant
            ms == sexprs_model(items@),
            ms.len() == items@.len(),
            forall|j: int| 0 <= j < items@.len() ==> #[trigger] ms[j] == sexpr_model(items@[j]),
            i <= items@.len(),
            points_view(out@) == headed_points(ms.subrange(0, i as int), h@),
        decreases items@.len() - i,
    {
        proof {
            lemma_list_head_model(items@[i as int]);
            assert(ms.subrange(0, i + 1).drop_last() =~= ms.subrange(0, i as int));
        }
        match list_head(&items[i]) {
            Some((hd, tail)) => {
                if str_eq(hd, h) {
                    let ghost before = out@;
                    let p = point_text(tail);
                    out.push(p);
                    proof {
                        assert(points_view(out@) =~= points_view(before).push(point_of(sexprs_model(tail@))));
                    }
                }
            },
            None => {},
        }
        i = i + 1;
    }
    proof {
        assert(ms.subrange(0, items@.len() as int) =~= ms);
    }
    out
}

/// Placements of all `at` items, in order.
fn placement_texts(items: &[Sexpr]) -> (r: Vec<Placement>)
    ensures
        placements_view(r@) == placements_of(sexprs_model(items@)),
{
    let ghost ms = sexprs_model(items@);
    proof {
        lemma_sexprs_model(items@);
    }
    let mut out: Vec<Placement> = Vec::new();
    let mut i: usize = 0;
    while i < items.len()
        invariant
            ms == sexprs_model(items@),
            ms.len() == items@.len(),
            forall|j: int| 0 <= j < items@.len() ==> #[trigger] ms[j] == sexpr_model(items@[j]),
            i <= items@.len(),
            placements_view(out@) == placements_of(ms.subrange(0, i as int)),
        decreases items@.len() - i,
    {
        proof {
            lemma_list_head_model(items@[i as int]);
            assert(ms.subrange(0, i + 1).drop_last() =~= ms.subrange(0, i as int));
        }
        match list_head(&items[i]) {
            Some((hd, tail)) => {
                if str_eq(hd, "at") {
                    let ghost before = out@;
                    let p = Placement { x: atom_text(tail, 0), y: atom_text(tail, 1), rot: atom_text(tail, 2) };
                    out.push(p);
                    proof {
                        let t = sexprs_model(tail@);
                        assert(placements_view(out@) =~= placements_view(before).push(PlacementModel { x: atom_in(t, 0), y: atom_in(t, 1), rot: atom_in(t, 2) }));
                    }
                }
            },
            None => {},
        }
        i = i + 1;
    }
    proof {
        assert(ms.subrange(0, items@.len() as int) =~= ms);
    }
    out
}

/// The font of an `effects` item.
fn effects_font_text(e: &Sexpr) -> (r: Option<FontText>)
    ensures
        font_view(r) == effects_font(sexpr_model(*e)),
{
    proof {
        lemma_list_head_model(*e);
    }
    match e {
        Sexpr::List(items) => {
            match first_headed_item(items.as_slice(), "font") {
                Some(f) => {
                    proof {
                        lemma_list_head_model(*f);
                        lemma_first_headed(sexprs_model(items@), "font"@);
                    }
                    match list_head(f) {
                        Some((_, t)) => Some(FontText { height: atom_text(t, 0), width: atom_text(t, 1) }),
                        None => {
                            proof {
                                assert(false);
                            }
                            None
                        },
                    }
                },
                None => None,
            }
        },
        Sexpr::Atom(_) => {
            proof {
                assert(first_headed(Seq::<SexprModel>::empty(), "font"@) is None);
            }
            None
        },
    }
}

/// The font of the last `effects` item that has one.
fn last_font_text(items: &[Sexpr]) -> (r: Option<FontText>)
    ensures
        font_view(r) == last_font(sexprs_model(items@)),
{
    let ghost ms = sexprs_model(items@);
    proof {
        lemma_sexprs_model(items@);
    }
    let mut found: Option<FontText> = None;
    let mut i: usize = 0;
    while i < items.len()
        invariant
            ms == sexprs_model(items@),
            ms.len() == items@.len(),
            forall|j: int| 0 <= j < items@.len() ==> #[trigger] ms[j] == sexpr_model(items@[j]),
            i <= items@.len(),
            font_view(found) == last_font(ms.subrange(0, i as int)),
        decreases items@.len() - i,
    {
        proof {
            lemma_list_head_model(items@[i as int]);
            assert(ms.subrange(0, i + 1).drop_last() =~= ms.subrange(0, i as int));
        }
        match list_head(&items[i]) {
            Some((hd, _)) => {
                if str_eq(hd, "effects") {
                    let f = effects_font_text(&items[i]);
                    if f.is_some() {
                        found = f;
                    }
                }
            },
            None => {},
        }
        i = i + 1;
    }
    proof {
        assert(ms.subrange(0, items@.len() as int) =~= ms);
    }
    found
}

} // verus!

verus! {

/// The values of pin records.
pub open spec fn pins_view(s: Seq<PinRecord>) -> Seq<PinModel> {
    s.map_values(|p: PinRecord| pin_view(p))
}

/// The values of field records.
pub open spec fn properties_view(s: Seq<PropertyRecord>) -> Seq<PropertyModel> {
    s.map_values(|p: PropertyRecord| property_view(p))
}

/// The values of drawing primitives.
pub open spec fn graphics_view(s: Seq<GraphicRecord>) -> Seq<GraphicModel> {
    s.map_values(|g: GraphicRecord| graphic_view(g))
}

/// The record of a `pin` list with these items.
fn pin_record(items: &[Sexpr]) -> (p: PinRecord)
    ensures
        pin_view(p) == pin_of(SexprModel::List(sexprs_model(items@))),
{
    let at = match last_headed_tail(items, "at") {
        Some(t) => Some(point_text(t)),
        None => None,
    };
    PinRecord {
        number: last_atom_headed_text(items, "number", 0),
        at,
        angle: last_atom_headed_text(items, "at", 2),
        length: last_atom_headed_text(items, "length", 0),
    }
}

/// Appends the pins of `node` and of everything nested in it.
fn walk_pins(node: &Sexpr, out: &mut Vec<PinRecord>)
    ensures
        pins_view(final(out)@) == pins_view(old(out)@) + pins_in(sexpr_model(*node)),
    decreases *node,
{
    proof {
        lemma_list_head_model(*node);
    }
    let ghost m = sexpr_model(*node);
    let ghost start = pins_view(out@);
    match node {
        Sexpr::List(items) => {
            let ghost ms = sexprs_model(items@);
            proof {
                lemma_sexprs_model(items@);
            }
            let is_pin = match list_head(node) {
                Some((h, _)) => str_eq(h, "pin"),
                None => false,
            };
            let ghost own: Seq<PinModel> = if model_head(m) == Some("pin"@) { seq![pin_of(m)] } else { Seq::empty() };
            if is_pin {
                let p = pin_record(items.as_slice());
                out.push(p);
                proof {
                    assert(pins_view(out@) =~= start + own);
                }
            } else {
                assert(pins_view(out@) =~= start + own);
            }
            let mut i: usize = 0;
            while i < items.len()
                invariant
                    ms == sexprs_model(items@),
                    ms.len() == items@.len(),
                    forall|j: int| 0 <= j < items@.len() ==> #[trigger] ms[j] == sexpr_model(items@[j]),
                    i <= items@.len(),
                    pins_view(out@) == start + own + pins_in_all(ms.subrange(0, i as int)),
                    *node == Sexpr::List(*items),
                decreases items@.len() - i,
            {
                proof {
                    assert(ms.subrange(0, i + 1).drop_last() =~= ms.subrange(0, i as int));
                    assert(decreases_to!(*items => items[i as int])) by {
                        vstd::std_specs::vec::axiom_vec_index_decreases(*items, i as int);
                    }
                    assert(decreases_to!(*node => (*node)->List_0));
                }
                walk_pins(&items[i], out);
                proof {
                    assert(pins_in_all(ms.subrange(0, i + 1)) == pins_in_all(ms.subrange(0, i as int)) + pins_in(ms[i as int]));
                    assert(pins_view(out@) =~= start + own + pins_in_all(ms.subrange(0, i + 1)));
                }
                i = i + 1;
            }
            proof {
                assert(ms.subrange(0, items@.len() as int) =~= ms);
            }
        },
        Sexpr::Atom(_) => {
            assert(pins_view(out@) =~= start + pins_in(m));
        },
    }
}

} // verus!

verus! {

/// The record of a `property` list with these items, if its tail starts
/// with two atoms.
fn property_record(items: &[Sexpr], tail: &[Sexpr]) -> (r: Option<PropertyRecord>)
    requires
        items@.len() > 0,
        tail@ == items@.subrange(1, items@.len() as int),
    ensures
        match r {
            Some(p) => property_of(SexprModel::List(sexprs_model(items@))) == Some(property_view(p)),
            None => property_of(SexprModel::List(sexprs_model(items@))) is None,
        },
{
    proof {
        lemma_sexprs_model(items@);
        lemma_sexprs_model_subrange(items@, 1, items@.len() as int);
    }
    let name = match atom_text(tail, 0) {
        Some(n) => n,
        None => {
            return None;
        },
    };
    let default_text = match atom_text(tail, 1) {
        Some(d) => d,
        None => {
            return None;
        },
    };
    let hide = match last_headed_tail(items, "hide") {
        Some(t) => match atom_text(t, 0) {
            Some(a) => str_eq(a.as_str(), "yes"),
            None => false,
        },
        None => false,
    };
    let p = PropertyRecord {
        name,
        default_text,
        placements: placement_texts(items),
        hide,
        font: last_font_text(items),
    };
    Some(p)
}

/// Appends the fields of `node` and of everything nested in it.
fn walk_properties(node: &Sexpr, out: &mut Vec<PropertyRecord>)
    ensures
        properties_view(final(out)@) == properties_view(old(out)@) + properties_in(sexpr_model(*node)),
    decreases *node,
{
    proof {
        lemma_list_head_model(*node);
    }
    let ghost m = sexpr_model(*node);
    let ghost start = properties_view(out@);
    match node {
        Sexpr::List(items) => {
            let ghost ms = sexprs_model(items@);
            proof {
                lemma_sexprs_model(items@);
            }
            let ghost own: Seq<PropertyModel> = if model_head(m) == Some("property"@) && property_of(m) is Some {
                seq![property_of(m)->0]
            } else {
                Seq::empty()
            };
            match list_head(node) {
                Some((h, tail)) => {
                    if str_eq(h, "property") {
                        match property_record(items.as_slice(), tail) {
                            Some(p) => {
                                out.push(p);
                            },
                            None => {},
                        }
                    }
                },
                None => {},
            }
            assert(properties_view(out@) =~= start + own);
            let mut i: usize = 0;
            while i < items.len()
                invariant
                    ms == sexprs_model(items@),
                    ms.len() == items@.len(),
                    forall|j: int| 0 <= j < items@.len() ==> #[trigger] ms[j] == sexpr_model(items@[j]),
                    i <= items@.len(),
                    properties_view(out@) == start + own + properties_in_all(ms.subrange(0, i as int)),
                    *node == Sexpr::List(*items),
                decreases items@.len() - i,
            {
                proof {
                    assert(ms.subrange(0, i + 1).drop_last() =~= ms.subrange(0, i as int));
                    assert(decreases_to!(*items => items[i as int])) by {
                        vstd::std_specs::vec::axiom_vec_index_decreases(*items, i as int);
                    }
                    assert(decreases_to!(*node => (*node)->List_0));
                }
                walk_properties(&items[i], out);
                proof {
                    assert(properties_in_all(ms.subrange(0, i + 1)) == properties_in_all(ms.subrange(0, i as int))
                        + properties_in(ms[i as int]));
                    assert(properties_view(out@) =~= start + own + properties_in_all(ms.subrange(0, i + 1)));
                }
                i = i + 1;
            }
            proof {
                assert(ms.subrange(0, items@.len() as int) =~= ms);
            }
        },
        Sexpr::Atom(_) => {
            assert(properties_view(out@) =~= start + properties_in(m));
        },
    }
}

/// The record of a drawing list with head `h` and these items.
fn graphic_record(items: &[Sexpr], h: &str) -> (r: Option<GraphicRecord>)
    requires
        items@.len() > 0,
        items@[0] is Atom && items@[0]->Atom_0@ == h@,
    ensures
        match r {
            Some(g) => graphic_of(SexprModel::List(sexprs_model(items@))) == Some(graphic_view(g)),
            None => graphic_of(SexprModel::List(sexprs_model(items@))) is None,
        },
{
    proof {
        lemma_sexprs_model(items@);
    }
    if str_eq(h, "line") || str_eq(h, "rectangle") || str_eq(h, "circle") || str_eq(h, "arc") {
        let start = match last_headed_tail(items, "start") {
            Some(t) => Some(point_text(t)),
            None => None,
        };
        let end = match last_headed_tail(items, "end") {
            Some(t) => Some(point_text(t)),
            None => None,
        };
        let center = match last_headed_tail(items, "center") {
            Some(t) => Some(point_text(t)),
            None => None,
        };
        return Some(GraphicRecord::Shape { kind: h.to_owned(), start, end, center });
    }
    if str_eq(h, "polyline") {
        let points = match first_headed_item(items, "pts") {
            Some(p) => {
                proof {
                    lemma_list_head_model(*p);
                }
                match p {
                    Sexpr::List(pi) => {
                        let pts = headed_point_texts(pi.as_slice(), "xy");
                        proof {
                            assert(model_items(sexpr_model(*p)) == sexprs_model(pi@));
                            assert(points_view(pts@) == headed_points(
                                model_items(first_headed(sexprs_model(items@), "pts"@)->0),
                                "xy"@,
                            ));
                        }
                        pts
                    },
                    Sexpr::Atom(_) => {
                        proof {
                            lemma_first_headed(sexprs_model(items@), "pts"@);
                        }
                        let v: Vec<PointText> = Vec::new();
                        v
                    },
                }
            },
            None => {
                let v: Vec<PointText> = Vec::new();
                assert(points_view(v@) =~= Seq::<PointModel>::empty());
                v
            },
        };
        let ghost pv = points_view(points@);
        let g = GraphicRecord::Polyline { points };
        proof {
            assert(graphic_view(g) == GraphicModel::Polyline { points: pv });
        }
        return Some(g);
    }
    None
}

/// Appends the drawing primitives of `node` and of everything nested in it.
fn walk_graphics(node: &Sexpr, out: &mut Vec<GraphicRecord>)
    ensures
        graphics_view(final(out)@) == graphics_view(old(out)@) + graphics_in(sexpr_model(*node)),
    decreases *node,
{
    proof {
        lemma_list_head_model(*node);
    }
    let ghost m = sexpr_model(*node);
    let ghost start = graphics_view(out@);
    match node {
        Sexpr::List(items) => {
            let ghost ms = sexprs_model(items@);
            proof {
                lemma_sexprs_model(items@);
            }
            let ghost own: Seq<GraphicModel> = match graphic_of(m) {
                Some(g) => seq![g],
                None => Seq::empty(),
            };
            match list_head(node) {
                Some((h, _)) => {
                    match graphic_record(items.as_slice(), h) {
                        Some(g) => {
                            out.push(g);
                        },
                        None => {},
                    }
                },
                None => {},
            }
            assert(properties_view(Seq::<PropertyRecord>::empty()) =~= Seq::<PropertyModel>::empty());
            assert(graphics_view(out@) =~= start + own);
            let mut i: usize = 0;
            while i < items.len()
                invariant
                    ms == sexprs_model(items@),
                    ms.len() == items@.len(),
                    forall|j: int| 0 <= j < items@.len() ==> #[trigger] ms[j] == sexpr_model(items@[j]),
                    i <= items@.len(),
                    graphics_view(out@) == start + own + graphics_in_all(ms.subrange(0, i as int)),
                    *node == Sexpr::List(*items),
                decreases items@.len() - i,
            {
                proof {
                    assert(ms.subrange(0, i + 1).drop_last() =~= ms.subrange(0, i as int));
                    assert(decreases_to!(*items => items[i as int])) by {
                        vstd::std_specs::vec::axiom_vec_index_decreases(*items, i as int);
                    }
                    assert(decreases_to!(*node => (*node)->List_0));
                }
                walk_graphics(&items[i], out);
                proof {
                    assert(graphics_in_all(ms.subrange(0, i + 1)) == graphics_in_all(ms.subrange(0, i as int))
                        + graphics_in(ms[i as int]));
                    assert(graphics_view(out@) =~= start + own + graphics_in_all(ms.subrange(0, i + 1)));
                }
                i = i + 1;
            }
            proof {
                assert(ms.subrange(0, items@.len() as int) =~= ms);
            }
        },
        Sexpr::Atom(_) => {
            assert(graphics_view(out@) =~= start + graphics_in(m));
        },
    }
}

} // verus!

verus! {

/// The parent named by the first `(extends "...")` child of a symbol item.
fn extract_extends(symbol_node: &Sexpr) -> (r: Option<String>)
    ensures
        opt_string(r) == extends_of(sexpr_model(*symbol_node)),
{
    proof {
        lemma_list_head_model(*symbol_node);
    }
    match symbol_node {
        Sexpr::List(items) => {
            match first_headed_item(items.as_slice(), "extends") {
                Some(c) => {
                    proof {
                        lemma_list_head_model(*c);
                        lemma_first_headed(sexprs_model(items@), "extends"@);
                    }
                    match list_head(c) {
                        Some((_, tail)) => atom_text(tail, 0),
                        None => None,
                    }
                },
                None => None,
            }
        },
        Sexpr::Atom(_) => {
            assert(first_headed(Seq::<SexprModel>::empty(), "extends"@) is None);
            None
        },
    }
}

/// The symbol that a named `symbol` item describes.
fn symbol_record(item: &Sexpr, name: &str) -> (s: Symbol)
    requires
        is_symbol_item(sexpr_model(*item)),
        atom_in(model_tail(sexpr_model(*item)), 0) == Some(name@),
    ensures
        symbol_view(s) == symbol_of(sexpr_model(*item)),
{
    let extends = extract_extends(item);
    let mut graphics: Vec<GraphicRecord> = Vec::new();
    walk_graphics(item, &mut graphics);
    let mut pins: Vec<PinRecord> = Vec::new();
    walk_pins(item, &mut pins);
    let mut properties: Vec<PropertyRecord> = Vec::new();
    walk_properties(item, &mut properties);
    proof {
        assert(graphics_view(Seq::<GraphicRecord>::empty()) + graphics_in(sexpr_model(*item)) =~= graphics_in(sexpr_model(*item)));
        assert(pins_view(Seq::<PinRecord>::empty()) + pins_in(sexpr_model(*item)) =~= pins_in(sexpr_model(*item)));
        assert(properties_view(Seq::<PropertyRecord>::empty()) + properties_in(sexpr_model(*item)) =~= properties_in(sexpr_model(*item)));
    }
    Symbol { name: name.to_owned(), extends, graphics, pins, properties }
}

impl SymbolLibFile {
    /// Extension of the library files this tool writes.
    pub const EXTENSION: &'static str = "tokito_sym";

    /// Extension of imported symbol library files (converted on import).
    pub const IMPORT_SYM_EXT: &'static str = "kicad_sym";

    /// Whether a file extension names a symbol library file.
    pub fn is_library_extension(ext: Option<&str>) -> (r: bool)
        ensures
            r == (opt_str(ext) == Some("tokito_sym"@) || opt_str(ext) == Some("kicad_sym"@)),
    {
        match ext {
            Some(e) => str_eq(e, "tokito_sym") || str_eq(e, "kicad_sym"),
            None => false,
        }
    }

    /// Whether a path names a file that an import copies: it ends with
    /// `.tokito_sym`.
    pub fn is_importable_path(path: &str) -> (r: bool)
        ensures
            r == crate::text::has_suffix(path@, ".tokito_sym"@),
    {
        crate::text::ends_with(path, ".tokito_sym")
    }

    /// The symbols of the library, in file order.
    pub fn symbols(&self) -> (r: &[Symbol])
        ensures
            r@ == self.symbols_seq(),
    {
        self.symbols.as_slice()
    }

    /// An imported library text with its root tag rewritten to this tool's
    /// own: leading white space goes and `(kicad_symbol_lib` becomes
    /// `(tokito_symbol_lib`; any other text is returned as it is.
    pub fn normalize_to_tokito_format(text: &str) -> (r: String)
        ensures
            r@ == spec_normalize(text@),
    {
        let trimmed = crate::text::trim_start(text);
        if crate::text::starts_with(trimmed, "(kicad_symbol_lib") {
            proof {
                reveal_strlit("(kicad_symbol_lib");
            }
            let mut out = String::from_str("(tokito_symbol_lib");
            out.append(trimmed.substring_char(17, trimmed.unicode_len()));
            out
        } else {
            String::from_str(text)
        }
    }

    /// Hands over the symbols, in file order.
    pub fn into_symbols(self) -> (r: Vec<Symbol>)
        ensures
            r@ == self.symbols_seq(),
    {
        self.symbols
    }

    /// The symbols held.
    pub closed spec fn symbols_seq(&self) -> Seq<Symbol> {
        self.symbols@
    }

    /// The symbols, as values.
    pub open spec fn symbols_model(&self) -> Seq<SymbolModel> {
        symbols_view(self.symbols_seq())
    }

    /// Reads a library text: the symbols of its root list, or why it is not
    /// a library.
    pub fn parse(text: &str) -> (r: Result<Self, ParseError>)
        ensures
            match r {
                Ok(lib) => spec_parse_library(text.spec_bytes()) == Ok::<Seq<SymbolModel>, Seq<char>>(lib.symbols_model())
                    && lib.symbols_seq().len() > 0,
                Err(e) => spec_parse_library(text.spec_bytes()) == Err::<Seq<SymbolModel>, Seq<char>>(e.message@),
            },
    {
        let root = match crate::sexpr::parse(text) {
            Ok(e) => e,
            Err(e) => {
                return Err(e);
            },
        };
        proof {
            lemma_list_head_model(root);
        }
        let lib_items = match &root {
            Sexpr::List(items) => items,
            Sexpr::Atom(_) => {
                return Err(ParseError { message: String::from_str("expected symbol library root list") });
            },
        };
        let ghost ms = sexprs_model(lib_items@);
        proof {
            lemma_sexprs_model(lib_items@);
        }
        if lib_items.len() > 0 {
            proof {
                lemma_list_head_model(lib_items@[0]);
            }
            match list_head(&lib_items[0]) {
                Some((head, _)) => {
                    if !str_eq(head, "tokito_symbol_lib") && !str_eq(head, "kicad_symbol_lib") {
                        let mut message = String::from_str("unsupported library root '");
                        message.append(head);
                        message.append("'");
                        return Err(ParseError { message });
                    }
                },
                None => {},
            }
        }
        let mut symbols: Vec<Symbol> = Vec::new();
        let mut i: usize = 0;
        while i < lib_items.len()
            invariant
                ms == sexprs_model(lib_items@),
                ms.len() == lib_items@.len(),
                forall|j: int| 0 <= j < lib_items@.len() ==> #[trigger] ms[j] == sexpr_model(lib_items@[j]),
                i <= lib_items@.len(),
                symbols_view(symbols@) == symbols_in(ms.subrange(0, i as int)),
            decreases lib_items@.len() - i,
        {
            let item = &lib_items[i];
            proof {
                lemma_list_head_model(*item);
                assert(ms.subrange(0, i + 1).drop_last() =~= ms.subrange(0, i as int));
            }
            match list_head(item) {
                Some((head, tail)) => {
                    if str_eq(head, "symbol") {
                        proof {
                            lemma_sexprs_model(tail@);
                        }
                        if tail.len() > 0 {
                            match &tail[0] {
                                Sexpr::Atom(name) => {
                                    let ghost before = symbols@;
                                    let s = symbol_record(item, name.as_str());
                                    symbols.push(s);
                                    proof {
                                        assert(symbols_view(symbols@) =~= symbols_view(before).push(symbol_view(s)));
                                    }
                                },
                                Sexpr::List(_) => {},
                            }
                        }
                    }
                },
                None => {},
            }
            i = i + 1;
        }
        proof {
            assert(ms.subrange(0, lib_items@.len() as int) =~= ms);
        }
        if symbols.len() == 0 {
            return Err(ParseError { message: String::from_str("no symbols found in library file") });
        }
        Ok(SymbolLibFile { symbols })
    }
}

} // verus!

verus! {

// ---------------------------------------------------------------------------
// Copies
// ---------------------------------------------------------------------------

/// A copy of an optional string.
pub fn clone_opt_string(o: &Option<String>) -> (r: Option<String>)
    ensures
        opt_string(r) == opt_string(*o),
{
    match o {
        Some(s) => Some(s.clone()),
        None => None,
    }
}

fn clone_point(p: &PointText) -> (r: PointText)
    ensures
        point_view(r) == point_view(*p),
{
    PointText { x: clone_opt_string(&p.x), y: clone_opt_string(&p.y) }
}

fn clone_opt_point(p: &Option<PointText>) -> (r: Option<PointText>)
    ensures
        opt_point_view(r) == opt_point_view(*p),
{
    match p {
        Some(q) => Some(clone_point(q)),
        None => None,
    }
}

fn clone_pin(p: &PinRecord) -> (r: PinRecord)
    ensures
        pin_view(r) == pin_view(*p),
{
    PinRecord {
        number: clone_opt_string(&p.number),
        at: clone_opt_point(&p.at),
        angle: clone_opt_string(&p.angle),
        length: clone_opt_string(&p.length),
    }
}

fn clone_property(p: &PropertyRecord) -> (r: PropertyRecord)
    ensures
        property_view(r) == property_view(*p),
{
    let mut placements: Vec<Placement> = Vec::new();
    let mut i: usize = 0;
    while i < p.placements.len()
        invariant
            i <= p.placements@.len(),
            placements@.len() == i,
            placements_view(placements@) == placements_view(p.placements@.subrange(0, i as int)),
        decreases p.placements@.len() - i,
    {
        let q = &p.placements[i];
        let c = Placement { x: clone_opt_string(&q.x), y: clone_opt_string(&q.y), rot: clone_opt_string(&q.rot) };
        let ghost before = placements@;
        placements.push(c);
        proof {
            assert forall|j: int| 0 <= j < i + 1 implies placements_view(placements@)[j]
                == placements_view(p.placements@.subrange(0, i + 1))[j] by {
                if j < i {
                    assert(placements_view(before)[j] == placements_view(p.placements@.subrange(0, i as int))[j]);
                }
            }
            assert(placements_view(placements@) =~= placements_view(p.placements@.subrange(0, i + 1)));
        }
        i = i + 1;
    }
    proof {
        assert(p.placements@.subrange(0, p.placements@.len() as int) =~= p.placements@);
    }
    let font = match &p.font {
        Some(f) => Some(FontText { height: clone_opt_string(&f.height), width: clone_opt_string(&f.width) }),
        None => None,
    };
    PropertyRecord { name: p.name.clone(), default_text: p.default_text.clone(), placements, hide: p.hide, font }
}

fn clone_graphic(g: &GraphicRecord) -> (r: GraphicRecord)
    ensures
        graphic_view(r) == graphic_view(*g),
{
    match g {
        GraphicRecord::Shape { kind, start, end, center } => GraphicRecord::Shape {
            kind: kind.clone(),
            start: clone_opt_point(start),
            end: clone_opt_point(end),
            center: clone_opt_point(center),
        },
        GraphicRecord::Polyline { points } => {
            let mut out: Vec<PointText> = Vec::new();
            let mut i: usize = 0;
            while i < points.len()
                invariant
                    i <= points@.len(),
                    out@.len() == i,
                    points_view(out@) == points_view(points@.subrange(0, i as int)),
                decreases points@.len() - i,
            {
                let c = clone_point(&points[i]);
                let ghost before = out@;
                out.push(c);
                proof {
                    assert forall|j: int| 0 <= j < i + 1 implies points_view(out@)[j]
                        == points_view(points@.subrange(0, i + 1))[j] by {
                        if j < i {
                            assert(points_view(before)[j] == points_view(points@.subrange(0, i as int))[j]);
                        }
                    }
                    assert(points_view(out@) =~= points_view(points@.subrange(0, i + 1)));
                }
                i = i + 1;
            }
            proof {
                assert(points@.subrange(0, points@.len() as int) =~= points@);
            }
            let ghost pv = points_view(out@);
            let r = GraphicRecord::Polyline { points: out };
            assert(graphic_view(r) == GraphicModel::Polyline { points: pv });
            r
        },
    }
}

/// Copies of the pins.
pub fn clone_pins(v: &Vec<PinRecord>) -> (r: Vec<PinRecord>)
    ensures
        pins_view(r@) == pins_view(v@),
{
    let mut out: Vec<PinRecord> = Vec::new();
    let mut i: usize = 0;
    while i < v.len()
        invariant
            i <= v@.len(),
            out@.len() == i,
            pins_view(out@) == pins_view(v@.subrange(0, i as int)),
        decreases v@.len() - i,
    {
        let c = clone_pin(&v[i]);
        let ghost before = out@;
        out.push(c);
        proof {
            assert forall|j: int| 0 <= j < i + 1 implies pins_view(out@)[j] == pins_view(v@.subrange(0, i + 1))[j] by {
                if j < i {
                    assert(pins_view(before)[j] == pins_view(v@.subrange(0, i as int))[j]);
                }
            }
            assert(pins_view(out@) =~= pins_view(v@.subrange(0, i + 1)));
        }
        i = i + 1;
    }
    proof {
        assert(v@.subrange(0, v@.len() as int) =~= v@);
    }
    out
}

/// Copies of the fields.
pub fn clone_properties(v: &Vec<PropertyRecord>) -> (r: Vec<PropertyRecord>)
    ensures
        properties_view(r@) == properties_view(v@),
{
    let mut out: Vec<PropertyRecord> = Vec::new();
    let mut i: usize = 0;
    while i < v.len()
        invariant
            i <= v@.len(),
            out@.len() == i,
            properties_view(out@) == properties_view(v@.subrange(0, i as int)),
        decreases v@.len() - i,
    {
        let c = clone_property(&v[i]);
        let ghost before = out@;
        out.push(c);
        proof {
            assert forall|j: int| 0 <= j < i + 1 implies properties_view(out@)[j] == properties_view(v@.subrange(0, i + 1))[j] by {
                if j < i {
                    assert(properties_view(before)[j] == properties_view(v@.subrange(0, i as int))[j]);
                }
            }
            assert(properties_view(out@) =~= properties_view(v@.subrange(0, i + 1)));
        }
        i = i + 1;
    }
    proof {
        assert(v@.subrange(0, v@.len() as int) =~= v@);
    }
    out
}

/// Copies of the drawing primitives.
pub fn clone_graphics(v: &Vec<GraphicRecord>) -> (r: Vec<GraphicRecord>)
    ensures
        graphics_view(r@) == graphics_view(v@),
{
    let mut out: Vec<GraphicRecord> = Vec::new();
    let mut i: usize = 0;
    while i < v.len()
        invariant
            i <= v@.len(),
            out@.len() == i,
            graphics_view(out@) == graphics_view(v@.subrange(0, i as int)),
        decreases v@.len() - i,
    {
        let c = clone_graphic(&v[i]);
        let ghost before = out@;
        out.push(c);
        proof {
            assert forall|j: int| 0 <= j < i + 1 implies graphics_view(out@)[j] == graphics_view(v@.subrange(0, i + 1))[j] by {
                if j < i {
                    assert(graphics_view(before)[j] == graphics_view(v@.subrange(0, i as int))[j]);
                }
            }
            assert(graphics_view(out@) =~= graphics_view(v@.subrange(0, i + 1)));
        }
        i = i + 1;
    }
    proof {
        assert(v@.subrange(0, v@.len() as int) =~= v@);
    }
    out
}

/// The names of the placed pins, in order: a pin's number when it has a
/// non-empty one, else its position (from 1) among the placed pins.
pub open spec fn spec_pin_names(numbers: Seq<Option<String>>, placed: Seq<bool>) -> Seq<Seq<char>>
    decreases numbers.len(),
{
    if numbers.len() == 0 {
        Seq::empty()
    } else {
        let prev = spec_pin_names(numbers.drop_last(), placed.drop_last());
        if placed.last() {
            prev.push(
                match numbers.last() {
                    Some(n) => if n@.len() > 0 { n@ } else { crate::studio::decimal(prev.len() + 1) },
                    None => crate::studio::decimal(prev.len() + 1),
                },
            )
        } else {
            prev
        }
    }
}

/// Names for pins: `placed` says which pins have a position (only those
/// are kept).
pub fn pin_names(numbers: &[Option<String>], placed: &[bool]) -> (r: Vec<String>)
    requires
        numbers@.len() == placed@.len(),
    ensures
        r@.map_values(|s: String| s@) == spec_pin_names(numbers@, placed@),
{
    let mut out: Vec<String> = Vec::new();
    let mut i: usize = 0;
    while i < numbers.len()
        invariant
            numbers@.len() == placed@.len(),
            i <= numbers@.len(),
            out@.len() <= i,
            out@.map_values(|s: String| s@) == spec_pin_names(numbers@.subrange(0, i as int), placed@.subrange(0, i as int)),
        decreases numbers@.len() - i,
    {
        proof {
            assert(numbers@.subrange(0, i + 1).drop_last() =~= numbers@.subrange(0, i as int));
            assert(placed@.subrange(0, i + 1).drop_last() =~= placed@.subrange(0, i as int));
        }
        let ghost before = out@;
        if placed[i] {
            let name = match &numbers[i] {
                Some(n) => if n.unicode_len() > 0 {
                    n.clone()
                } else {
                    let mut d = String::new();
                    crate::studio::push_decimal(&mut d, (out.len() + 1) as u64);
                    d
                },
                None => {
                    let mut d = String::new();
                    crate::studio::push_decimal(&mut d, (out.len() + 1) as u64);
                    d
                },
            };
            out.push(name);
            proof {
                assert(out@.map_values(|s: String| s@) =~= before.map_values(|s: String| s@).push(name@));
            }
        }
        i = i + 1;
    }
    proof {
        assert(numbers@.subrange(0, numbers@.len() as int) =~= numbers@);
        assert(placed@.subrange(0, placed@.len() as int) =~= placed@);
    }
    out
}

} // verus!

verus! {

proof fn lemma_graphic_heads()
    ensures
        "line"@.len() == 4 && "line"@[0] == 'l',
        "rectangle"@.len() == 9 && "rectangle"@[0] == 'r',
        "circle"@.len() == 6 && "circle"@[0] == 'c' && "circle"@[1] == 'i',
        "arc"@.len() == 3 && "arc"@[0] == 'a',
        "polyline"@.len() == 8 && "polyline"@[0] == 'p',
        "start"@.len() == 5 && "start"@[0] == 's',
        "mid"@.len() == 3 && "mid"@[0] == 'm',
        "end"@.len() == 3 && "end"@[0] == 'e',
        "center"@.len() == 6 && "center"@[0] == 'c' && "center"@[1] == 'e',
        "symbol"@.len() == 6 && "symbol"@[0] == 's',
{
    reveal_strlit("line");
    reveal_strlit("rectangle");
    reveal_strlit("circle");
    reveal_strlit("arc");
    reveal_strlit("polyline");
    reveal_strlit("start");
    reveal_strlit("mid");
    reveal_strlit("end");
    reveal_strlit("center");
    reveal_strlit("symbol");
}

/// The drawing primitives of `a` followed by `b` are those of `a`, then
/// those of `b`.
proof fn lemma_graphics_all_concat(a: Seq<SexprModel>, b: Seq<SexprModel>)
    ensures
        graphics_in_all(a + b) == graphics_in_all(a) + graphics_in_all(b),
    decreases b.len(),
{
    if b.len() == 0 {
        assert(a + b =~= a);
        assert(graphics_in_all(a) + Seq::<GraphicModel>::empty() =~= graphics_in_all(a));
    } else {
        lemma_graphics_all_concat(a, b.drop_last());
        assert((a + b).drop_last() =~= a + b.drop_last());
        assert((a + b).last() == b.last());
        assert(graphics_in_all(a) + graphics_in_all(b.drop_last()) + graphics_in(b.last())
            =~= graphics_in_all(a) + (graphics_in_all(b.drop_last()) + graphics_in(b.last())));
    }
}

/// A point child such as `(start x y)`: a list of atoms headed by `start`,
/// `mid`, `end` or `center`.
pub open spec fn is_point_child(x: SexprModel) -> bool {
    &&& x is List
    &&& model_head(x) matches Some(h) && (h == "start"@ || h == "mid"@ || h == "end"@ || h == "center"@)
    &&& forall|k: int| 0 <= k < model_items(x).len() ==> (#[trigger] model_items(x)[k]) is Atom
}

proof fn lemma_atom_draws_nothing(x: SexprModel)
    requires
        x is Atom,
    ensures
        graphics_in(x) == Seq::<GraphicModel>::empty(),
{
    assert(model_head(x) is None);
    assert(graphic_of(x) is None);
    assert(graphics_in(x) =~= Seq::<GraphicModel>::empty());
}

proof fn lemma_atoms_draw_nothing(s: Seq<SexprModel>)
    requires
        forall|k: int| 0 <= k < s.len() ==> (#[trigger] s[k]) is Atom,
    ensures
        graphics_in_all(s) == Seq::<GraphicModel>::empty(),
    decreases s.len(),
{
    if s.len() > 0 {
        let r = s.drop_last();
        assert forall|k: int| 0 <= k < r.len() implies (#[trigger] r[k]) is Atom by {
            assert(r[k] == s[k]);
        }
        lemma_atoms_draw_nothing(r);
        assert(s[s.len() - 1] is Atom);
        lemma_atom_draws_nothing(s.last());
        assert(Seq::<GraphicModel>::empty() + Seq::<GraphicModel>::empty() =~= Seq::<GraphicModel>::empty());
    }
}

proof fn lemma_point_children_draw_nothing(s: Seq<SexprModel>)
    requires
        forall|k: int| 0 <= k < s.len() ==> is_point_child(#[trigger] s[k]),
    ensures
        graphics_in_all(s) == Seq::<GraphicModel>::empty(),
    decreases s.len(),
{
    lemma_graphic_heads();
    if s.len() > 0 {
        let r = s.drop_last();
        assert forall|k: int| 0 <= k < r.len() implies is_point_child(#[trigger] r[k]) by {
            assert(r[k] == s[k]);
        }
        lemma_point_children_draw_nothing(r);
        let x = s[s.len() - 1];
        assert(is_point_child(x));
        lemma_atoms_draw_nothing(model_items(x));
        assert(graphic_of(x) is None);
        assert(graphics_in(x) =~= Seq::<GraphicModel>::empty());
        assert(Seq::<GraphicModel>::empty() + Seq::<GraphicModel>::empty() =~= Seq::<GraphicModel>::empty());
    }
}

/// Every `line`, `rectangle`, `circle` or `arc` item is drawn as a shape
/// of that kind, whose start, end and centre are the points of its last
/// `start`, `end` and `center` children; it comes first among the
/// primitives found in the item.
pub proof fn law_shape_items_are_drawn(h: Seq<char>, t: Seq<SexprModel>)
    requires
        h == "line"@ || h == "rectangle"@ || h == "circle"@ || h == "arc"@,
    ensures
        ({
            let m = SexprModel::List(seq![SexprModel::Atom(h)] + t);
            &&& graphics_in(m).len() >= 1
            &&& graphics_in(m)[0] == GraphicModel::Shape {
                kind: h,
                start: opt_point_of(last_headed(model_items(m), "start"@)),
                end: opt_point_of(last_headed(model_items(m), "end"@)),
                center: opt_point_of(last_headed(model_items(m), "center"@)),
            }
        }),
{
    let items = seq![SexprModel::Atom(h)] + t;
    assert(items[0] == SexprModel::Atom(h));
}

/// A `polyline` item is drawn as a polyline through the `xy` points of its
/// first `pts` child; it comes first among the primitives found in it.
pub proof fn law_polyline_items_are_drawn(t: Seq<SexprModel>)
    ensures
        ({
            let m = SexprModel::List(seq![SexprModel::Atom("polyline"@)] + t);
            &&& graphics_in(m).len() >= 1
            &&& graphics_in(m)[0] == GraphicModel::Polyline {
                points: match first_headed(model_items(m), "pts"@) {
                    Some(p) => headed_points(model_items(p), "xy"@),
                    None => Seq::empty(),
                },
            }
        }),
{
    lemma_graphic_heads();
    let items = seq![SexprModel::Atom("polyline"@)] + t;
    assert(items[0] == SexprModel::Atom("polyline"@));
}

/// A symbol whose one child is a drawing item of kind `h` (a `line`,
/// `rectangle`, `circle` or `arc` with only point children such as
/// `(start x y)`) has exactly one primitive: a shape of kind `h`.
pub proof fn law_symbol_with_one_shape(name: Seq<char>, h: Seq<char>, pts: Seq<SexprModel>)
    requires
        h == "line"@ || h == "rectangle"@ || h == "circle"@ || h == "arc"@,
        forall|k: int| 0 <= k < pts.len() ==> is_point_child(#[trigger] pts[k]),
    ensures
        ({
            let shape = SexprModel::List(seq![SexprModel::Atom(h)] + pts);
            let sym = SexprModel::List(seq![SexprModel::Atom("symbol"@), SexprModel::Atom(name), shape]);
            symbol_of(sym).graphics == seq![
                GraphicModel::Shape {
                    kind: h,
                    start: opt_point_of(last_headed(model_items(shape), "start"@)),
                    end: opt_point_of(last_headed(model_items(shape), "end"@)),
                    center: opt_point_of(last_headed(model_items(shape), "center"@)),
                },
            ]
        }),
{
    lemma_graphic_heads();
    let shape = SexprModel::List(seq![SexprModel::Atom(h)] + pts);
    let items = seq![SexprModel::Atom(h)] + pts;
    let g = GraphicModel::Shape {
        kind: h,
        start: opt_point_of(last_headed(items, "start"@)),
        end: opt_point_of(last_headed(items, "end"@)),
        center: opt_point_of(last_headed(items, "center"@)),
    };
    assert(items[0] == SexprModel::Atom(h));
    lemma_graphics_all_concat(seq![SexprModel::Atom(h)], pts);
    lemma_point_children_draw_nothing(pts);
    lemma_atom_draws_nothing(SexprModel::Atom(h));
    lemma_atom_draws_nothing(SexprModel::Atom("symbol"@));
    lemma_atom_draws_nothing(SexprModel::Atom(name));
    let one = seq![SexprModel::Atom(h)];
    assert(forall|k: int| 0 <= k < one.len() ==> (#[trigger] one[k]) is Atom);
    lemma_atoms_draw_nothing(one);
    assert(graphics_in_all(items) =~= Seq::<GraphicModel>::empty());
    assert(graphics_in(shape) =~= seq![g]);
    let top = seq![SexprModel::Atom("symbol"@), SexprModel::Atom(name), shape];
    assert(top.drop_last() =~= seq![SexprModel::Atom("symbol"@), SexprModel::Atom(name)]);
    assert(top.drop_last().drop_last() =~= seq![SexprModel::Atom("symbol"@)]);
    assert(top.drop_last().drop_last().drop_last() =~= Seq::<SexprModel>::empty());
    let heads = top.drop_last();
    assert(forall|k: int| 0 <= k < heads.len() ==> (#[trigger] heads[k]) is Atom);
    lemma_atoms_draw_nothing(heads);
    assert(graphics_in_all(top) =~= seq![g]);
    let sym = SexprModel::List(top);
    assert(model_head(sym) == Some("symbol"@));
    assert(graphic_of(sym) is None);
    assert(graphics_in(sym) =~= seq![g]);
}

} // verus!

verus! {

/// Every `pin` item is read as a pin, first among the pins found in it:
/// its number is the first atom of its last `number` child, its position
/// the point of its last `at` child and its angle that child's third atom,
/// its length the first atom of its last `length` child.
pub proof fn law_pin_items_are_read(t: Seq<SexprModel>)
    ensures
        ({
            let items = seq![SexprModel::Atom("pin"@)] + t;
            let m = SexprModel::List(items);
            &&& pins_in(m).len() >= 1
            &&& pins_in(m)[0] == PinModel {
                number: last_atom_headed(items, "number"@, 0),
                at: opt_point_of(last_headed(items, "at"@)),
                angle: last_atom_headed(items, "at"@, 2),
                length: last_atom_headed(items, "length"@, 0),
            }
        }),
{
    let items = seq![SexprModel::Atom("pin"@)] + t;
    assert(items[0] == SexprModel::Atom("pin"@));
}

/// Every `property` item whose tail starts with two atoms is read as a
/// field, first among the fields found in it: its name and default text
/// are those atoms, its placements the `at` children in order, it is
/// hidden when its last `hide` child says `yes`, and its font is that of
/// its last `effects` child that has one.
pub proof fn law_property_items_are_read(name: Seq<char>, text: Seq<char>, t: Seq<SexprModel>)
    ensures
        ({
            let items = seq![SexprModel::Atom("property"@), SexprModel::Atom(name), SexprModel::Atom(text)] + t;
            let m = SexprModel::List(items);
            &&& properties_in(m).len() >= 1
            &&& properties_in(m)[0] == PropertyModel {
                name: name,
                default_text: text,
                placements: placements_of(items),
                hide: match last_headed(items, "hide"@) {
                    Some(u) => atom_in(u, 0) == Some("yes"@),
                    None => false,
                },
                font: last_font(items),
            }
        }),
{
    let items = seq![SexprModel::Atom("property"@), SexprModel::Atom(name), SexprModel::Atom(text)] + t;
    let m = SexprModel::List(items);
    assert(items[0] == SexprModel::Atom("property"@));
    assert(model_tail(m)[0] == SexprModel::Atom(name));
    assert(model_tail(m)[1] == SexprModel::Atom(text));
}

} // verus!
