//! The in-memory symbol library: library symbols by full id (`Lib:Name`)
//! and by short name, with lookups for placement and `extends` resolution.

use vstd::prelude::*;
use vstd::string::StringExecFns;

use crate::lib_file::{symbol_view, Symbol, SymbolLibFile, SymbolModel};
use crate::text::{after_last, before_first, first_index_of, opt_str, opt_string, str_eq, texts_view};

verus! {

/// Mathematical value of the library: `(full id, symbol)` entries in
/// insertion order, and `(short name, full id)` entries in insertion order.
pub struct LibModel {
    pub entries: Seq<(Seq<char>, SymbolModel)>,
    pub shorts: Seq<(Seq<char>, Seq<char>)>,
}

/// Index of the first occurrence of `k` in a sequence of keys.
pub open spec fn key_index(keys: Seq<Seq<char>>, k: Seq<char>) -> Option<int>
    decreases keys.len(),
{
    if keys.len() == 0 {
        None
    } else if keys[0] == k {
        Some(0)
    } else {
        match key_index(keys.subrange(1, keys.len() as int), k) {
            Some(i) => Some(i + 1),
            None => None,
        }
    }
}

/// The keys of a table, in order.
pub open spec fn keys_of<V>(s: Seq<(Seq<char>, V)>) -> Seq<Seq<char>> {
    s.map_values(|e: (Seq<char>, V)| e.0)
}

/// Index of the first entry with key `k`.
pub open spec fn index_of_key<V>(s: Seq<(Seq<char>, V)>, k: Seq<char>) -> Option<int> {
    key_index(keys_of(s), k)
}

/// No key occurs twice.
pub open spec fn keys_distinct<V>(s: Seq<(Seq<char>, V)>) -> bool {
    forall|i: int, j: int| 0 <= i < j < s.len() ==> #[trigger] s[i].0 != #[trigger] s[j].0
}

/// The value stored under `k`, if any.
pub open spec fn value_of<V>(s: Seq<(Seq<char>, V)>, k: Seq<char>) -> Option<V> {
    match index_of_key(s, k) {
        Some(i) => Some(s[i].1),
        None => None,
    }
}

/// Where `k` first occurs among the keys, when it does.
pub proof fn lemma_key_index(keys: Seq<Seq<char>>, k: Seq<char>)
    ensures
        match key_index(keys, k) {
            Some(i) => 0 <= i < keys.len() && keys[i] == k && forall|j: int| 0 <= j < i ==> keys[j] != k,
            None => forall|j: int| 0 <= j < keys.len() ==> keys[j] != k,
        },
    decreases keys.len(),
{
    if keys.len() > 0 && keys[0] != k {
        let t = keys.subrange(1, keys.len() as int);
        lemma_key_index(t, k);
        assert forall|j: int| 1 <= j < keys.len() implies keys[j] == t[j - 1] by {}
    }
}

/// Where the first entry with key `k` is, when there is one.
pub proof fn lemma_index_of_key<V>(s: Seq<(Seq<char>, V)>, k: Seq<char>)
    ensures
        match index_of_key(s, k) {
            Some(i) => 0 <= i < s.len() && s[i].0 == k && forall|j: int| 0 <= j < i ==> s[j].0 != k,
            None => forall|j: int| 0 <= j < s.len() ==> s[j].0 != k,
        },
{
    let ks = keys_of(s);
    lemma_key_index(ks, k);
    assert(ks.len() == s.len());
    assert forall|j: int| 0 <= j < s.len() implies ks[j] == s[j].0 by {}
    match key_index(ks, k) {
        Some(i) => {
            assert(s[i].0 == k);
            assert forall|j: int| 0 <= j < i implies s[j].0 != k by {
                assert(ks[j] != k);
            }
        },
        None => {
            assert forall|j: int| 0 <= j < s.len() implies s[j].0 != k by {
                assert(ks[j] != k);
            }
        },
    }
}

/// The library after storing `s` under `k` (replacing what was there).
pub open spec fn insert_entry<V>(s: Seq<(Seq<char>, V)>, k: Seq<char>, v: V) -> Seq<(Seq<char>, V)> {
    match index_of_key(s, k) {
        Some(i) => s.update(i, (k, v)),
        None => s.push((k, v)),
    }
}

/// The short-name table after adding `short -> full` unless `short` is there.
pub open spec fn insert_short(s: Seq<(Seq<char>, Seq<char>)>, short: Seq<char>, full: Seq<char>) -> Seq<(Seq<char>, Seq<char>)> {
    match index_of_key(s, short) {
        Some(_) => s,
        None => s.push((short, full)),
    }
}

/// Full id of a symbol loaded from a library folder (or from none).
pub open spec fn full_id(prefix: Option<Seq<char>>, name: Seq<char>) -> Seq<char> {
    match prefix {
        Some(p) => p + seq![':'] + name,
        None => name,
    }
}

/// The library after loading symbols in order under a folder prefix.
pub open spec fn load_model(m: LibModel, syms: Seq<SymbolModel>, prefix: Option<Seq<char>>) -> LibModel
    decreases syms.len(),
{
    if syms.len() == 0 {
        m
    } else {
        let before = load_model(m, syms.drop_last(), prefix);
        let s = syms.last();
        let full = full_id(prefix, s.name);
        LibModel {
            entries: insert_entry(before.entries, full, s),
            shorts: insert_short(before.shorts, s.name, full),
        }
    }
}

/// The library symbols, kept by full id and by short name.
///
/// Both tables are vectors of `(key, value)` pairs in insertion order, with
/// no key twice (`lib_wf`). vstd's `HashMap` specification proves nothing
/// about `String` keys, so a map could not carry these contracts; a vector
/// walked in insertion order is also one of the orders in which a hash map
/// may yield its keys, where the lookups depend on that order.
pub struct BaseSymbolLibrary {
    by_full_name: Vec<(String, Symbol)>,
    by_short_name: Vec<(String, String)>,
}

/// The `(full id, symbol)` entries as values.
pub open spec fn entries_view(v: Seq<(String, Symbol)>) -> Seq<(Seq<char>, SymbolModel)> {
    v.map_values(|e: (String, Symbol)| (e.0@, symbol_view(e.1)))
}

/// The `(short name, full id)` entries as values.
pub open spec fn shorts_view(v: Seq<(String, String)>) -> Seq<(Seq<char>, Seq<char>)> {
    v.map_values(|e: (String, String)| (e.0@, e.1@))
}

impl View for BaseSymbolLibrary {
    type V = LibModel;

    closed spec fn view(&self) -> LibModel {
        LibModel { entries: entries_view(self.by_full_name@), shorts: shorts_view(self.by_short_name@) }
    }
}

/// Well-formed library: no full id and no short name is stored twice.
pub open spec fn lib_wf(m: LibModel) -> bool {
    keys_distinct(m.entries) && keys_distinct(m.shorts)
}

/// Keys of a stored table, as text values.
pub open spec fn stored_keys<V>(v: Seq<(String, V)>) -> Seq<Seq<char>> {
    v.map_values(|e: (String, V)| e.0@)
}

/// Position of the first entry with key `k` in a stored table.
pub(crate) fn find_key_index<V>(v: &Vec<(String, V)>, k: &str) -> (r: Option<usize>)
    ensures
        match r {
            Some(i) => key_index(stored_keys(v@), k@) == Some(i as int) && i < v@.len(),
            None => key_index(stored_keys(v@), k@) is None,
        },
{
    let ghost ks = stored_keys(v@);
    proof {
        lemma_key_index(ks, k@);
    }
    let mut i: usize = 0;
    while i < v.len()
        invariant
            ks == stored_keys(v@),
            ks.len() == v@.len(),
            i <= v@.len(),
            forall|j: int| 0 <= j < i ==> ks[j] != k@,
            match key_index(ks, k@) {
                Some(x) => 0 <= x < ks.len() && ks[x] == k@ && forall|j: int| 0 <= j < x ==> ks[j] != k@,
                None => forall|j: int| 0 <= j < ks.len() ==> ks[j] != k@,
            },
        decreases v@.len() - i,
    {
        if str_eq(v[i].0.as_str(), k) {
            assert(ks[i as int] == k@);
            return Some(i);
        }
        i = i + 1;
    }
    None
}

} // verus!

verus! {

/// The keys of the stored entries are the keys of their values.
pub proof fn lemma_entry_keys(v: Seq<(String, Symbol)>)
    ensures
        keys_of(entries_view(v)) == stored_keys(v),
        entries_view(v).len() == v.len(),
{
    assert(keys_of(entries_view(v)) =~= stored_keys(v));
}

/// The keys of the stored short names are the keys of their values.
pub proof fn lemma_short_keys(v: Seq<(String, String)>)
    ensures
        keys_of(shorts_view(v)) == stored_keys(v),
        shorts_view(v).len() == v.len(),
{
    assert(keys_of(shorts_view(v)) =~= stored_keys(v));
}

/// Inserting under a key keeps the keys distinct.
pub(crate) proof fn lemma_insert_entry_distinct<V>(s: Seq<(Seq<char>, V)>, k: Seq<char>, v: V)
    requires
        keys_distinct(s),
    ensures
        keys_distinct(insert_entry(s, k, v)),
{
    lemma_index_of_key(s, k);
}

/// Adding a short name keeps the short names distinct.
pub(crate) proof fn lemma_insert_short_distinct(s: Seq<(Seq<char>, Seq<char>)>, short: Seq<char>, full: Seq<char>)
    requires
        keys_distinct(s),
    ensures
        keys_distinct(insert_short(s, short, full)),
{
    lemma_index_of_key(s, short);
}

/// The library prefix of the symbols in a folder: the folder's name,
/// except for the bundled root and `.symdir` folders, whose symbols keep
/// their bare names.
pub open spec fn spec_folder_prefix(folder: Option<Seq<char>>) -> Option<Seq<char>> {
    match folder {
        Some(n) => if n == "base-symbols"@ || crate::text::has_suffix(n, ".symdir"@) {
            None
        } else {
            Some(n)
        },
        None => None,
    }
}

/// The library prefix for the symbols of a folder.
pub fn library_prefix_for_folder(folder: Option<&str>) -> (r: Option<&str>)
    ensures
        opt_str(r) == spec_folder_prefix(opt_str(folder)),
{
    match folder {
        Some(n) => if str_eq(n, "base-symbols") || crate::text::ends_with(n, ".symdir") {
            None
        } else {
            Some(n)
        },
        None => None,
    }
}

impl BaseSymbolLibrary {
    /// An empty library.
    pub fn new() -> (lib: Self)
        ensures
            lib@.entries.len() == 0,
            lib@.shorts.len() == 0,
            lib_wf(lib@),
    {
        let lib = BaseSymbolLibrary { by_full_name: Vec::new(), by_short_name: Vec::new() };
        proof {
            assert(entries_view(lib.by_full_name@) =~= Seq::<(Seq<char>, SymbolModel)>::empty());
            assert(shorts_view(lib.by_short_name@) =~= Seq::<(Seq<char>, Seq<char>)>::empty());
        }
        lib
    }

    /// Adds the symbols of one library file. With a folder name each symbol
    /// is stored as `Folder:Name`, else under its own name; a symbol with an
    /// id already present replaces it. A short name keeps the first full id
    /// it was given.
    pub fn load_symbols(&mut self, doc: SymbolLibFile, lib_prefix: Option<&str>)
        requires
            lib_wf(old(self)@),
        ensures
            lib_wf(final(self)@),
            final(self)@ == load_model(old(self)@, doc.symbols_model(), opt_str(lib_prefix)),
    {
        let ghost syms = doc.symbols_model();
        let ghost start = self@;
        let mut rest = doc.into_symbols();
        let ghost all = rest@;
        let n = rest.len();
        let mut i: usize = 0;
        while i < n
            invariant
                n == all.len(),
                i <= n,
                syms == crate::lib_file::symbols_view(all),
                rest@ == all.subrange(i as int, n as int),
                lib_wf(self@),
                self@ == load_model(start, syms.subrange(0, i as int), opt_str(lib_prefix)),
            decreases n - i,
        {
            let s = rest.remove(0);
            let ghost sm = symbol_view(s);
            proof {
                assert(s == all[i as int]);
                assert(sm == syms[i as int]);
                assert(syms.subrange(0, i + 1).drop_last() =~= syms.subrange(0, i as int));
                assert(syms.subrange(0, i + 1).last() == sm);
                lemma_entry_keys(self.by_full_name@);
                lemma_short_keys(self.by_short_name@);
            }
            let short = s.name.clone();
            let full = match lib_prefix {
                Some(lib) => {
                    let mut f = String::from_str(lib);
                    f.append(":");
                    f.append(short.as_str());
                    proof {
                        reveal_strlit(":");
                    }
                    f
                },
                None => short.clone(),
            };
            let ghost fullv = full@;
            assert(fullv == full_id(opt_str(lib_prefix), sm.name));
            let ghost e0 = self@.entries;
            let ghost s0 = self@.shorts;
            match find_key_index(&self.by_short_name, short.as_str()) {
                Some(_) => {},
                None => {
                    let fc = full.clone();
                    self.by_short_name.push((short, fc));
                    proof {
                        assert(shorts_view(self.by_short_name@) =~= s0.push((sm.name, fullv)));
                    }
                },
            }
            match find_key_index(&self.by_full_name, full.as_str()) {
                Some(j) => {
                    self.by_full_name.set(j, (full, s));
                    proof {
                        assert(entries_view(self.by_full_name@) =~= e0.update(j as int, (fullv, sm)));
                    }
                },
                None => {
                    self.by_full_name.push((full, s));
                    proof {
                        assert(entries_view(self.by_full_name@) =~= e0.push((fullv, sm)));
                    }
                },
            }
            proof {
                lemma_insert_entry_distinct(e0, fullv, sm);
                lemma_insert_short_distinct(s0, sm.name, fullv);
            }
            i = i + 1;
        }
        proof {
            assert(syms.subrange(0, n as int) =~= syms);
        }
    }

    /// Whether a symbol is stored under this full id.
    pub fn contains(&self, full_name: &str) -> (r: bool)
        ensures
            r == (index_of_key(self@.entries, full_name@) is Some),
    {
        proof {
            lemma_entry_keys(self.by_full_name@);
        }
        find_key_index(&self.by_full_name, full_name).is_some()
    }

    /// The symbol stored under this full id.
    pub fn symbol(&self, full_name: &str) -> (r: Option<&Symbol>)
        ensures
            match r {
                Some(s) => value_of(self@.entries, full_name@) == Some(symbol_view(*s)),
                None => value_of(self@.entries, full_name@) is None,
            },
    {
        proof {
            lemma_entry_keys(self.by_full_name@);
        }
        match find_key_index(&self.by_full_name, full_name) {
            Some(i) => Some(&self.by_full_name[i].1),
            None => None,
        }
    }

    /// Number of stored symbols.
    pub fn symbol_count(&self) -> (n: usize)
        ensures
            n == self@.entries.len(),
    {
        proof {
            lemma_entry_keys(self.by_full_name@);
        }
        self.by_full_name.len()
    }
}

} // verus!

verus! {

/// The library part (before the first `:`) and the symbol part of an id;
/// an id without `:` has an empty library part.
pub open spec fn split_id(full: Seq<char>) -> (Seq<char>, Seq<char>) {
    match first_index_of(full, ':') {
        Some(i) => (full.subrange(0, i), full.subrange(i + 1, full.len() as int)),
        None => (Seq::empty(), full),
    }
}

/// Reference-designator prefix for a library symbol id.
pub open spec fn spec_refdes_prefix(full: Seq<char>) -> Seq<char> {
    let lib = split_id(full).0;
    let short = split_id(full).1;
    if lib == "Device"@ {
        if short.len() > 0 && short[0] == 'R' {
            "R"@
        } else if short.len() > 0 && short[0] == 'C' {
            "C"@
        } else if short.len() > 0 && short[0] == 'L' {
            "L"@
        } else if short.len() > 0 && short[0] == 'D' {
            "D"@
        } else if short.len() > 0 && short[0] == 'Q' {
            "Q"@
        } else if short.len() > 0 && short[0] == 'J' {
            "J"@
        } else {
            "U"@
        }
    } else if lib == "Connector"@ || lib == "Connector_Generic"@ || lib == "Connector_Conn"@ {
        "J"@
    } else if lib == "Regulator_Linear"@ || lib == "Regulator_Switching"@ || lib == "Regulator_Controller"@ {
        "U"@
    } else if lib == "Amplifier_Operational"@ || lib == "Amplifier_Instrumentation"@ || lib == "Amplifier_Current"@ {
        "U"@
    } else if lib == "Transistor_BJT"@ || lib == "Transistor_FET"@ || lib == "Transistor_IGBT"@ {
        "Q"@
    } else if lib == "Diode"@ || lib == "LED"@ {
        "D"@
    } else if lib == "Crystal"@ {
        "Y"@
    } else if lib == "Switch"@ {
        "S"@
    } else if lib == "Relay"@ {
        "K"@
    } else if lib == "Transformer"@ {
        "T"@
    } else if lib == "Battery"@ {
        "BT"@
    } else if lib == "MCU"@ || lib == "MCU_ST"@ || lib == "MCU_Microchip"@ {
        "U"@
    } else if lib == "Memory"@ || lib == "Memory_EEPROM"@ || lib == "Memory_Flash"@ {
        "U"@
    } else if short == "R"@ {
        "R"@
    } else if short == "C"@ {
        "C"@
    } else if short == "L"@ {
        "L"@
    } else if short == "D"@ || short == "D_Schottky"@ || short == "D_Zener"@ {
        "D"@
    } else if short == "BC547"@ || short == "Q_NPN"@ || short == "Q_PNP"@ {
        "Q"@
    } else if short == "Conn_01x02"@ || short == "Conn_01x04"@ {
        "J"@
    } else {
        "U"@
    }
}

/// Library id of the template that stands in for an empty symbol of a library.
pub open spec fn spec_fallback_template(full_key: Seq<char>) -> Option<Seq<char>> {
    let lib = before_first(full_key, ':');
    if lib == "Amplifier_Operational"@ || lib == "Amplifier_Instrumentation"@ {
        Some("Interface:MCP6002"@)
    } else if lib == "Diode"@ {
        Some("Device:D"@)
    } else {
        None
    }
}

/// The first character of `s`, if any.
fn first_char(s: &str) -> (r: Option<char>)
    ensures
        match r {
            Some(c) => s@.len() > 0 && s@[0] == c,
            None => s@.len() == 0,
        },
{
    if s.unicode_len() > 0 {
        Some(s.get_char(0))
    } else {
        None
    }
}

impl BaseSymbolLibrary {
    /// Reference-designator letter for a library symbol id (`Device:R` is
    /// `R`, `Amplifier_Operational:LM358` is `U`).
    pub fn refdes_prefix_for_library_id(full_name: &str) -> (r: &'static str)
        ensures
            r@ == spec_refdes_prefix(full_name@),
    {
        proof {
            crate::text::lemma_first_index_of(full_name@, ':');
        }
        let n = full_name.unicode_len();
        let (lib, short) = match crate::text::find_char(full_name, ':') {
            Some(i) => (full_name.substring_char(0, i), full_name.substring_char(i + 1, n)),
            None => ("", full_name),
        };
        proof {
            reveal_strlit("");
            assert(lib@ == split_id(full_name@).0);
            assert(short@ == split_id(full_name@).1);
        }
        if str_eq(lib, "Device") {
            match first_char(short) {
                Some('R') => "R",
                Some('C') => "C",
                Some('L') => "L",
                Some('D') => "D",
                Some('Q') => "Q",
                Some('J') => "J",
                _ => "U",
            }
        } else if str_eq(lib, "Connector") || str_eq(lib, "Connector_Generic") || str_eq(lib, "Connector_Conn") {
            "J"
        } else if str_eq(lib, "Regulator_Linear") || str_eq(lib, "Regulator_Switching") || str_eq(lib, "Regulator_Controller") {
            "U"
        } else if str_eq(lib, "Amplifier_Operational") || str_eq(lib, "Amplifier_Instrumentation") || str_eq(lib, "Amplifier_Current") {
            "U"
        } else if str_eq(lib, "Transistor_BJT") || str_eq(lib, "Transistor_FET") || str_eq(lib, "Transistor_IGBT") {
            "Q"
        } else if str_eq(lib, "Diode") || str_eq(lib, "LED") {
            "D"
        } else if str_eq(lib, "Crystal") {
            "Y"
        } else if str_eq(lib, "Switch") {
            "S"
        } else if str_eq(lib, "Relay") {
            "K"
        } else if str_eq(lib, "Transformer") {
            "T"
        } else if str_eq(lib, "Battery") {
            "BT"
        } else if str_eq(lib, "MCU") || str_eq(lib, "MCU_ST") || str_eq(lib, "MCU_Microchip") {
            "U"
        } else if str_eq(lib, "Memory") || str_eq(lib, "Memory_EEPROM") || str_eq(lib, "Memory_Flash") {
            "U"
        } else if str_eq(short, "R") {
            "R"
        } else if str_eq(short, "C") {
            "C"
        } else if str_eq(short, "L") {
            "L"
        } else if str_eq(short, "D") || str_eq(short, "D_Schottky") || str_eq(short, "D_Zener") {
            "D"
        } else if str_eq(short, "BC547") || str_eq(short, "Q_NPN") || str_eq(short, "Q_PNP") {
            "Q"
        } else if str_eq(short, "Conn_01x02") || str_eq(short, "Conn_01x04") {
            "J"
        } else {
            "U"
        }
    }

    /// The template symbol that fills in for an empty symbol of some
    /// libraries (op-amps take an op-amp template, diodes the plain diode).
    pub fn fallback_template_for_key(full_key: &str) -> (r: Option<&'static str>)
        ensures
            opt_str(r) == spec_fallback_template(full_key@),
    {
        let lib = crate::text::before_first_char(full_key, ':');
        if str_eq(lib, "Amplifier_Operational") || str_eq(lib, "Amplifier_Instrumentation") {
            Some("Interface:MCP6002")
        } else if str_eq(lib, "Diode") {
            Some("Device:D")
        } else {
            None
        }
    }
}

} // verus!

verus! {

/// The first key that ends with `suffix`.
pub open spec fn first_key_with_suffix(keys: Seq<Seq<char>>, suffix: Seq<char>) -> Option<Seq<char>>
    decreases keys.len(),
{
    if keys.len() == 0 {
        None
    } else if crate::text::has_suffix(keys[0], suffix) {
        Some(keys[0])
    } else {
        first_key_with_suffix(keys.subrange(1, keys.len() as int), suffix)
    }
}

/// The full id that a short or full name refers to: the name itself when
/// it is a stored id, else the id its short name was given, else the first
/// stored id that ends with `:name`.
pub open spec fn spec_find_symbol_key(m: LibModel, q: Seq<char>) -> Option<Seq<char>> {
    if index_of_key(m.entries, q) is Some {
        Some(q)
    } else {
        match value_of(m.shorts, q) {
            Some(full) => Some(full),
            None => first_key_with_suffix(keys_of(m.entries), seq![':'] + q),
        }
    }
}

/// The first field named `name`.
pub open spec fn first_property_named(
    props: Seq<crate::lib_file::PropertyModel>,
    name: Seq<char>,
) -> Option<crate::lib_file::PropertyModel>
    decreases props.len(),
{
    if props.len() == 0 {
        None
    } else if props[0].name == name {
        Some(props[0])
    } else {
        first_property_named(props.subrange(1, props.len() as int), name)
    }
}

/// Default **Value** of a library symbol: the text of its first `Value`
/// field when that is not empty, else the value its id suggests.
pub open spec fn spec_default_value_for(m: LibModel, full: Seq<char>) -> Seq<char> {
    let fallback = crate::component_value::spec_default_value_for_library_id(full);
    match value_of(m.entries, full) {
        Some(sym) => match first_property_named(sym.properties, "Value"@) {
            Some(p) => if p.default_text.len() > 0 { p.default_text } else { fallback },
            None => fallback,
        },
        None => fallback,
    }
}

/// The first candidate that names a symbol: as a stored id, or as a short
/// name (giving the id it stands for).
pub open spec fn resolve_candidates(m: LibModel, cands: Seq<Seq<char>>) -> Option<Seq<char>>
    decreases cands.len(),
{
    if cands.len() == 0 {
        None
    } else if index_of_key(m.entries, cands[0]) is Some {
        Some(cands[0])
    } else {
        match value_of(m.shorts, cands[0]) {
            Some(full) => Some(full),
            None => resolve_candidates(m, cands.subrange(1, cands.len() as int)),
        }
    }
}

/// The texts of a list of string slices.
pub open spec fn strs_view(s: Seq<&str>) -> Seq<Seq<char>> {
    s.map_values(|x: &str| x@)
}

impl BaseSymbolLibrary {
    /// The id stored for `short` in the short-name table.
    fn short_target(&self, short: &str) -> (r: Option<String>)
        ensures
            match r {
                Some(f) => value_of(self@.shorts, short@) == Some(f@),
                None => value_of(self@.shorts, short@) is None,
            },
    {
        proof {
            lemma_short_keys(self.by_short_name@);
        }
        match find_key_index(&self.by_short_name, short) {
            Some(i) => Some(self.by_short_name[i].1.clone()),
            None => None,
        }
    }

    /// The stored id that a short or full name refers to.
    fn find_symbol_key(&self, short_or_full: &str) -> (r: Option<String>)
        ensures
            opt_string(r) == spec_find_symbol_key(self@, short_or_full@),
    {
        if self.contains(short_or_full) {
            return Some(String::from_str(short_or_full));
        }
        match self.short_target(short_or_full) {
            Some(f) => {
                return Some(f);
            },
            None => {},
        }
        let mut suffix = String::from_str(":");
        suffix.append(short_or_full);
        proof {
            reveal_strlit(":");
            lemma_entry_keys(self.by_full_name@);
        }
        let ghost ks = keys_of(self@.entries);
        let mut i: usize = 0;
        assert(ks.subrange(0, ks.len() as int) =~= ks);
        while i < self.by_full_name.len()
            invariant
                ks == stored_keys(self.by_full_name@),
                ks == keys_of(self@.entries),
                index_of_key(self@.entries, short_or_full@) is None,
                value_of(self@.shorts, short_or_full@) is None,
                ks.len() == self.by_full_name@.len(),
                i <= ks.len(),
                suffix@ == seq![':'] + short_or_full@,
                first_key_with_suffix(ks, suffix@) == first_key_with_suffix(ks.subrange(i as int, ks.len() as int), suffix@),
            decreases ks.len() - i,
        {
            proof {
                assert(ks.subrange(i as int, ks.len() as int)[0] == ks[i as int]);
                assert(ks.subrange(i as int, ks.len() as int).subrange(1, ks.len() - i) =~= ks.subrange(i + 1, ks.len() as int));
            }
            assert(ks[i as int] == self.by_full_name@[i as int].0@);
            if crate::text::ends_with(self.by_full_name[i].0.as_str(), suffix.as_str()) {
                return Some(self.by_full_name[i].0.clone());
            }
            i = i + 1;
        }
        None
    }

    /// Default **Value** for a placed symbol: the library's `Value` field
    /// when it has text, else the value the id suggests.
    pub fn default_value_for(&self, full_name: &str) -> (r: String)
        ensures
            r@ == spec_default_value_for(self@, full_name@),
    {
        match self.symbol(full_name) {
            Some(sym) => {
                let ghost props = crate::lib_file::properties_view(sym.properties@);
                let mut i: usize = 0;
                assert(props.subrange(0, props.len() as int) =~= props);
                while i < sym.properties.len()
                    invariant
                        value_of(self@.entries, full_name@) == Some(symbol_view(*sym)),
                        props == symbol_view(*sym).properties,
                        props == crate::lib_file::properties_view(sym.properties@),
                        props.len() == sym.properties@.len(),
                        i <= props.len(),
                        first_property_named(props, "Value"@) == first_property_named(props.subrange(i as int, props.len() as int), "Value"@),
                    decreases props.len() - i,
                {
                    proof {
                        assert(props.subrange(i as int, props.len() as int)[0] == props[i as int]);
                        assert(props.subrange(i as int, props.len() as int).subrange(1, props.len() - i) =~= props.subrange(i + 1, props.len() as int));
                    }
                    let p = &sym.properties[i];
                    assert(props[i as int] == crate::lib_file::property_view(*p));
                    if str_eq(p.name.as_str(), "Value") {
                        if p.default_text.unicode_len() > 0 {
                            return p.default_text.clone();
                        }
                        return crate::component_value::default_value_for_library_id(full_name);
                    }
                    i = i + 1;
                }
                crate::component_value::default_value_for_library_id(full_name)
            },
            None => crate::component_value::default_value_for_library_id(full_name),
        }
    }

    /// The first of the candidate names that the library can resolve.
    fn first_candidate(&self, cands: &[&str]) -> (r: Option<String>)
        ensures
            opt_string(r) == resolve_candidates(self@, strs_view(cands@)),
    {
        let ghost cs = strs_view(cands@);
        let mut i: usize = 0;
        assert(cs.subrange(0, cs.len() as int) =~= cs);
        while i < cands.len()
            invariant
                cs == strs_view(cands@),
                cs.len() == cands@.len(),
                i <= cs.len(),
                resolve_candidates(self@, cs) == resolve_candidates(self@, cs.subrange(i as int, cs.len() as int)),
            decreases cs.len() - i,
        {
            proof {
                assert(cs.subrange(i as int, cs.len() as int)[0] == cs[i as int]);
                assert(cs.subrange(i as int, cs.len() as int).subrange(1, cs.len() - i) =~= cs.subrange(i + 1, cs.len() as int));
            }
            let c = cands[i];
            if self.contains(c) {
                return Some(String::from_str(c));
            }
            match self.short_target(c) {
                Some(f) => {
                    return Some(f);
                },
                None => {},
            }
            i = i + 1;
        }
        None
    }
}

} // verus!

verus! {

/// Library names tried, in order, for a component family.
pub open spec fn candidates_for_kind(kind: crate::symbol_kind::CompKind) -> Seq<Seq<char>> {
    match kind {
        crate::symbol_kind::CompKind::Resistor => seq!["Device:R"@, "R"@],
        crate::symbol_kind::CompKind::Capacitor => seq!["Device:C"@, "C"@],
        crate::symbol_kind::CompKind::Inductor => seq!["Device:L"@, "L"@],
        crate::symbol_kind::CompKind::Diode => seq!["Device:D"@, "D"@, "Device:D_Schottky"@, "D_Schottky"@],
        crate::symbol_kind::CompKind::Transistor => seq!["Transistor_BJT:BC547"@, "BC547"@],
        crate::symbol_kind::CompKind::IC => seq!["Device:U"@, "U"@, "Amplifier_Operational:LM358"@],
        crate::symbol_kind::CompKind::Generic => seq!["Device:Generic"@, "Generic"@],
    }
}

/// Library names tried, in order, for a reference-designator prefix.
pub open spec fn candidates_for_prefix(prefix: Seq<char>) -> Seq<Seq<char>> {
    if prefix == "R"@ {
        seq!["Device:R"@, "R"@]
    } else if prefix == "C"@ {
        seq!["Device:C"@, "C"@]
    } else if prefix == "L"@ {
        seq!["Device:L"@, "L"@]
    } else if prefix == "D"@ {
        seq!["Device:D"@, "D"@, "Device:D_Schottky"@]
    } else if prefix == "Q"@ {
        seq!["Transistor_BJT:BC547"@, "BC547"@, "Device:Q_NPN"@]
    } else if prefix == "J"@ {
        seq!["Connector:Conn_01x02"@, "Conn_01x02"@, "Connector:Conn_01x04"@]
    } else if prefix == "U"@ {
        seq!["Amplifier_Operational:LM358"@, "LM358"@, "Device:U"@, "U"@]
    } else {
        seq!["Device:U"@, "U"@, "Conn_01x04"@]
    }
}

/// Ids of the IC families that a `U` prefers.
pub open spec fn is_ic_family_key(k: Seq<char>) -> bool {
    crate::text::has_prefix(k, "Amplifier_"@) || crate::text::has_prefix(k, "MCU_"@)
        || crate::text::has_prefix(k, "Regulator_"@) || k == "Device:U"@
}

/// The least key (in character order) among the IC-family keys.
pub open spec fn least_ic_key(keys: Seq<Seq<char>>) -> Option<Seq<char>>
    decreases keys.len(),
{
    if keys.len() == 0 {
        None
    } else {
        let rest = least_ic_key(keys.drop_last());
        let k = keys.last();
        if is_ic_family_key(k) {
            match rest {
                Some(m) => if crate::text::lex_lt(k, m) { Some(k) } else { Some(m) },
                None => Some(k),
            }
        } else {
            rest
        }
    }
}

/// The stored symbol a refdes prefix places by default.
pub open spec fn spec_default_for_prefix(m: LibModel, prefix: Seq<char>) -> Option<Seq<char>> {
    if prefix == "U"@ && least_ic_key(keys_of(m.entries)) is Some {
        least_ic_key(keys_of(m.entries))
    } else {
        resolve_candidates(m, candidates_for_prefix(prefix))
    }
}

impl BaseSymbolLibrary {
    /// The library symbol drawn for a component family, if the library has one.
    pub fn resolve_symbol_name_for_kind(&self, kind: crate::symbol_kind::CompKind) -> (r: Option<String>)
        ensures
            opt_string(r) == resolve_candidates(self@, candidates_for_kind(kind)),
    {
        match kind {
            crate::symbol_kind::CompKind::Resistor => {
                let c: [&str; 2] = ["Device:R", "R"];
                assert(strs_view(c@) =~= candidates_for_kind(kind));
                self.first_candidate(&c)
            },
            crate::symbol_kind::CompKind::Capacitor => {
                let c: [&str; 2] = ["Device:C", "C"];
                assert(strs_view(c@) =~= candidates_for_kind(kind));
                self.first_candidate(&c)
            },
            crate::symbol_kind::CompKind::Inductor => {
                let c: [&str; 2] = ["Device:L", "L"];
                assert(strs_view(c@) =~= candidates_for_kind(kind));
                self.first_candidate(&c)
            },
            crate::symbol_kind::CompKind::Diode => {
                let c: [&str; 4] = ["Device:D", "D", "Device:D_Schottky", "D_Schottky"];
                assert(strs_view(c@) =~= candidates_for_kind(kind));
                self.first_candidate(&c)
            },
            crate::symbol_kind::CompKind::Transistor => {
                let c: [&str; 2] = ["Transistor_BJT:BC547", "BC547"];
                assert(strs_view(c@) =~= candidates_for_kind(kind));
                self.first_candidate(&c)
            },
            crate::symbol_kind::CompKind::IC => {
                let c: [&str; 3] = ["Device:U", "U", "Amplifier_Operational:LM358"];
                assert(strs_view(c@) =~= candidates_for_kind(kind));
                self.first_candidate(&c)
            },
            crate::symbol_kind::CompKind::Generic => {
                let c: [&str; 2] = ["Device:Generic", "Generic"];
                assert(strs_view(c@) =~= candidates_for_kind(kind));
                self.first_candidate(&c)
            },
        }
    }
}

} // verus!

verus! {

/// Whether a symbol id matches a search query (already trimmed and
/// lower-cased): its ASCII lower-case form contains the query.
pub open spec fn search_hit(k: Seq<char>, q: Seq<char>) -> bool {
    crate::text::has_infix(crate::text::ascii_lower(k), q)
}

/// The query as a search uses it: trimmed, then ASCII lower-cased.
pub open spec fn search_query(query: Seq<char>) -> Seq<char> {
    crate::text::ascii_lower(crate::text::trim_ws(query))
}

/// The first `n` keys, or all of them when there are fewer.
pub open spec fn first_keys(keys: Seq<Seq<char>>, n: int) -> Seq<Seq<char>> {
    if n <= keys.len() { keys.subrange(0, n) } else { keys }
}

/// `r` is in strictly increasing character order.
pub open spec fn lex_sorted(r: Seq<Seq<char>>) -> bool {
    forall|i: int, j: int| 0 <= i < j < r.len() ==> crate::text::lex_lt(#[trigger] r[i], #[trigger] r[j])
}

/// Each entry of `r` is a stored key that matches `q`.
pub open spec fn all_hits(keys: Seq<Seq<char>>, q: Seq<char>, r: Seq<Seq<char>>) -> bool {
    forall|i: int| 0 <= i < r.len() ==> keys.contains(#[trigger] r[i]) && search_hit(r[i], q)
}

/// The result of a search with a non-empty query: matching keys in
/// character order, at most `limit` of them; a matching key is left out
/// only when `limit` keys that come before it were returned.
pub open spec fn is_search_result(keys: Seq<Seq<char>>, q: Seq<char>, limit: int, r: Seq<Seq<char>>) -> bool {
    &&& r.len() <= limit
    &&& lex_sorted(r)
    &&& all_hits(keys, q, r)
    &&& forall|k: Seq<char>|
        #[trigger] keys.contains(k) && search_hit(k, q) && !r.contains(k) ==> r.len() == limit && forall|i: int|
            0 <= i < r.len() ==> crate::text::lex_lt(#[trigger] r[i], k)
}

/// What a search of the library answers: with an empty query (after
/// trimming) the first `limit` ids, else the search result.
pub open spec fn search_answer(m: LibModel, query: Seq<char>, limit: int, r: Seq<Seq<char>>) -> bool {
    if search_query(query).len() == 0 {
        r == first_keys(keys_of(m.entries), limit)
    } else {
        is_search_result(keys_of(m.entries), search_query(query), limit, r)
    }
}

/// A matching key that comes after everything chosen so far.
spec fn above_chosen(r: Seq<Seq<char>>, q: Seq<char>, k: Seq<char>) -> bool {
    search_hit(k, q) && (r.len() == 0 || crate::text::lex_lt(r.last(), k))
}

/// What the selection keeps: sorted matching keys, and every matching key
/// up to the last one chosen.
spec fn chosen_ok(keys: Seq<Seq<char>>, q: Seq<char>, r: Seq<Seq<char>>) -> bool {
    &&& lex_sorted(r)
    &&& all_hits(keys, q, r)
    &&& forall|k: Seq<char>|
        #[trigger] keys.contains(k) && search_hit(k, q) && r.len() > 0 && !crate::text::lex_lt(r.last(), k)
            ==> r.contains(k)
}

/// In a sorted list every entry is at most the last one.
proof fn lemma_sorted_below_last(r: Seq<Seq<char>>, i: int)
    requires
        lex_sorted(r),
        0 <= i < r.len(),
    ensures
        r[i] == r.last() || crate::text::lex_lt(r[i], r.last()),
{
    if i < r.len() - 1 {
        assert(crate::text::lex_lt(r[i], r[r.len() - 1]));
    }
}

/// Choosing the least key above the chosen ones keeps the selection valid.
proof fn lemma_choose_next(keys: Seq<Seq<char>>, q: Seq<char>, r: Seq<Seq<char>>, b: int)
    requires
        chosen_ok(keys, q, r),
        0 <= b < keys.len(),
        above_chosen(r, q, keys[b]),
        forall|j: int| 0 <= j < keys.len() && above_chosen(r, q, #[trigger] keys[j]) ==> !crate::text::lex_lt(keys[j], keys[b]),
    ensures
        chosen_ok(keys, q, r.push(keys[b])),
{
    let kb = keys[b];
    let r2 = r.push(kb);
    assert forall|i: int, j: int| 0 <= i < j < r2.len() implies crate::text::lex_lt(#[trigger] r2[i], #[trigger] r2[j]) by {
        if j == r.len() {
            lemma_sorted_below_last(r, i);
            assert(r2[i] == r[i]);
            if r[i] != r.last() {
                crate::text::lemma_lex_transitive(r[i], r.last(), kb);
            }
        } else {
            assert(r2[i] == r[i] && r2[j] == r[j]);
        }
    }
    assert forall|i: int| 0 <= i < r2.len() implies keys.contains(#[trigger] r2[i]) && search_hit(r2[i], q) by {
        if i < r.len() {
            assert(r2[i] == r[i]);
        }
    }
    assert forall|k: Seq<char>|
        #[trigger] keys.contains(k) && search_hit(k, q) && r2.len() > 0 && !crate::text::lex_lt(r2.last(), k)
        implies r2.contains(k) by {
        if k == kb {
            assert(r2[r.len() as int] == k);
        } else {
            crate::text::lemma_lex_total(k, kb);
            let j = choose|j: int| 0 <= j < keys.len() && keys[j] == k;
            assert(keys[j] == k);
            if r.len() > 0 && crate::text::lex_lt(r.last(), k) {
                assert(above_chosen(r, q, keys[j]));
                assert(false);
            }
            if r.len() == 0 {
                assert(above_chosen(r, q, keys[j]));
                assert(false);
            }
            assert(r.contains(k));
            let i = choose|i: int| 0 <= i < r.len() && r[i] == k;
            assert(r2[i] == k);
        }
    }
}

/// When the selection stops, it is the search result.
proof fn lemma_chosen_is_result(keys: Seq<Seq<char>>, q: Seq<char>, r: Seq<Seq<char>>, limit: int, done: bool)
    requires
        chosen_ok(keys, q, r),
        r.len() <= limit,
        done || r.len() >= limit,
        done ==> forall|k: Seq<char>| #[trigger] keys.contains(k) ==> !above_chosen(r, q, k),
    ensures
        is_search_result(keys, q, limit, r),
{
    assert forall|k: Seq<char>|
        #[trigger] keys.contains(k) && search_hit(k, q) && !r.contains(k) implies r.len() == limit && forall|i: int|
            0 <= i < r.len() ==> crate::text::lex_lt(#[trigger] r[i], k) by {
        if r.len() > 0 && !crate::text::lex_lt(r.last(), k) {
            assert(r.contains(k));
        }
        if done {
            assert(!above_chosen(r, q, k));
        }
        assert forall|i: int| 0 <= i < r.len() implies crate::text::lex_lt(#[trigger] r[i], k) by {
            lemma_sorted_below_last(r, i);
            if r[i] != r.last() {
                crate::text::lemma_lex_transitive(r[i], r.last(), k);
            }
        }
    }
}

impl BaseSymbolLibrary {
    /// Library ids for a search box. The query is trimmed and lower-cased;
    /// when nothing is left, the first `limit` ids come back. Otherwise the
    /// ids that contain it (ignoring ASCII case), in character order, at
    /// most `limit` of them.
    pub fn search(&self, query: &str, limit: usize) -> (r: Vec<String>)
        ensures
            search_answer(self@, query@, limit as int, texts_view(r@)),
    {
        proof {
            lemma_entry_keys(self.by_full_name@);
        }
        let ghost ks = keys_of(self@.entries);
        let n = self.by_full_name.len();
        let q = crate::text::to_ascii_lower(crate::text::trim(query));
        let mut out: Vec<String> = Vec::new();
        if q.as_str().unicode_len() == 0 {
            let mut i: usize = 0;
            while i < n && i < limit
                invariant
                    ks == stored_keys(self.by_full_name@),
                    ks.len() == n,
                    n == self.by_full_name@.len(),
                    i <= n,
                    i <= limit,
                    texts_view(out@) == ks.subrange(0, i as int),
                decreases n - i,
            {
                let s = self.by_full_name[i].0.clone();
                proof {
                    assert(ks[i as int] == self.by_full_name@[i as int].0@);
                    assert(s@ == ks[i as int]);
                }
                let ghost before = out@;
                out.push(s);
                proof {
                    assert(texts_view(out@) =~= texts_view(before).push(ks[i as int]));
                    assert(texts_view(out@) =~= ks.subrange(0, i + 1));
                }
                i = i + 1;
            }
            proof {
                if limit as int <= ks.len() {
                    assert(i == limit);
                } else {
                    assert(ks.subrange(0, i as int) =~= ks);
                }
            }
            return out;
        }
        let ghost qv = q@;
        let mut done = false;
        while out.len() < limit && !done
            invariant
                ks == stored_keys(self.by_full_name@),
                ks.len() == n,
                n == self.by_full_name@.len(),
                qv == q@,
                chosen_ok(ks, qv, texts_view(out@)),
                out@.len() <= limit,
                done ==> forall|k: Seq<char>| #[trigger] ks.contains(k) ==> !above_chosen(texts_view(out@), qv, k),
            decreases limit - out@.len() + if done { 0int } else { 1int },
        {
            let ghost rv = texts_view(out@);
            let mut best: Option<usize> = None;
            let mut i: usize = 0;
            while i < n
                invariant
                    ks == stored_keys(self.by_full_name@),
                    ks.len() == n,
                    n == self.by_full_name@.len(),
                    qv == q@,
                    rv == texts_view(out@),
                    i <= n,
                    match best {
                        Some(b) => b < i && above_chosen(rv, qv, ks[b as int]) && forall|j: int|
                            0 <= j < i && above_chosen(rv, qv, #[trigger] ks[j]) ==> !crate::text::lex_lt(ks[j], ks[b as int]),
                        None => forall|j: int| 0 <= j < i ==> !above_chosen(rv, qv, #[trigger] ks[j]),
                    },
                decreases n - i,
            {
                proof {
                    assert(ks[i as int] == self.by_full_name@[i as int].0@);
                }
                let ghost prev_best = best;
                let k = self.by_full_name[i].0.as_str();
                let lk = crate::text::to_ascii_lower(k);
                let mut above = crate::text::contains(lk.as_str(), q.as_str());
                if above && out.len() > 0 {
                    let last = out.len() - 1;
                    proof {
                        assert(rv.last() == out@[last as int]@);
                    }
                    above = crate::text::str_lt(out[last].as_str(), k);
                }
                if above {
                    match best {
                        Some(b) => {
                            proof {
                                assert(ks[b as int] == self.by_full_name@[b as int].0@);
                            }
                            if crate::text::str_lt(k, self.by_full_name[b].0.as_str()) {
                                best = Some(i);
                            } else {
                                proof {
                                    crate::text::lemma_lex_total(ks[i as int], ks[b as int]);
                                }
                            }
                        },
                        None => {
                            best = Some(i);
                        },
                    }
                }
                proof {
                    if let Some(b) = best {
                        assert forall|j: int|
                            0 <= j < i + 1 && above_chosen(rv, qv, #[trigger] ks[j]) implies !crate::text::lex_lt(ks[j], ks[b as int]) by {
                            if j == b {
                                crate::text::lemma_lex_irreflexive(ks[j]);
                            } else if j < i && b == i {
                                if let Some(b0) = prev_best {
                                    if crate::text::lex_lt(ks[j], ks[i as int]) {
                                        crate::text::lemma_lex_transitive(ks[j], ks[i as int], ks[b0 as int]);
                                    }
                                }
                            }
                        }
                    }
                }
                i = i + 1;
            }
            match best {
                Some(b) => {
                    proof {
                        assert(ks[b as int] == self.by_full_name@[b as int].0@);
                        lemma_choose_next(ks, qv, rv, b as int);
                    }
                    let s = self.by_full_name[b].0.clone();
                    proof {
                        assert(s@ == ks[b as int]);
                    }
                    out.push(s);
                    proof {
                        assert(texts_view(out@) =~= rv.push(ks[b as int]));
                    }
                },
                None => {
                    done = true;
                    proof {
                        assert forall|k: Seq<char>| #[trigger] ks.contains(k) implies !above_chosen(rv, qv, k) by {
                            let j = choose|j: int| 0 <= j < ks.len() && ks[j] == k;
                            assert(!above_chosen(rv, qv, ks[j]));
                        }
                    }
                },
            }
        }
        proof {
            lemma_chosen_is_result(ks, qv, texts_view(out@), limit as int, done);
        }
        out
    }
}

/// Library ids listed in the place panel: the first 40 ids for an empty
/// query, else up to 60 search hits; nothing without a library.
pub fn symbol_hits(lib: Option<&BaseSymbolLibrary>, place_query: &str) -> (r: Vec<String>)
    ensures
        match lib {
            None => r@.len() == 0,
            Some(l) => if crate::text::trim_ws(place_query@).len() == 0 {
                search_answer(l@, ""@, 40, texts_view(r@))
            } else {
                search_answer(l@, crate::text::trim_ws(place_query@), 60, texts_view(r@))
            },
        },
{
    let q = crate::text::trim(place_query);
    match lib {
        Some(l) => if q.unicode_len() == 0 {
            l.search("", 40)
        } else {
            l.search(q, 60)
        },
        None => Vec::new(),
    }
}

} // verus!

verus! {

/// Sort key of an MPN hit: ids of the `Device` library after the others,
/// then shorter ids (in bytes) first.
pub open spec fn mpn_rank(k: Seq<char>) -> (int, int) {
    (if crate::text::has_prefix(k, "Device:"@) { 1int } else { 0int }, vstd::utf8::encode_utf8(k).len() as int)
}

/// Rank order: by the first component, then by the second.
pub open spec fn rank_lt(a: (int, int), b: (int, int)) -> bool {
    a.0 < b.0 || (a.0 == b.0 && a.1 < b.1)
}

/// Among the keys whose lower-case form contains `q`, the first one of
/// least rank.
pub open spec fn best_mpn_hit(keys: Seq<Seq<char>>, q: Seq<char>) -> Option<Seq<char>>
    decreases keys.len(),
{
    if keys.len() == 0 {
        None
    } else {
        let rest = best_mpn_hit(keys.drop_last(), q);
        let k = keys.last();
        if crate::text::has_infix(crate::text::ascii_lower(k), q) {
            match rest {
                Some(m) => if rank_lt(mpn_rank(k), mpn_rank(m)) { Some(k) } else { Some(m) },
                None => Some(k),
            }
        } else {
            rest
        }
    }
}

/// The symbol id an MPN search finds: the query is trimmed and lower-cased;
/// shorter than two bytes finds nothing.
pub open spec fn spec_lookup_by_mpn(m: LibModel, mpn: Seq<char>) -> Option<Seq<char>> {
    let q = crate::text::ascii_lower(crate::text::trim_ws(mpn));
    if vstd::utf8::encode_utf8(q).len() < 2 {
        None
    } else {
        best_mpn_hit(keys_of(m.entries), q)
    }
}

/// Symbol id for a placement: a stored library id first, then an MPN
/// match, then the default for the refdes prefix.
pub open spec fn spec_resolve_for_placement(
    m: LibModel,
    library_id: Option<Seq<char>>,
    mpn: Option<Seq<char>>,
    prefix: Seq<char>,
) -> Option<Seq<char>> {
    if library_id matches Some(id) && id.len() > 0 && index_of_key(m.entries, id) is Some {
        library_id
    } else if mpn is Some && mpn->0.len() > 0 && spec_lookup_by_mpn(m, mpn->0) is Some {
        spec_lookup_by_mpn(m, mpn->0)
    } else {
        spec_default_for_prefix(m, prefix)
    }
}

fn mpn_rank_exec(k: &str) -> (r: (u8, usize))
    ensures
        r.0 as int == mpn_rank(k@).0,
        r.1 as int == mpn_rank(k@).1,
{
    let dev: u8 = if crate::text::starts_with(k, "Device:") { 1 } else { 0 };
    (dev, k.as_bytes().len())
}

impl BaseSymbolLibrary {
    /// Finds a library symbol whose id contains the MPN (ignoring ASCII
    /// case); among several, ids outside `Device` and then shorter ids win.
    pub fn lookup_by_mpn(&self, mpn: &str) -> (r: Option<String>)
        ensures
            opt_string(r) == spec_lookup_by_mpn(self@, mpn@),
    {
        let q = crate::text::to_ascii_lower(crate::text::trim(mpn));
        if q.as_str().as_bytes().len() < 2 {
            return None;
        }
        proof {
            lemma_entry_keys(self.by_full_name@);
        }
        let ghost ks = keys_of(self@.entries);
        let mut best: Option<usize> = None;
        let mut i: usize = 0;
        while i < self.by_full_name.len()
            invariant
                ks == stored_keys(self.by_full_name@),
                ks.len() == self.by_full_name@.len(),
                i <= ks.len(),
                match best {
                    Some(b) => b < i && best_mpn_hit(ks.subrange(0, i as int), q@) == Some(ks[b as int]),
                    None => best_mpn_hit(ks.subrange(0, i as int), q@) is None,
                },
            decreases ks.len() - i,
        {
            proof {
                assert(ks.subrange(0, i + 1).drop_last() =~= ks.subrange(0, i as int));
                assert(ks[i as int] == self.by_full_name@[i as int].0@);
            }
            let k = self.by_full_name[i].0.as_str();
            let lk = crate::text::to_ascii_lower(k);
            if crate::text::contains(lk.as_str(), q.as_str()) {
                match best {
                    Some(b) => {
                        proof {
                            assert(ks[b as int] == self.by_full_name@[b as int].0@);
                        }
                        let rk = mpn_rank_exec(k);
                        let rb = mpn_rank_exec(self.by_full_name[b].0.as_str());
                        if rk.0 < rb.0 || (rk.0 == rb.0 && rk.1 < rb.1) {
                            best = Some(i);
                        }
                    },
                    None => {
                        best = Some(i);
                    },
                }
            }
            i = i + 1;
        }
        proof {
            assert(ks.subrange(0, ks.len() as int) =~= ks);
        }
        match best {
            Some(b) => {
                proof {
                    assert(ks[b as int] == self.by_full_name@[b as int].0@);
                }
                Some(self.by_full_name[b].0.clone())
            },
            None => None,
        }
    }

    /// The symbol a refdes prefix places by default: for `U` the least id
    /// of the op-amp, MCU and regulator families (or `Device:U`), else the
    /// first known of the prefix's usual symbols.
    pub fn default_for_prefix(&self, prefix: &str) -> (r: Option<String>)
        ensures
            opt_string(r) == spec_default_for_prefix(self@, prefix@),
    {
        if str_eq(prefix, "U") {
            proof {
                lemma_entry_keys(self.by_full_name@);
            }
            let ghost ks = keys_of(self@.entries);
            let mut best: Option<usize> = None;
            let mut i: usize = 0;
            while i < self.by_full_name.len()
                invariant
                    ks == stored_keys(self.by_full_name@),
                    ks.len() == self.by_full_name@.len(),
                    i <= ks.len(),
                    match best {
                        Some(b) => b < i && least_ic_key(ks.subrange(0, i as int)) == Some(ks[b as int]),
                        None => least_ic_key(ks.subrange(0, i as int)) is None,
                    },
                decreases ks.len() - i,
            {
                proof {
                    assert(ks.subrange(0, i + 1).drop_last() =~= ks.subrange(0, i as int));
                    assert(ks[i as int] == self.by_full_name@[i as int].0@);
                }
                let k = self.by_full_name[i].0.as_str();
                if crate::text::starts_with(k, "Amplifier_") || crate::text::starts_with(k, "MCU_")
                    || crate::text::starts_with(k, "Regulator_") || str_eq(k, "Device:U") {
                    match best {
                        Some(b) => {
                            proof {
                                assert(ks[b as int] == self.by_full_name@[b as int].0@);
                            }
                            if crate::text::str_lt(k, self.by_full_name[b].0.as_str()) {
                                best = Some(i);
                            }
                        },
                        None => {
                            best = Some(i);
                        },
                    }
                }
                i = i + 1;
            }
            proof {
                assert(ks.subrange(0, ks.len() as int) =~= ks);
            }
            match best {
                Some(b) => {
                    proof {
                        assert(ks[b as int] == self.by_full_name@[b as int].0@);
                    }
                    return Some(self.by_full_name[b].0.clone());
                },
                None => {},
            }
        }
        if str_eq(prefix, "R") {
            let c: [&str; 2] = ["Device:R", "R"];
            assert(strs_view(c@) =~= candidates_for_prefix(prefix@));
            self.first_candidate(&c)
        } else if str_eq(prefix, "C") {
            let c: [&str; 2] = ["Device:C", "C"];
            assert(strs_view(c@) =~= candidates_for_prefix(prefix@));
            self.first_candidate(&c)
        } else if str_eq(prefix, "L") {
            let c: [&str; 2] = ["Device:L", "L"];
            assert(strs_view(c@) =~= candidates_for_prefix(prefix@));
            self.first_candidate(&c)
        } else if str_eq(prefix, "D") {
            let c: [&str; 3] = ["Device:D", "D", "Device:D_Schottky"];
            assert(strs_view(c@) =~= candidates_for_prefix(prefix@));
            self.first_candidate(&c)
        } else if str_eq(prefix, "Q") {
            let c: [&str; 3] = ["Transistor_BJT:BC547", "BC547", "Device:Q_NPN"];
            assert(strs_view(c@) =~= candidates_for_prefix(prefix@));
            self.first_candidate(&c)
        } else if str_eq(prefix, "J") {
            let c: [&str; 3] = ["Connector:Conn_01x02", "Conn_01x02", "Connector:Conn_01x04"];
            assert(strs_view(c@) =~= candidates_for_prefix(prefix@));
            self.first_candidate(&c)
        } else if str_eq(prefix, "U") {
            let c: [&str; 4] = ["Amplifier_Operational:LM358", "LM358", "Device:U", "U"];
            assert(strs_view(c@) =~= candidates_for_prefix(prefix@));
            self.first_candidate(&c)
        } else {
            let c: [&str; 3] = ["Device:U", "U", "Conn_01x04"];
            assert(strs_view(c@) =~= candidates_for_prefix(prefix@));
            self.first_candidate(&c)
        }
    }

    /// Symbol id for a placement: the given library id when it is stored,
    /// else an MPN match, else the prefix's default.
    pub fn resolve_for_placement(
        &self,
        library_id: Option<&str>,
        mpn: Option<&str>,
        refdes_prefix: &str,
    ) -> (r: Option<String>)
        ensures
            opt_string(r) == spec_resolve_for_placement(self@, opt_str(library_id), opt_str(mpn), refdes_prefix@),
    {
        match library_id {
            Some(id) => {
                if id.unicode_len() > 0 && self.contains(id) {
                    return Some(String::from_str(id));
                }
            },
            None => {},
        }
        match mpn {
            Some(q) => {
                if q.unicode_len() > 0 {
                    match self.lookup_by_mpn(q) {
                        Some(id) => {
                            return Some(id);
                        },
                        None => {},
                    }
                }
            },
            None => {},
        }
        self.default_for_prefix(refdes_prefix)
    }
}

} // verus!

verus! {

/// **Value** text for a newly placed part.
pub open spec fn spec_placement_value(
    lib: Option<LibModel>,
    symbol_id: Option<Seq<char>>,
    prefix: Seq<char>,
    part_mpn: Option<Seq<char>>,
) -> Seq<char> {
    let from_lib: Option<Seq<char>> = match (symbol_id, lib) {
        (Some(id), Some(m)) => Some(spec_default_value_for(m, id)),
        _ => None,
    };
    if prefix == "R"@ || prefix == "C"@ || prefix == "L"@ || prefix == "D"@ {
        match from_lib {
            Some(v) => v,
            None => crate::component_value::spec_default_value_for_library_id(
                match symbol_id { Some(id) => id, None => "Device:R"@ },
            ),
        }
    } else {
        match part_mpn {
            Some(p) => p,
            None => match from_lib {
                Some(v) => v,
                None => crate::component_value::spec_default_value_for_library_id(
                    match symbol_id { Some(id) => id, None => Seq::empty() },
                ),
            },
        }
    }
}

/// The value of an optional library.
pub open spec fn opt_lib(o: Option<&BaseSymbolLibrary>) -> Option<LibModel> {
    match o {
        Some(l) => Some(l@),
        None => None,
    }
}

/// **Value** text for a newly placed part: passives (`R`, `C`, `L`, `D`)
/// take the library's value; other parts prefer their MPN.
pub fn placement_value_for_symbols(
    base_symbols: Option<&BaseSymbolLibrary>,
    symbol_id: Option<&str>,
    prefix: &str,
    part_mpn: Option<&str>,
) -> (r: String)
    ensures
        r@ == spec_placement_value(opt_lib(base_symbols), opt_str(symbol_id), prefix@, opt_str(part_mpn)),
{
    let from_lib: Option<String> = match (symbol_id, base_symbols) {
        (Some(id), Some(lib)) => Some(lib.default_value_for(id)),
        _ => None,
    };
    let ghost fl: Option<Seq<char>> = match (opt_str(symbol_id), opt_lib(base_symbols)) {
        (Some(id), Some(m)) => Some(spec_default_value_for(m, id)),
        _ => None,
    };
    assert(opt_string(from_lib) == fl);
    if str_eq(prefix, "R") || str_eq(prefix, "C") || str_eq(prefix, "L") || str_eq(prefix, "D") {
        match from_lib {
            Some(v) => v,
            None => crate::component_value::default_value_for_library_id(
                match symbol_id {
                    Some(id) => id,
                    None => "Device:R",
                },
            ),
        }
    } else {
        match part_mpn {
            Some(p) => String::from_str(p),
            None => match from_lib {
                Some(v) => v,
                None => {
                    let id: &str = match symbol_id {
                        Some(id) => id,
                        None => "",
                    };
                    proof {
                        reveal_strlit("");
                        assert(id@ =~= match opt_str(symbol_id) { Some(x) => x, None => Seq::<char>::empty() });
                    }
                    crate::component_value::default_value_for_library_id(id)
                },
            },
        }
    }
}

} // verus!

verus! {

/// A symbol with neither graphics nor pins.
pub open spec fn sym_empty(s: SymbolModel) -> bool {
    s.graphics.len() == 0 && s.pins.len() == 0
}

/// The symbol with the parent's graphics and pins, and the parent's fields
/// when it has none of its own.
pub open spec fn adopt(child: SymbolModel, parent: SymbolModel) -> SymbolModel {
    SymbolModel {
        name: child.name,
        extends: child.extends,
        graphics: parent.graphics,
        pins: parent.pins,
        properties: if child.properties.len() == 0 { parent.properties } else { child.properties },
    }
}

/// The id of the symbol that the entry under `key` inherits from: its
/// `extends` name resolved, else the template of its library resolved.
pub open spec fn parent_key_for(m: LibModel, key: Seq<char>, ext: Seq<char>) -> Option<Seq<char>> {
    match spec_find_symbol_key(m, ext) {
        Some(k) => Some(k),
        None => match spec_fallback_template(key) {
            Some(t) => spec_find_symbol_key(m, t),
            None => None,
        },
    }
}

/// Library after trying to fill entry `i` from its parent; `true` when it
/// was filled.
pub open spec fn extend_one(m: LibModel, i: int) -> (LibModel, bool) {
    let key = m.entries[i].0;
    let sym = m.entries[i].1;
    if !sym_empty(sym) {
        (m, false)
    } else {
        match sym.extends {
            None => (m, false),
            Some(ext) => match parent_key_for(m, key, ext) {
                None => (m, false),
                Some(pk) => match value_of(m.entries, pk) {
                    None => (m, false),
                    Some(parent) => if sym_empty(parent) {
                        (m, false)
                    } else {
                        (LibModel { entries: m.entries.update(i, (key, adopt(sym, parent))), shorts: m.shorts }, true)
                    },
                },
            },
        }
    }
}

/// One pass of `extend_one` over entries `0..n`, and whether any was filled.
pub open spec fn extend_pass_upto(m: LibModel, n: int) -> (LibModel, bool)
    decreases n,
{
    if n <= 0 {
        (m, false)
    } else {
        let (m1, c1) = extend_pass_upto(m, n - 1);
        let (m2, c2) = extend_one(m1, n - 1);
        (m2, c1 || c2)
    }
}

/// Up to `k` passes, stopping after a pass that filled nothing.
pub open spec fn extend_passes(m: LibModel, k: nat) -> LibModel
    decreases k,
{
    if k == 0 {
        m
    } else {
        let (m1, changed) = extend_pass_upto(m, m.entries.len() as int);
        if changed {
            extend_passes(m1, (k - 1) as nat)
        } else {
            m1
        }
    }
}

/// Library after trying to fill entry `i` from its library's template.
pub open spec fn fallback_one(m: LibModel, i: int) -> LibModel {
    let key = m.entries[i].0;
    let sym = m.entries[i].1;
    if !sym_empty(sym) {
        m
    } else {
        match spec_fallback_template(key) {
            None => m,
            Some(t) => match spec_find_symbol_key(m, t) {
                None => m,
                Some(tk) => match value_of(m.entries, tk) {
                    None => m,
                    Some(src) => if sym_empty(src) {
                        m
                    } else {
                        LibModel { entries: m.entries.update(i, (key, adopt(sym, src))), shorts: m.shorts }
                    },
                },
            },
        }
    }
}

/// One template pass over entries `0..n`.
pub open spec fn fallback_upto(m: LibModel, n: int) -> LibModel
    decreases n,
{
    if n <= 0 {
        m
    } else {
        fallback_one(fallback_upto(m, n - 1), n - 1)
    }
}

/// Number of `extends` passes.
pub const EXTENDS_PASSES: usize = 12;

/// The library after `extends` resolution: up to twelve passes in which an
/// empty symbol takes the graphics and pins of its parent, then one pass
/// in which a still-empty symbol takes those of its library's template.
pub open spec fn spec_resolve_extends(m: LibModel) -> LibModel {
    let m1 = extend_passes(m, EXTENDS_PASSES as nat);
    fallback_upto(m1, m1.entries.len() as int)
}

proof fn lemma_update_keys(m: LibModel, i: int, key: Seq<char>, s: SymbolModel)
    requires
        0 <= i < m.entries.len(),
        m.entries[i].0 == key,
    ensures
        keys_of(m.entries.update(i, (key, s))) == keys_of(m.entries),
{
    assert(keys_of(m.entries.update(i, (key, s))) =~= keys_of(m.entries));
}

impl BaseSymbolLibrary {
    /// Whether the stored entry `i` has neither graphics nor pins.
    fn entry_empty(&self, i: usize) -> (r: bool)
        requires
            i < self@.entries.len(),
        ensures
            r == sym_empty(self@.entries[i as int].1),
    {
        proof {
            lemma_entry_keys(self.by_full_name@);
        }
        let s = &self.by_full_name[i].1;
        s.graphics.len() == 0 && s.pins.len() == 0
    }

    /// Fills entry `i` with copies of entry `p`'s graphics and pins (and
    /// fields when it has none).
    fn adopt_from(&mut self, i: usize, p: usize)
        requires
            i < old(self)@.entries.len(),
            p < old(self)@.entries.len(),
            lib_wf(old(self)@),
        ensures
            final(self)@ == (LibModel {
                entries: old(self)@.entries.update(
                    i as int,
                    (old(self)@.entries[i as int].0, adopt(old(self)@.entries[i as int].1, old(self)@.entries[p as int].1)),
                ),
                shorts: old(self)@.shorts,
            }),
            lib_wf(final(self)@),
    {
        proof {
            lemma_entry_keys(self.by_full_name@);
        }
        let graphics = crate::lib_file::clone_graphics(&self.by_full_name[p].1.graphics);
        let pins = crate::lib_file::clone_pins(&self.by_full_name[p].1.pins);
        let props = if self.by_full_name[i].1.properties.len() == 0 {
            Some(crate::lib_file::clone_properties(&self.by_full_name[p].1.properties))
        } else {
            None
        };
        let ghost e0 = self@.entries;
        let (key, old_sym) = self.by_full_name.remove(i);
        let properties = match props {
            Some(ps) => ps,
            None => old_sym.properties,
        };
        let new_sym = Symbol { name: old_sym.name, extends: old_sym.extends, graphics, pins, properties };
        let ghost nv = symbol_view(new_sym);
        self.by_full_name.insert(i, (key, new_sym));
        proof {
            assert(nv == adopt(e0[i as int].1, e0[p as int].1));
            assert(entries_view(self.by_full_name@) =~= e0.update(i as int, (e0[i as int].0, nv)));
            lemma_update_keys(LibModel { entries: e0, shorts: self@.shorts }, i as int, e0[i as int].0, nv);
            assert forall|a: int, b: int| 0 <= a < b < self@.entries.len()
                implies #[trigger] self@.entries[a].0 != #[trigger] self@.entries[b].0 by {
                assert(self@.entries[a].0 == e0[a].0);
                assert(self@.entries[b].0 == e0[b].0);
            }
        }
    }
}

} // verus!

verus! {

impl BaseSymbolLibrary {
    /// One `extends` pass; says whether it filled any symbol.
    fn extend_pass(&mut self) -> (changed: bool)
        requires
            lib_wf(old(self)@),
        ensures
            (final(self)@, changed) == extend_pass_upto(old(self)@, old(self)@.entries.len() as int),
            lib_wf(final(self)@),
    {
        let ghost start = self@;
        proof {
            lemma_entry_keys(self.by_full_name@);
        }
        let n = self.by_full_name.len();
        let mut changed = false;
        let mut i: usize = 0;
        while i < n
            invariant
                n == start.entries.len(),
                i <= n,
                self@.entries.len() == n,
                lib_wf(self@),
                (self@, changed) == extend_pass_upto(start, i as int),
            decreases n - i,
        {
            proof {
                lemma_entry_keys(self.by_full_name@);
            }
            let ghost m = self@;
            if !self.entry_empty(i) {
                i = i + 1;
                continue;
            }
            let ext = match crate::lib_file::clone_opt_string(&self.by_full_name[i].1.extends) {
                Some(e) => e,
                None => {
                    i = i + 1;
                    continue;
                },
            };
            let key = self.by_full_name[i].0.clone();
            assert(key@ == m.entries[i as int].0);
            let pk = match self.find_symbol_key(ext.as_str()) {
                Some(k) => Some(k),
                None => match Self::fallback_template_for_key(key.as_str()) {
                    Some(t) => self.find_symbol_key(t),
                    None => None,
                },
            };
            assert(opt_string(pk) == parent_key_for(m, key@, ext@));
            let pk = match pk {
                Some(k) => k,
                None => {
                    i = i + 1;
                    continue;
                },
            };
            let p = match find_key_index(&self.by_full_name, pk.as_str()) {
                Some(p) => p,
                None => {
                    i = i + 1;
                    continue;
                },
            };
            if self.entry_empty(p) {
                i = i + 1;
                continue;
            }
            self.adopt_from(i, p);
            changed = true;
            i = i + 1;
        }
        changed
    }

    /// The template pass for symbols that are still empty.
    fn fallback_pass(&mut self)
        requires
            lib_wf(old(self)@),
        ensures
            final(self)@ == fallback_upto(old(self)@, old(self)@.entries.len() as int),
            lib_wf(final(self)@),
    {
        let ghost start = self@;
        proof {
            lemma_entry_keys(self.by_full_name@);
        }
        let n = self.by_full_name.len();
        let mut i: usize = 0;
        while i < n
            invariant
                n == start.entries.len(),
                i <= n,
                self@.entries.len() == n,
                lib_wf(self@),
                self@ == fallback_upto(start, i as int),
            decreases n - i,
        {
            proof {
                lemma_entry_keys(self.by_full_name@);
            }
            let ghost m = self@;
            if !self.entry_empty(i) {
                i = i + 1;
                continue;
            }
            let key = self.by_full_name[i].0.clone();
            assert(key@ == m.entries[i as int].0);
            let t = match Self::fallback_template_for_key(key.as_str()) {
                Some(t) => t,
                None => {
                    i = i + 1;
                    continue;
                },
            };
            let tk = match self.find_symbol_key(t) {
                Some(k) => k,
                None => {
                    i = i + 1;
                    continue;
                },
            };
            let p = match find_key_index(&self.by_full_name, tk.as_str()) {
                Some(p) => p,
                None => {
                    i = i + 1;
                    continue;
                },
            };
            if self.entry_empty(p) {
                i = i + 1;
                continue;
            }
            self.adopt_from(i, p);
            i = i + 1;
        }
    }

    /// Fills symbols that have neither graphics nor pins from their
    /// `(extends ...)` parent (up to twelve rounds, for chains), then from
    /// their library's template.
    pub fn resolve_extends(&mut self)
        requires
            lib_wf(old(self)@),
        ensures
            final(self)@ == spec_resolve_extends(old(self)@),
            lib_wf(final(self)@),
    {
        let ghost start = self@;
        let mut pass: usize = 0;
        while pass < EXTENDS_PASSES
            invariant_except_break
                pass <= EXTENDS_PASSES,
                extend_passes(start, EXTENDS_PASSES as nat) == extend_passes(self@, (EXTENDS_PASSES - pass) as nat),
            invariant
                lib_wf(self@),
            ensures
                lib_wf(self@),
                self@ == extend_passes(start, EXTENDS_PASSES as nat),
            decreases EXTENDS_PASSES - pass,
        {
            let ghost before = self@;
            let changed = self.extend_pass();
            if !changed {
                assert(extend_passes(before, (EXTENDS_PASSES - pass) as nat) == self@);
                break;
            }
            pass = pass + 1;
        }
        self.fallback_pass();
    }

    /// Re-runs `extends` resolution after more symbols were loaded.
    pub fn finish_loading(&mut self)
        requires
            lib_wf(old(self)@),
        ensures
            final(self)@ == spec_resolve_extends(old(self)@),
            lib_wf(final(self)@),
    {
        self.resolve_extends();
    }
}

} // verus!

verus! {

// ---------------------------------------------------------------------------
// Laws
// ---------------------------------------------------------------------------

proof fn lemma_extend_one(m: LibModel, i: int)
    requires
        0 <= i < m.entries.len(),
    ensures
        keys_of(extend_one(m, i).0.entries) == keys_of(m.entries),
        extend_one(m, i).0.entries.len() == m.entries.len(),
        extend_one(m, i).0.shorts == m.shorts,
        forall|j: int| 0 <= j < m.entries.len() && !sym_empty(m.entries[j].1)
            ==> #[trigger] extend_one(m, i).0.entries[j] == m.entries[j],
        !extend_one(m, i).1 ==> extend_one(m, i).0 == m,
{
    let r = extend_one(m, i).0;
    if r != m {
        lemma_update_keys(m, i, m.entries[i].0, r.entries[i].1);
    }
}

proof fn lemma_fallback_one(m: LibModel, i: int)
    requires
        0 <= i < m.entries.len(),
    ensures
        keys_of(fallback_one(m, i).entries) == keys_of(m.entries),
        fallback_one(m, i).entries.len() == m.entries.len(),
        fallback_one(m, i).shorts == m.shorts,
        forall|j: int| 0 <= j < m.entries.len() && !sym_empty(m.entries[j].1)
            ==> #[trigger] fallback_one(m, i).entries[j] == m.entries[j],
{
    let r = fallback_one(m, i);
    if r != m {
        lemma_update_keys(m, i, m.entries[i].0, r.entries[i].1);
    }
}

/// What every step of resolution keeps: the ids, the short names, and
/// every symbol that already had graphics or pins.
pub open spec fn keeps_filled(m: LibModel, r: LibModel) -> bool {
    &&& keys_of(r.entries) == keys_of(m.entries)
    &&& r.entries.len() == m.entries.len()
    &&& r.shorts == m.shorts
    &&& forall|j: int| 0 <= j < m.entries.len() && !sym_empty(m.entries[j].1) ==> #[trigger] r.entries[j] == m.entries[j]
}

proof fn lemma_keeps_filled_trans(a: LibModel, b: LibModel, c: LibModel)
    requires
        keeps_filled(a, b),
        keeps_filled(b, c),
    ensures
        keeps_filled(a, c),
{
    assert forall|j: int| 0 <= j < a.entries.len() && !sym_empty(a.entries[j].1) implies #[trigger] c.entries[j] == a.entries[j] by {
        assert(b.entries[j] == a.entries[j]);
    }
}

proof fn lemma_extend_pass_upto(m: LibModel, n: int)
    requires
        0 <= n <= m.entries.len(),
    ensures
        keeps_filled(m, extend_pass_upto(m, n).0),
        !extend_pass_upto(m, n).1 ==> extend_pass_upto(m, n).0 == m,
    decreases n,
{
    if n > 0 {
        lemma_extend_pass_upto(m, n - 1);
        let m1 = extend_pass_upto(m, n - 1).0;
        lemma_extend_one(m1, n - 1);
        assert(keeps_filled(m1, extend_one(m1, n - 1).0));
        lemma_keeps_filled_trans(m, m1, extend_one(m1, n - 1).0);
    }
}

proof fn lemma_extend_passes(m: LibModel, k: nat)
    ensures
        keeps_filled(m, extend_passes(m, k)),
    decreases k,
{
    if k > 0 {
        lemma_extend_pass_upto(m, m.entries.len() as int);
        let (m1, changed) = extend_pass_upto(m, m.entries.len() as int);
        if changed {
            lemma_extend_passes(m1, (k - 1) as nat);
            lemma_keeps_filled_trans(m, m1, extend_passes(m1, (k - 1) as nat));
        }
    }
}

proof fn lemma_fallback_upto(m: LibModel, n: int)
    requires
        0 <= n <= m.entries.len(),
    ensures
        keeps_filled(m, fallback_upto(m, n)),
    decreases n,
{
    if n > 0 {
        lemma_fallback_upto(m, n - 1);
        let m1 = fallback_upto(m, n - 1);
        lemma_fallback_one(m1, n - 1);
        assert(keeps_filled(m1, fallback_one(m1, n - 1)));
        lemma_keeps_filled_trans(m, m1, fallback_one(m1, n - 1));
    }
}

/// `extends` resolution keeps every id and short name, and changes only
/// symbols that had neither graphics nor pins: a symbol drawn by its own
/// file stays exactly as loaded.
pub proof fn law_resolve_keeps_loaded_symbols(m: LibModel)
    ensures
        keys_of(spec_resolve_extends(m).entries) == keys_of(m.entries),
        spec_resolve_extends(m).shorts == m.shorts,
        forall|j: int| 0 <= j < m.entries.len() && !sym_empty(m.entries[j].1)
            ==> #[trigger] spec_resolve_extends(m).entries[j] == m.entries[j],
{
    lemma_extend_passes(m, EXTENDS_PASSES as nat);
    let m1 = extend_passes(m, EXTENDS_PASSES as nat);
    lemma_fallback_upto(m1, m1.entries.len() as int);
    lemma_keeps_filled_trans(m, m1, spec_resolve_extends(m));
}

/// A pass over entries `0..n` leaves the entries from `n` on as they were.
proof fn lemma_pass_leaves_rest(m: LibModel, n: int, j: int)
    requires
        0 <= n <= j < m.entries.len(),
    ensures
        extend_pass_upto(m, n).0.entries[j] == m.entries[j],
    decreases n,
{
    if n > 0 {
        lemma_pass_leaves_rest(m, n - 1, j);
        lemma_extend_pass_upto(m, n - 1);
        let m1 = extend_pass_upto(m, n - 1).0;
        lemma_extend_one(m1, n - 1);
    }
}

/// Once a pass has filled entry `j`, the rest of the pass keeps it filled.
proof fn lemma_pass_keeps_filled_entry(m: LibModel, n: int, j: int)
    requires
        0 <= j < n <= m.entries.len(),
        !sym_empty(extend_pass_upto(m, j + 1).0.entries[j].1),
    ensures
        !sym_empty(extend_pass_upto(m, n).0.entries[j].1),
    decreases n,
{
    if n > j + 1 {
        lemma_pass_keeps_filled_entry(m, n - 1, j);
        lemma_extend_pass_upto(m, n - 1);
        let m1 = extend_pass_upto(m, n - 1).0;
        lemma_extend_one(m1, n - 1);
        assert(extend_one(m1, n - 1).0.entries[j] == m1.entries[j]);
    }
}

/// `extends` resolution fills an empty symbol whose parent (found by its
/// `extends` name, or else its library's template) has graphics or pins.
pub proof fn law_resolve_fills_from_parent(m: LibModel, j: int, ext: Seq<char>, pk: Seq<char>, parent: SymbolModel)
    requires
        0 <= j < m.entries.len(),
        sym_empty(m.entries[j].1),
        m.entries[j].1.extends == Some(ext),
        parent_key_for(m, m.entries[j].0, ext) == Some(pk),
        value_of(m.entries, pk) == Some(parent),
        !sym_empty(parent),
    ensures
        !sym_empty(spec_resolve_extends(m).entries[j].1),
{
    let len = m.entries.len() as int;
    lemma_extend_pass_upto(m, j);
    let ma = extend_pass_upto(m, j).0;
    lemma_pass_leaves_rest(m, j, j);
    assert(ma.entries[j] == m.entries[j]);
    lemma_index_of_key(m.entries, pk);
    let x = index_of_key(m.entries, pk)->0;
    assert(m.entries[x].1 == parent);
    assert(ma.entries[x] == m.entries[x]);
    assert(index_of_key(ma.entries, pk) == index_of_key(m.entries, pk));
    assert(value_of(ma.entries, pk) == Some(parent));
    assert(parent_key_for(ma, ma.entries[j].0, ext) == Some(pk));
    assert(!sym_empty(extend_one(ma, j).0.entries[j].1));
    assert(extend_pass_upto(m, j + 1).0 == extend_one(ma, j).0);
    lemma_pass_keeps_filled_entry(m, len, j);
    let (m1, changed) = extend_pass_upto(m, len);
    assert(!sym_empty(m1.entries[j].1));
    lemma_extend_pass_upto(m, len);
    let m2 = extend_passes(m, EXTENDS_PASSES as nat);
    if changed {
        lemma_extend_passes(m1, (EXTENDS_PASSES - 1) as nat);
        assert(m2 == extend_passes(m1, (EXTENDS_PASSES - 1) as nat));
    }
    assert(keeps_filled(m1, m2));
    assert(m2.entries[j] == m1.entries[j]);
    lemma_fallback_upto(m2, m2.entries.len() as int);
    assert(spec_resolve_extends(m).entries[j] == m2.entries[j]);
}

/// The template pass over entries `0..n` leaves the entries from `n` on.
proof fn lemma_fallback_leaves_rest(m: LibModel, n: int, j: int)
    requires
        0 <= n <= j < m.entries.len(),
    ensures
        fallback_upto(m, n).entries[j] == m.entries[j],
    decreases n,
{
    if n > 0 {
        lemma_fallback_leaves_rest(m, n - 1, j);
        lemma_fallback_upto(m, n - 1);
        lemma_fallback_one(fallback_upto(m, n - 1), n - 1);
    }
}

/// Once the template pass has filled entry `j`, the rest of it keeps it.
proof fn lemma_fallback_keeps_filled_entry(m: LibModel, n: int, j: int)
    requires
        0 <= j < n <= m.entries.len(),
        !sym_empty(fallback_upto(m, j + 1).entries[j].1),
    ensures
        !sym_empty(fallback_upto(m, n).entries[j].1),
    decreases n,
{
    if n > j + 1 {
        lemma_fallback_keeps_filled_entry(m, n - 1, j);
        lemma_fallback_upto(m, n - 1);
        let m1 = fallback_upto(m, n - 1);
        lemma_fallback_one(m1, n - 1);
        assert(fallback_one(m1, n - 1).entries[j] == m1.entries[j]);
    }
}

/// `extends` resolution fills an empty symbol of a library that has a
/// template (op-amps, diodes) when the template symbol has graphics or pins.
pub proof fn law_resolve_fills_from_template(m: LibModel, j: int, t: Seq<char>, tk: Seq<char>, src: SymbolModel)
    requires
        0 <= j < m.entries.len(),
        sym_empty(m.entries[j].1),
        spec_fallback_template(m.entries[j].0) == Some(t),
        spec_find_symbol_key(m, t) == Some(tk),
        value_of(m.entries, tk) == Some(src),
        !sym_empty(src),
    ensures
        !sym_empty(spec_resolve_extends(m).entries[j].1),
{
    lemma_extend_passes(m, EXTENDS_PASSES as nat);
    let m2 = extend_passes(m, EXTENDS_PASSES as nat);
    let len = m2.entries.len() as int;
    lemma_fallback_upto(m2, j);
    let mc = fallback_upto(m2, j);
    lemma_fallback_leaves_rest(m2, j, j);
    lemma_keeps_filled_trans(m, m2, mc);
    lemma_index_of_key(m.entries, tk);
    let x = index_of_key(m.entries, tk)->0;
    assert(m.entries[x].1 == src);
    assert(mc.entries[x] == m.entries[x]);
    assert(index_of_key(mc.entries, tk) == index_of_key(m.entries, tk));
    assert(spec_find_symbol_key(mc, t) == Some(tk));
    assert(keys_of(m2.entries) == keys_of(m.entries));
    assert(m2.entries[j].0 == m.entries[j].0) by {
        assert(keys_of(m2.entries)[j] == keys_of(m.entries)[j]);
    }
    assert(mc.entries[j] == m2.entries[j]);
    assert(!sym_empty(fallback_one(mc, j).entries[j].1));
    assert(fallback_upto(m2, j + 1) == fallback_one(mc, j));
    lemma_fallback_keeps_filled_entry(m2, len, j);
}

/// Storing under a key and then looking the key up gives the stored value.
pub(crate) proof fn lemma_insert_then_value<V>(s: Seq<(Seq<char>, V)>, k: Seq<char>, v: V)
    ensures
        value_of(insert_entry(s, k, v), k) == Some(v),
{
    lemma_index_of_key(s, k);
    let t = insert_entry(s, k, v);
    lemma_index_of_key(t, k);
    match index_of_key(s, k) {
        Some(i) => {
            match index_of_key(t, k) {
                Some(x) => {
                    if x < i {
                        assert(t[x].0 == s[x].0);
                    }
                    if x > i {
                        assert(t[i].0 == k);
                    }
                    assert(x == i);
                    assert(t[i] == (k, v));
                },
                None => {
                    assert(t[i].0 == k);
                },
            }
        },
        None => {
            match index_of_key(t, k) {
                Some(x) => {
                    if x < s.len() {
                        assert(t[x] == s[x]);
                    }
                    assert(x == s.len());
                    assert(t[x] == (k, v));
                },
                None => {
                    assert(t[s.len() as int].0 == k);
                },
            }
        },
    }
}

/// After loading symbols, the last one loaded is found under its full id.
pub proof fn law_load_then_symbol(m: LibModel, syms: Seq<SymbolModel>, prefix: Option<Seq<char>>)
    requires
        syms.len() > 0,
    ensures
        value_of(load_model(m, syms, prefix).entries, full_id(prefix, syms.last().name)) == Some(syms.last()),
{
    let before = load_model(m, syms.drop_last(), prefix);
    lemma_insert_then_value(before.entries, full_id(prefix, syms.last().name), syms.last());
}

proof fn lemma_least_ic_key(keys: Seq<Seq<char>>)
    ensures
        least_ic_key(keys) matches Some(k) ==> is_ic_family_key(k) && keys.contains(k),
    decreases keys.len(),
{
    if keys.len() > 0 {
        lemma_least_ic_key(keys.drop_last());
        if least_ic_key(keys.drop_last()) is Some {
            let r = least_ic_key(keys.drop_last())->0;
            let j = choose|j: int| 0 <= j < keys.drop_last().len() && keys.drop_last()[j] == r;
            assert(keys[j] == r);
        }
        assert(keys[keys.len() - 1] == keys.last());
    }
}

/// A `U` placed by default is an op-amp, MCU or regulator symbol (or
/// `Device:U`) of the library whenever the library holds one.
pub proof fn law_u_prefers_ic_family(m: LibModel)
    requires
        exists|j: int| 0 <= j < m.entries.len() && is_ic_family_key(#[trigger] m.entries[j].0),
    ensures
        spec_default_for_prefix(m, "U"@) matches Some(k) && is_ic_family_key(k) && keys_of(m.entries).contains(k),
{
    let ks = keys_of(m.entries);
    let j = choose|j: int| 0 <= j < m.entries.len() && is_ic_family_key(#[trigger] m.entries[j].0);
    assert(ks[j] == m.entries[j].0);
    lemma_least_ic_key_some(ks, j);
    lemma_least_ic_key(ks);
}

proof fn lemma_least_ic_key_some(keys: Seq<Seq<char>>, j: int)
    requires
        0 <= j < keys.len(),
        is_ic_family_key(keys[j]),
    ensures
        least_ic_key(keys) is Some,
    decreases keys.len(),
{
    if j < keys.len() - 1 {
        assert(keys.drop_last()[j] == keys[j]);
        lemma_least_ic_key_some(keys.drop_last(), j);
    }
}

proof fn lemma_best_mpn_hit(keys: Seq<Seq<char>>, q: Seq<char>)
    ensures
        best_mpn_hit(keys, q) matches Some(k) ==> keys.contains(k) && crate::text::has_infix(crate::text::ascii_lower(k), q),
    decreases keys.len(),
{
    if keys.len() > 0 {
        lemma_best_mpn_hit(keys.drop_last(), q);
        if best_mpn_hit(keys.drop_last(), q) is Some {
            let r = best_mpn_hit(keys.drop_last(), q)->0;
            let j = choose|j: int| 0 <= j < keys.drop_last().len() && keys.drop_last()[j] == r;
            assert(keys[j] == r);
        }
        assert(keys[keys.len() - 1] == keys.last());
    }
}

/// An MPN search finds only stored ids that contain the trimmed,
/// lower-cased query in their lower-cased form.
pub proof fn law_mpn_hit_contains_query(m: LibModel, mpn: Seq<char>)
    ensures
        spec_lookup_by_mpn(m, mpn) matches Some(k) ==> keys_of(m.entries).contains(k)
            && crate::text::has_infix(crate::text::ascii_lower(k), crate::text::ascii_lower(crate::text::trim_ws(mpn))),
{
    lemma_best_mpn_hit(keys_of(m.entries), crate::text::ascii_lower(crate::text::trim_ws(mpn)));
}

/// An MPN search ignores ASCII letter case: the query upper-cased or
/// lower-cased finds the same id as the query itself.
pub proof fn law_mpn_ignores_case(m: LibModel, mpn: Seq<char>)
    ensures
        spec_lookup_by_mpn(m, crate::text::ascii_upper(mpn)) == spec_lookup_by_mpn(m, mpn),
        spec_lookup_by_mpn(m, crate::text::ascii_lower(mpn)) == spec_lookup_by_mpn(m, mpn),
{
    crate::text::lemma_trimmed_lower_ignores_case(mpn);
}

proof fn lemma_best_mpn_non_device(keys: Seq<Seq<char>>, q: Seq<char>, j: int)
    requires
        0 <= j < keys.len(),
        !crate::text::has_prefix(keys[j], "Device:"@),
        crate::text::has_infix(crate::text::ascii_lower(keys[j]), q),
    ensures
        best_mpn_hit(keys, q) matches Some(k) && !crate::text::has_prefix(k, "Device:"@),
    decreases keys.len(),
{
    let rest = best_mpn_hit(keys.drop_last(), q);
    if j < keys.len() - 1 {
        assert(keys.drop_last()[j] == keys[j]);
        lemma_best_mpn_non_device(keys.drop_last(), q, j);
    } else {
        lemma_best_mpn_hit(keys.drop_last(), q);
    }
}

/// An MPN search prefers ids outside the `Device` library: when some id
/// outside it matches, the id found is not a `Device` one.
pub proof fn law_mpn_prefers_non_device(m: LibModel, mpn: Seq<char>, j: int)
    requires
        0 <= j < m.entries.len(),
        !crate::text::has_prefix(m.entries[j].0, "Device:"@),
        crate::text::has_infix(
            crate::text::ascii_lower(m.entries[j].0),
            crate::text::ascii_lower(crate::text::trim_ws(mpn)),
        ),
        vstd::utf8::encode_utf8(crate::text::ascii_lower(crate::text::trim_ws(mpn))).len() >= 2,
    ensures
        spec_lookup_by_mpn(m, mpn) matches Some(k) && !crate::text::has_prefix(k, "Device:"@),
{
    let ks = keys_of(m.entries);
    assert(ks[j] == m.entries[j].0);
    lemma_best_mpn_non_device(ks, crate::text::ascii_lower(crate::text::trim_ws(mpn)), j);
}

} // verus!

verus! {

/// Splitting `lib:short` at its first `:` gives back `lib` and `short`
/// when `lib` holds no `:`.
proof fn lemma_split_id_at(lib: Seq<char>, short: Seq<char>)
    requires
        forall|k: int| 0 <= k < lib.len() ==> lib[k] != ':',
    ensures
        split_id(lib + seq![':'] + short) == (lib, short),
{
    let full = lib + seq![':'] + short;
    crate::text::lemma_first_index_of(full, ':');
    assert(full[lib.len() as int] == ':');
    match first_index_of(full, ':') {
        Some(i) => {
            if i < lib.len() {
                assert(full[i] == lib[i]);
            }
            assert(i == lib.len());
            assert(full.subrange(0, i) =~= lib);
            assert(full.subrange(i + 1, full.len() as int) =~= short);
        },
        None => {},
    }
}

/// The designator prefix of a symbol outside the named libraries, by its
/// own name: `R`, `C` and `L` for those names, `D` for `D`, `D_Schottky`
/// and `D_Zener`, `Q` for `BC547`, `Q_NPN` and `Q_PNP`, `J` for
/// `Conn_01x02` and `Conn_01x04`, and `U` for any other name.
pub open spec fn prefix_by_symbol_name(short: Seq<char>, r: Seq<char>) -> bool {
    &&& short == "R"@ ==> r == "R"@
    &&& short == "C"@ ==> r == "C"@
    &&& short == "L"@ ==> r == "L"@
    &&& (short == "D"@ || short == "D_Schottky"@ || short == "D_Zener"@) ==> r == "D"@
    &&& (short == "BC547"@ || short == "Q_NPN"@ || short == "Q_PNP"@) ==> r == "Q"@
    &&& (short == "Conn_01x02"@ || short == "Conn_01x04"@) ==> r == "J"@
    &&& !(short == "R"@ || short == "C"@ || short == "L"@ || short == "D"@ || short == "D_Schottky"@
        || short == "D_Zener"@ || short == "BC547"@ || short == "Q_NPN"@ || short == "Q_PNP"@
        || short == "Conn_01x02"@ || short == "Conn_01x04"@) ==> r == "U"@
}

/// The names of the libraries and symbols that decide a designator
/// prefix, spelled out.
proof fn lemma_prefix_names()
    ensures
        "Device"@.len() == 6,
        "Device"@[0] == 'D',
        "Connector"@.len() == 9,
        "Connector"@[0] == 'C',
        "Connector_Generic"@.len() == 17,
        "Connector_Generic"@[0] == 'C',
        "Connector_Conn"@.len() == 14,
        "Connector_Conn"@[0] == 'C',
        "Regulator_Linear"@.len() == 16,
        "Regulator_Linear"@[0] == 'R',
        "Regulator_Switching"@.len() == 19,
        "Regulator_Switching"@[0] == 'R',
        "Regulator_Controller"@.len() == 20,
        "Regulator_Controller"@[0] == 'R',
        "Amplifier_Operational"@.len() == 21,
        "Amplifier_Operational"@[0] == 'A',
        "Amplifier_Instrumentation"@.len() == 25,
        "Amplifier_Instrumentation"@[0] == 'A',
        "Amplifier_Current"@.len() == 17,
        "Amplifier_Current"@[0] == 'A',
        "Transistor_BJT"@.len() == 14,
        "Transistor_BJT"@[0] == 'T',
        "Transistor_BJT"@[11] == 'B',
        "Transistor_FET"@.len() == 14,
        "Transistor_FET"@[0] == 'T',
        "Transistor_FET"@[11] == 'F',
        "Transistor_IGBT"@.len() == 15,
        "Transistor_IGBT"@[0] == 'T',
        "Diode"@.len() == 5,
        "Diode"@[0] == 'D',
        "LED"@.len() == 3,
        "LED"@[0] == 'L',
        "Crystal"@.len() == 7,
        "Crystal"@[0] == 'C',
        "Switch"@.len() == 6,
        "Switch"@[0] == 'S',
        "Relay"@.len() == 5,
        "Relay"@[0] == 'R',
        "Transformer"@.len() == 11,
        "Transformer"@[0] == 'T',
        "Battery"@.len() == 7,
        "Battery"@[0] == 'B',
        "MCU"@.len() == 3,
        "MCU"@[0] == 'M',
        "MCU_ST"@.len() == 6,
        "MCU_ST"@[0] == 'M',
        "MCU_ST"@[1] == 'C',
        "MCU_Microchip"@.len() == 13,
        "MCU_Microchip"@[0] == 'M',
        "MCU_Microchip"@[1] == 'C',
        "Memory"@.len() == 6,
        "Memory"@[0] == 'M',
        "Memory"@[1] == 'e',
        "Memory_EEPROM"@.len() == 13,
        "Memory_EEPROM"@[0] == 'M',
        "Memory_EEPROM"@[1] == 'e',
        "Memory_Flash"@.len() == 12,
        "Memory_Flash"@[0] == 'M',
        "R"@.len() == 1,
        "R"@[0] == 'R',
        "C"@.len() == 1,
        "C"@[0] == 'C',
        "L"@.len() == 1,
        "L"@[0] == 'L',
        "D"@.len() == 1,
        "D"@[0] == 'D',
        "D_Schottky"@.len() == 10,
        "D_Schottky"@[0] == 'D',
        "D_Zener"@.len() == 7,
        "D_Zener"@[0] == 'D',
        "BC547"@.len() == 5,
        "BC547"@[0] == 'B',
        "Q_NPN"@.len() == 5,
        "Q_NPN"@[0] == 'Q',
        "Q_NPN"@[2] == 'N',
        "Q_PNP"@.len() == 5,
        "Q_PNP"@[0] == 'Q',
        "Q_PNP"@[2] == 'P',
        "Conn_01x02"@.len() == 10,
        "Conn_01x02"@[0] == 'C',
        "Conn_01x02"@[9] == '2',
        "Conn_01x04"@.len() == 10,
        "Conn_01x04"@[0] == 'C',
        "Conn_01x04"@[9] == '4',
{
    reveal_strlit("Device");
    assert("Device"@.len() == 6 && "Device"@[0] == 'D');
    reveal_strlit("Connector");
    assert("Connector"@.len() == 9 && "Connector"@[0] == 'C');
    reveal_strlit("Connector_Generic");
    assert("Connector_Generic"@.len() == 17 && "Connector_Generic"@[0] == 'C');
    reveal_strlit("Connector_Conn");
    assert("Connector_Conn"@.len() == 14 && "Connector_Conn"@[0] == 'C');
    reveal_strlit("Regulator_Linear");
    assert("Regulator_Linear"@.len() == 16 && "Regulator_Linear"@[0] == 'R');
    reveal_strlit("Regulator_Switching");
    assert("Regulator_Switching"@.len() == 19 && "Regulator_Switching"@[0] == 'R');
    reveal_strlit("Regulator_Controller");
    assert("Regulator_Controller"@.len() == 20 && "Regulator_Controller"@[0] == 'R');
    reveal_strlit("Amplifier_Operational");
    assert("Amplifier_Operational"@.len() == 21 && "Amplifier_Operational"@[0] == 'A');
    reveal_strlit("Amplifier_Instrumentation");
    assert("Amplifier_Instrumentation"@.len() == 25 && "Amplifier_Instrumentation"@[0] == 'A');
    reveal_strlit("Amplifier_Current");
    assert("Amplifier_Current"@.len() == 17 && "Amplifier_Current"@[0] == 'A');
    reveal_strlit("Transistor_BJT");
    assert("Transistor_BJT"@.len() == 14 && "Transistor_BJT"@[0] == 'T' && "Transistor_BJT"@[11] == 'B');
    reveal_strlit("Transistor_FET");
    assert("Transistor_FET"@.len() == 14 && "Transistor_FET"@[0] == 'T' && "Transistor_FET"@[11] == 'F');
    reveal_strlit("Transistor_IGBT");
    assert("Transistor_IGBT"@.len() == 15 && "Transistor_IGBT"@[0] == 'T');
    reveal_strlit("Diode");
    assert("Diode"@.len() == 5 && "Diode"@[0] == 'D');
    reveal_strlit("LED");
    assert("LED"@.len() == 3 && "LED"@[0] == 'L');
    reveal_strlit("Crystal");
    assert("Crystal"@.len() == 7 && "Crystal"@[0] == 'C');
    reveal_strlit("Switch");
    assert("Switch"@.len() == 6 && "Switch"@[0] == 'S');
    reveal_strlit("Relay");
    assert("Relay"@.len() == 5 && "Relay"@[0] == 'R');
    reveal_strlit("Transformer");
    assert("Transformer"@.len() == 11 && "Transformer"@[0] == 'T');
    reveal_strlit("Battery");
    assert("Battery"@.len() == 7 && "Battery"@[0] == 'B');
    reveal_strlit("MCU");
    assert("MCU"@.len() == 3 && "MCU"@[0] == 'M');
    reveal_strlit("MCU_ST");
    assert("MCU_ST"@.len() == 6 && "MCU_ST"@[0] == 'M' && "MCU_ST"@[1] == 'C');
    reveal_strlit("MCU_Microchip");
    assert("MCU_Microchip"@.len() == 13 && "MCU_Microchip"@[0] == 'M' && "MCU_Microchip"@[1] == 'C');
    reveal_strlit("Memory");
    assert("Memory"@.len() == 6 && "Memory"@[0] == 'M' && "Memory"@[1] == 'e');
    reveal_strlit("Memory_EEPROM");
    assert("Memory_EEPROM"@.len() == 13 && "Memory_EEPROM"@[0] == 'M' && "Memory_EEPROM"@[1] == 'e');
    reveal_strlit("Memory_Flash");
    assert("Memory_Flash"@.len() == 12 && "Memory_Flash"@[0] == 'M');
    reveal_strlit("R");
    assert("R"@.len() == 1 && "R"@[0] == 'R');
    reveal_strlit("C");
    assert("C"@.len() == 1 && "C"@[0] == 'C');
    reveal_strlit("L");
    assert("L"@.len() == 1 && "L"@[0] == 'L');
    reveal_strlit("D");
    assert("D"@.len() == 1 && "D"@[0] == 'D');
    reveal_strlit("D_Schottky");
    assert("D_Schottky"@.len() == 10 && "D_Schottky"@[0] == 'D');
    reveal_strlit("D_Zener");
    assert("D_Zener"@.len() == 7 && "D_Zener"@[0] == 'D');
    reveal_strlit("BC547");
    assert("BC547"@.len() == 5 && "BC547"@[0] == 'B');
    reveal_strlit("Q_NPN");
    assert("Q_NPN"@.len() == 5 && "Q_NPN"@[0] == 'Q' && "Q_NPN"@[2] == 'N');
    reveal_strlit("Q_PNP");
    assert("Q_PNP"@.len() == 5 && "Q_PNP"@[0] == 'Q' && "Q_PNP"@[2] == 'P');
    reveal_strlit("Conn_01x02");
    assert("Conn_01x02"@.len() == 10 && "Conn_01x02"@[0] == 'C' && "Conn_01x02"@[9] == '2');
    reveal_strlit("Conn_01x04");
    assert("Conn_01x04"@.len() == 10 && "Conn_01x04"@[0] == 'C' && "Conn_01x04"@[9] == '4');
}

/// The designator prefix of `lib:short` follows the library: in `Device`
/// the first letter of the symbol name (`R`, `C`, `L`, `D`, `Q`, `J`; `U`
/// for any other); connectors are `J`; regulators, amplifiers, MCUs and
/// memories `U`; transistors `Q`; diodes and LEDs `D`; crystals `Y`;
/// switches `S`; relays `K`; transformers `T`; batteries `BT`; in any
/// other library the symbol name decides.
pub proof fn law_refdes_prefix_by_library(lib: Seq<char>, short: Seq<char>)
    requires
        forall|k: int| 0 <= k < lib.len() ==> lib[k] != ':',
    ensures
        ({
            let r = spec_refdes_prefix(lib + seq![':'] + short);
            let c = if short.len() > 0 { short[0] } else { ' ' };
            &&& lib == "Device"@ ==> {
                &&& c == 'R' ==> r == "R"@
                &&& c == 'C' ==> r == "C"@
                &&& c == 'L' ==> r == "L"@
                &&& c == 'D' ==> r == "D"@
                &&& c == 'Q' ==> r == "Q"@
                &&& c == 'J' ==> r == "J"@
                &&& (short.len() == 0 || !(c == 'R' || c == 'C' || c == 'L' || c == 'D' || c == 'Q'
                    || c == 'J')) ==> r == "U"@
            }
            &&& (lib == "Connector"@ || lib == "Connector_Generic"@ || lib == "Connector_Conn"@) ==> r == "J"@
            &&& (lib == "Regulator_Linear"@ || lib == "Regulator_Switching"@ || lib == "Regulator_Controller"@)
                ==> r == "U"@
            &&& (lib == "Amplifier_Operational"@ || lib == "Amplifier_Instrumentation"@
                || lib == "Amplifier_Current"@) ==> r == "U"@
            &&& (lib == "Transistor_BJT"@ || lib == "Transistor_FET"@ || lib == "Transistor_IGBT"@) ==> r == "Q"@
            &&& (lib == "Diode"@ || lib == "LED"@) ==> r == "D"@
            &&& lib == "Crystal"@ ==> r == "Y"@
            &&& lib == "Switch"@ ==> r == "S"@
            &&& lib == "Relay"@ ==> r == "K"@
            &&& lib == "Transformer"@ ==> r == "T"@
            &&& lib == "Battery"@ ==> r == "BT"@
            &&& (lib == "MCU"@ || lib == "MCU_ST"@ || lib == "MCU_Microchip"@) ==> r == "U"@
            &&& (lib == "Memory"@ || lib == "Memory_EEPROM"@ || lib == "Memory_Flash"@) ==> r == "U"@
            &&& !(lib == "Device"@ || lib == "Connector"@ || lib == "Connector_Generic"@ || lib == "Connector_Conn"@
                || lib == "Regulator_Linear"@ || lib == "Regulator_Switching"@ || lib == "Regulator_Controller"@
                || lib == "Amplifier_Operational"@ || lib == "Amplifier_Instrumentation"@
                || lib == "Amplifier_Current"@ || lib == "Transistor_BJT"@ || lib == "Transistor_FET"@
                || lib == "Transistor_IGBT"@ || lib == "Diode"@ || lib == "LED"@ || lib == "Crystal"@
                || lib == "Switch"@ || lib == "Relay"@ || lib == "Transformer"@ || lib == "Battery"@
                || lib == "MCU"@ || lib == "MCU_ST"@ || lib == "MCU_Microchip"@ || lib == "Memory"@
                || lib == "Memory_EEPROM"@ || lib == "Memory_Flash"@) ==> prefix_by_symbol_name(short, r)
        }),
{
    lemma_split_id_at(lib, short);
    lemma_prefix_names();
}

/// An id without `:` is a bare symbol name, and that name decides its
/// designator prefix as in a library outside the named ones.
pub proof fn law_refdes_prefix_bare_name(full: Seq<char>)
    requires
        forall|k: int| 0 <= k < full.len() ==> full[k] != ':',
    ensures
        prefix_by_symbol_name(full, spec_refdes_prefix(full)),
{
    crate::text::lemma_first_index_of(full, ':');
    assert(split_id(full) == (Seq::<char>::empty(), full));
    lemma_prefix_names();
}

} // verus!

verus! {

/// `c` itself when the library stores it under that id; else the id its
/// short name stands for, when it is one; else `otherwise`.
pub open spec fn stored_or_short(m: LibModel, c: Seq<char>, otherwise: Option<Seq<char>>) -> Option<Seq<char>> {
    if index_of_key(m.entries, c) is Some {
        Some(c)
    } else if value_of(m.shorts, c) is Some {
        value_of(m.shorts, c)
    } else {
        otherwise
    }
}

proof fn lemma_resolve_cons(m: LibModel, a: Seq<char>, rest: Seq<Seq<char>>)
    ensures
        resolve_candidates(m, seq![a] + rest) == stored_or_short(m, a, resolve_candidates(m, rest)),
{
    let s = seq![a] + rest;
    assert(s[0] == a);
    assert(s.subrange(1, s.len() as int) =~= rest);
}

proof fn lemma_resolve3(m: LibModel, a: Seq<char>, b: Seq<char>, c: Seq<char>)
    ensures
        resolve_candidates(m, seq![a, b, c])
            == stored_or_short(m, a, stored_or_short(m, b, stored_or_short(m, c, None))),
{
    assert(seq![a, b, c] =~= seq![a] + seq![b, c]);
    assert(seq![b, c] =~= seq![b] + seq![c]);
    assert(seq![c] =~= seq![c] + Seq::<Seq<char>>::empty());
    lemma_resolve_cons(m, a, seq![b, c]);
    lemma_resolve_cons(m, b, seq![c]);
    lemma_resolve_cons(m, c, Seq::empty());
}

/// The symbol a designator prefix places, when no IC-family symbol decides
/// a `U`: the first of the prefix's usual symbols that the library holds,
/// by full id or by short name. `R`, `C` and `L` try `Device:R` then `R`
/// (and so on); `D` tries `Device:D`, `D`, `Device:D_Schottky`; `Q` tries
/// `Transistor_BJT:BC547`, `BC547`, `Device:Q_NPN`; `J` tries
/// `Connector:Conn_01x02`, `Conn_01x02`, `Connector:Conn_01x04`; `U` tries
/// `Amplifier_Operational:LM358`, `LM358`, `Device:U`, `U`; any other
/// prefix tries `Device:U`, `U`, `Conn_01x04`.
pub proof fn law_default_for_prefix_order(m: LibModel, other: Seq<char>)
    ensures
        spec_default_for_prefix(m, "R"@) == stored_or_short(m, "Device:R"@, stored_or_short(m, "R"@, None)),
        spec_default_for_prefix(m, "C"@) == stored_or_short(m, "Device:C"@, stored_or_short(m, "C"@, None)),
        spec_default_for_prefix(m, "L"@) == stored_or_short(m, "Device:L"@, stored_or_short(m, "L"@, None)),
        spec_default_for_prefix(m, "D"@) == stored_or_short(
            m,
            "Device:D"@,
            stored_or_short(m, "D"@, stored_or_short(m, "Device:D_Schottky"@, None)),
        ),
        spec_default_for_prefix(m, "Q"@) == stored_or_short(
            m,
            "Transistor_BJT:BC547"@,
            stored_or_short(m, "BC547"@, stored_or_short(m, "Device:Q_NPN"@, None)),
        ),
        spec_default_for_prefix(m, "J"@) == stored_or_short(
            m,
            "Connector:Conn_01x02"@,
            stored_or_short(m, "Conn_01x02"@, stored_or_short(m, "Connector:Conn_01x04"@, None)),
        ),
        least_ic_key(keys_of(m.entries)) is None ==> spec_default_for_prefix(m, "U"@) == stored_or_short(
            m,
            "Amplifier_Operational:LM358"@,
            stored_or_short(m, "LM358"@, stored_or_short(m, "Device:U"@, stored_or_short(m, "U"@, None))),
        ),
        !(other == "R"@ || other == "C"@ || other == "L"@ || other == "D"@ || other == "Q"@ || other == "J"@
            || other == "U"@) ==> spec_default_for_prefix(m, other) == stored_or_short(
            m,
            "Device:U"@,
            stored_or_short(m, "U"@, stored_or_short(m, "Conn_01x04"@, None)),
        ),
        index_of_key(m.entries, "Device:D"@) is Some ==> spec_default_for_prefix(m, "D"@) == Some("Device:D"@),
{
    reveal_strlit("R");
    reveal_strlit("C");
    reveal_strlit("L");
    reveal_strlit("D");
    reveal_strlit("Q");
    reveal_strlit("J");
    reveal_strlit("U");
    assert(seq!["Device:R"@, "R"@] =~= seq!["Device:R"@] + seq!["R"@]);
    assert(seq!["Device:C"@, "C"@] =~= seq!["Device:C"@] + seq!["C"@]);
    assert(seq!["Device:L"@, "L"@] =~= seq!["Device:L"@] + seq!["L"@]);
    lemma_resolve_cons(m, "Device:R"@, seq!["R"@]);
    lemma_resolve_cons(m, "Device:C"@, seq!["C"@]);
    lemma_resolve_cons(m, "Device:L"@, seq!["L"@]);
    assert(seq!["R"@] =~= seq!["R"@] + Seq::<Seq<char>>::empty());
    assert(seq!["C"@] =~= seq!["C"@] + Seq::<Seq<char>>::empty());
    assert(seq!["L"@] =~= seq!["L"@] + Seq::<Seq<char>>::empty());
    lemma_resolve_cons(m, "R"@, Seq::empty());
    lemma_resolve_cons(m, "C"@, Seq::empty());
    lemma_resolve_cons(m, "L"@, Seq::empty());
    assert(resolve_candidates(m, Seq::<Seq<char>>::empty()) == None::<Seq<char>>);
    assert("R"@[0] == 'R' && "C"@[0] == 'C' && "L"@[0] == 'L' && "D"@[0] == 'D' && "Q"@[0] == 'Q'
        && "J"@[0] == 'J' && "U"@[0] == 'U');
    assert("R"@ != "U"@ && "C"@ != "U"@ && "L"@ != "U"@);
    assert(candidates_for_prefix("R"@) == seq!["Device:R"@, "R"@]);
    assert(candidates_for_prefix("C"@) == seq!["Device:C"@, "C"@]);
    lemma_resolve3(m, "Device:D"@, "D"@, "Device:D_Schottky"@);
    lemma_resolve3(m, "Transistor_BJT:BC547"@, "BC547"@, "Device:Q_NPN"@);
    lemma_resolve3(m, "Connector:Conn_01x02"@, "Conn_01x02"@, "Connector:Conn_01x04"@);
    lemma_resolve3(m, "Device:U"@, "U"@, "Conn_01x04"@);
    let u4 = seq!["Amplifier_Operational:LM358"@, "LM358"@, "Device:U"@, "U"@];
    assert(u4 =~= seq!["Amplifier_Operational:LM358"@] + seq!["LM358"@, "Device:U"@, "U"@]);
    lemma_resolve_cons(m, "Amplifier_Operational:LM358"@, seq!["LM358"@, "Device:U"@, "U"@]);
    lemma_resolve3(m, "LM358"@, "Device:U"@, "U"@);
}

} // verus!

verus! {

proof fn lemma_resolve2(m: LibModel, a: Seq<char>, b: Seq<char>)
    ensures
        resolve_candidates(m, seq![a, b]) == stored_or_short(m, a, stored_or_short(m, b, None)),
{
    assert(seq![a, b] =~= seq![a] + seq![b]);
    assert(seq![b] =~= seq![b] + Seq::<Seq<char>>::empty());
    lemma_resolve_cons(m, a, seq![b]);
    lemma_resolve_cons(m, b, Seq::empty());
}

/// The symbol drawn for a component family: the first of the family's
/// usual symbols that the library holds, by full id or by short name.
/// Resistors try `Device:R`, `R`; capacitors `Device:C`, `C`; inductors
/// `Device:L`, `L`; diodes `Device:D`, `D`, `Device:D_Schottky`,
/// `D_Schottky`; transistors `Transistor_BJT:BC547`, `BC547`; ICs
/// `Device:U`, `U`, `Amplifier_Operational:LM358`; the generic body
/// `Device:Generic`, `Generic`.
pub proof fn law_kind_symbol_order(m: LibModel)
    ensures
        resolve_candidates(m, candidates_for_kind(crate::symbol_kind::CompKind::Resistor))
            == stored_or_short(m, "Device:R"@, stored_or_short(m, "R"@, None)),
        resolve_candidates(m, candidates_for_kind(crate::symbol_kind::CompKind::Capacitor))
            == stored_or_short(m, "Device:C"@, stored_or_short(m, "C"@, None)),
        resolve_candidates(m, candidates_for_kind(crate::symbol_kind::CompKind::Inductor))
            == stored_or_short(m, "Device:L"@, stored_or_short(m, "L"@, None)),
        resolve_candidates(m, candidates_for_kind(crate::symbol_kind::CompKind::Diode)) == stored_or_short(
            m,
            "Device:D"@,
            stored_or_short(m, "D"@, stored_or_short(m, "Device:D_Schottky"@, stored_or_short(m, "D_Schottky"@, None))),
        ),
        resolve_candidates(m, candidates_for_kind(crate::symbol_kind::CompKind::Transistor))
            == stored_or_short(m, "Transistor_BJT:BC547"@, stored_or_short(m, "BC547"@, None)),
        resolve_candidates(m, candidates_for_kind(crate::symbol_kind::CompKind::IC)) == stored_or_short(
            m,
            "Device:U"@,
            stored_or_short(m, "U"@, stored_or_short(m, "Amplifier_Operational:LM358"@, None)),
        ),
        resolve_candidates(m, candidates_for_kind(crate::symbol_kind::CompKind::Generic))
            == stored_or_short(m, "Device:Generic"@, stored_or_short(m, "Generic"@, None)),
{
    lemma_resolve2(m, "Device:R"@, "R"@);
    lemma_resolve2(m, "Device:C"@, "C"@);
    lemma_resolve2(m, "Device:L"@, "L"@);
    lemma_resolve2(m, "Transistor_BJT:BC547"@, "BC547"@);
    lemma_resolve2(m, "Device:Generic"@, "Generic"@);
    lemma_resolve3(m, "Device:U"@, "U"@, "Amplifier_Operational:LM358"@);
    let d4 = seq!["Device:D"@, "D"@, "Device:D_Schottky"@, "D_Schottky"@];
    assert(d4 =~= seq!["Device:D"@] + seq!["D"@, "Device:D_Schottky"@, "D_Schottky"@]);
    lemma_resolve_cons(m, "Device:D"@, seq!["D"@, "Device:D_Schottky"@, "D_Schottky"@]);
    lemma_resolve3(m, "D"@, "Device:D_Schottky"@, "D_Schottky"@);
}

/// An empty symbol of an operational or instrumentation amplifier library
/// borrows its body from `Interface:MCP6002`, one of the `Diode` library
/// from `Device:D`; symbols of other libraries have no template.
pub proof fn law_fallback_template_by_library(lib: Seq<char>, short: Seq<char>)
    requires
        forall|k: int| 0 <= k < lib.len() ==> lib[k] != ':',
    ensures
        ({
            let t = spec_fallback_template(lib + seq![':'] + short);
            &&& (lib == "Amplifier_Operational"@ || lib == "Amplifier_Instrumentation"@) ==> t == Some(
                "Interface:MCP6002"@,
            )
            &&& lib == "Diode"@ ==> t == Some("Device:D"@)
            &&& !(lib == "Amplifier_Operational"@ || lib == "Amplifier_Instrumentation"@ || lib == "Diode"@)
                ==> t is None
        }),
{
    lemma_split_id_at(lib, short);
    lemma_prefix_names();
    let full = lib + seq![':'] + short;
    crate::text::lemma_first_index_of(full, ':');
    assert(before_first(full, ':') == split_id(full).0);
}

} // verus!
