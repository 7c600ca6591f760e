//! The optional KiCad symbol library (`.kicad_sym`): symbols kept by full
//! name and by short name, used to pick the drawing for a component family.

use vstd::prelude::*;
use vstd::string::StringExecFns;

use crate::base_library::{
    find_key_index, index_of_key, insert_entry, insert_short, keys_distinct, keys_of, lemma_insert_entry_distinct,
    lemma_insert_short_distinct, stored_keys, strs_view, value_of,
};
use crate::text::{after_last, opt_string};
use kiutils_kicad::Symbol as KicadSymbol;

verus! {

/// A path on disk, carried as given.
#[verifier::external_type_specification]
#[verifier::external_body]
pub struct ExPathBuf(std::path::PathBuf);

/// A symbol of a KiCad library file as the KiCad reader returns it; it is
/// only carried and handed back for drawing.
#[verifier::external_type_specification]
#[verifier::external_body]
pub struct ExKicadSymbol(KicadSymbol);

/// Mathematical value of the KiCad library: `(full name, symbol)` entries
/// and `(short name, full name)` entries, each in insertion order.
pub struct KicadModel {
    pub entries: Seq<(Seq<char>, KicadSymbol)>,
    pub shorts: Seq<(Seq<char>, Seq<char>)>,
}

/// The name after the last `:` of a full name (the whole name if it has none).
pub open spec fn spec_short_name(full: Seq<char>) -> Seq<char> {
    after_last(full, ':')
}

/// The library after reading symbols in file order: symbols without a name
/// are skipped; a later symbol of the same name replaces the earlier one;
/// a short name keeps the first full name it was given.
pub open spec fn kicad_load(syms: Seq<(Option<Seq<char>>, KicadSymbol)>) -> KicadModel
    decreases syms.len(),
{
    if syms.len() == 0 {
        KicadModel { entries: Seq::empty(), shorts: Seq::empty() }
    } else {
        let before = kicad_load(syms.drop_last());
        match syms.last().0 {
            Some(name) => KicadModel {
                entries: insert_entry(before.entries, name, syms.last().1),
                shorts: insert_short(before.shorts, spec_short_name(name), name),
            },
            None => before,
        }
    }
}

/// Well-formed KiCad library: no full name and no short name twice.
pub open spec fn kicad_wf(m: KicadModel) -> bool {
    keys_distinct(m.entries) && keys_distinct(m.shorts)
}

/// The first candidate the library knows: as a full name, or as a short
/// name (giving the full name it stands for).
pub open spec fn kicad_resolve(m: KicadModel, cands: Seq<Seq<char>>) -> Option<Seq<char>>
    decreases cands.len(),
{
    if cands.len() == 0 {
        None
    } else if index_of_key(m.entries, cands[0]) is Some {
        Some(cands[0])
    } else {
        match value_of(m.shorts, cands[0]) {
            Some(full) => Some(full),
            None => kicad_resolve(m, cands.subrange(1, cands.len() as int)),
        }
    }
}

/// KiCad library names tried, in order, for a component family.
pub open spec fn kicad_candidates_for_kind(kind: crate::symbol_kind::CompKind) -> Seq<Seq<char>> {
    match kind {
        crate::symbol_kind::CompKind::Resistor => seq!["Device:R"@, "R"@],
        crate::symbol_kind::CompKind::Capacitor => seq!["Device:C"@, "C"@],
        crate::symbol_kind::CompKind::Inductor => seq!["Device:L"@, "L"@],
        crate::symbol_kind::CompKind::Diode => seq!["Device:D"@, "D"@, "Device:D_Schottky"@, "D_Schottky"@],
        crate::symbol_kind::CompKind::Transistor => seq![
            "Device:Q_NPN_EBC"@,
            "Q_NPN_EBC"@,
            "Device:Q_NPN_BCE"@,
            "Q_NPN_BCE"@,
            "Device:Q_PNP_EBC"@,
            "Q_PNP_EBC"@,
        ],
        crate::symbol_kind::CompKind::IC => seq!["Device:U"@, "U"@],
        crate::symbol_kind::CompKind::Generic => seq!["Device:Generic"@, "Generic"@],
    }
}

/// The short name of a full `Lib:Name` name: the part after the last `:`.
pub fn short_name(full: &str) -> (r: &str)
    ensures
        r@ == spec_short_name(full@),
{
    crate::text::after_last_char(full, ':')
}

/// A KiCad symbol library read from one file.
///
/// The symbols are kept by full name and the full names by short name, in
/// vectors of `(key, value)` pairs in insertion order with no key twice
/// (`kicad_wf`): vstd's `HashMap` specification proves nothing about
/// `String` keys, so a map could not carry these contracts.
pub struct KicadSymbolLibrary {
    pub path: std::path::PathBuf,
    by_full_name: Vec<(String, KicadSymbol)>,
    by_short_name: Vec<(String, String)>,
}

/// The `(full name, symbol)` entries as values.
pub open spec fn kentries_view(v: Seq<(String, KicadSymbol)>) -> Seq<(Seq<char>, KicadSymbol)> {
    v.map_values(|e: (String, KicadSymbol)| (e.0@, e.1))
}

/// The `(short name, full name)` entries as values.
pub open spec fn kshorts_view(v: Seq<(String, String)>) -> Seq<(Seq<char>, Seq<char>)> {
    v.map_values(|e: (String, String)| (e.0@, e.1@))
}

/// The names and symbols handed to the library, as values.
pub open spec fn named_view(v: Seq<(Option<String>, KicadSymbol)>) -> Seq<(Option<Seq<char>>, KicadSymbol)> {
    v.map_values(|e: (Option<String>, KicadSymbol)| (opt_string(e.0), e.1))
}

impl View for KicadSymbolLibrary {
    type V = KicadModel;

    closed spec fn view(&self) -> KicadModel {
        KicadModel { entries: kentries_view(self.by_full_name@), shorts: kshorts_view(self.by_short_name@) }
    }
}

proof fn lemma_kentry_keys(v: Seq<(String, KicadSymbol)>)
    ensures
        keys_of(kentries_view(v)) == stored_keys(v),
        kentries_view(v).len() == v.len(),
{
    assert(keys_of(kentries_view(v)) =~= stored_keys(v));
}

proof fn lemma_kshort_keys(v: Seq<(String, String)>)
    ensures
        keys_of(kshorts_view(v)) == stored_keys(v),
        kshorts_view(v).len() == v.len(),
{
    assert(keys_of(kshorts_view(v)) =~= stored_keys(v));
}

impl KicadSymbolLibrary {
    /// The path the library was read from.
    pub closed spec fn path_of(&self) -> std::path::PathBuf {
        self.path
    }

    /// Builds the library from the symbols of a file, in file order, each
    /// with its name as the reader gave it.
    pub fn from_symbols(path: std::path::PathBuf, symbols: Vec<(Option<String>, KicadSymbol)>) -> (lib: Self)
        ensures
            lib@ == kicad_load(named_view(symbols@)),
            kicad_wf(lib@),
            lib.path_of() == path,
    {
        let ghost all = named_view(symbols@);
        let mut lib = KicadSymbolLibrary { path, by_full_name: Vec::new(), by_short_name: Vec::new() };
        proof {
            assert(kentries_view(lib.by_full_name@) =~= Seq::<(Seq<char>, KicadSymbol)>::empty());
            assert(kshorts_view(lib.by_short_name@) =~= Seq::<(Seq<char>, Seq<char>)>::empty());
            assert(all.subrange(0, 0) =~= Seq::<(Option<Seq<char>>, KicadSymbol)>::empty());
        }
        let mut rest = symbols;
        let ghost src = rest@;
        let n = rest.len();
        let mut i: usize = 0;
        while i < n
            invariant
                n == src.len(),
                i <= n,
                all == named_view(src),
                rest@ == src.subrange(i as int, n as int),
                kicad_wf(lib@),
                lib@ == kicad_load(all.subrange(0, i as int)),
                lib.path_of() == path,
            decreases n - i,
        {
            let (name, s) = rest.remove(0);
            proof {
                assert((name, s) == src[i as int]);
                assert(all[i as int] == (opt_string(name), s));
                assert(all.subrange(0, i + 1).drop_last() =~= all.subrange(0, i as int));
                assert(all.subrange(0, i + 1).last() == all[i as int]);
                lemma_kentry_keys(lib.by_full_name@);
                lemma_kshort_keys(lib.by_short_name@);
            }
            match name {
                Some(full) => {
                    let ghost fullv = full@;
                    let ghost e0 = lib@.entries;
                    let ghost s0 = lib@.shorts;
                    let short = short_name(full.as_str());
                    match find_key_index(&lib.by_short_name, short) {
                        Some(_) => {},
                        None => {
                            let sc = String::from_str(short);
                            let fc = full.clone();
                            lib.by_short_name.push((sc, fc));
                            proof {
                                assert(kshorts_view(lib.by_short_name@) =~= s0.push((spec_short_name(fullv), fullv)));
                            }
                        },
                    }
                    match find_key_index(&lib.by_full_name, full.as_str()) {
                        Some(j) => {
                            lib.by_full_name.set(j, (full, s));
                            proof {
                                assert(kentries_view(lib.by_full_name@) =~= e0.update(j as int, (fullv, s)));
                            }
                        },
                        None => {
                            lib.by_full_name.push((full, s));
                            proof {
                                assert(kentries_view(lib.by_full_name@) =~= e0.push((fullv, s)));
                            }
                        },
                    }
                    proof {
                        lemma_insert_entry_distinct(e0, fullv, s);
                        lemma_insert_short_distinct(s0, spec_short_name(fullv), fullv);
                    }
                },
                None => {},
            }
            i = i + 1;
        }
        proof {
            assert(all.subrange(0, n as int) =~= all);
        }
        lib
    }

    /// Whether a symbol is stored under this full name.
    pub fn contains(&self, full_name: &str) -> (r: bool)
        ensures
            r == (index_of_key(self@.entries, full_name@) is Some),
    {
        proof {
            lemma_kentry_keys(self.by_full_name@);
        }
        find_key_index(&self.by_full_name, full_name).is_some()
    }

    /// The symbol stored under this full name.
    pub fn symbol(&self, full_name: &str) -> (r: Option<&KicadSymbol>)
        ensures
            match r {
                Some(s) => value_of(self@.entries, full_name@) == Some(*s),
                None => value_of(self@.entries, full_name@) is None,
            },
    {
        proof {
            lemma_kentry_keys(self.by_full_name@);
        }
        match find_key_index(&self.by_full_name, full_name) {
            Some(i) => Some(&self.by_full_name[i].1),
            None => None,
        }
    }

    /// The first of the candidate names that the library can resolve.
    fn first_candidate(&self, cands: &[&str]) -> (r: Option<String>)
        ensures
            opt_string(r) == kicad_resolve(self@, strs_view(cands@)),
    {
        let ghost cs = strs_view(cands@);
        let mut i: usize = 0;
        assert(cs.subrange(0, cs.len() as int) =~= cs);
        while i < cands.len()
            invariant
                cs == strs_view(cands@),
                cs.len() == cands@.len(),
                i <= cs.len(),
                kicad_resolve(self@, cs) == kicad_resolve(self@, cs.subrange(i as int, cs.len() as int)),
            decreases cs.len() - i,
        {
            proof {
                assert(cs.subrange(i as int, cs.len() as int)[0] == cs[i as int]);
                assert(cs.subrange(i as int, cs.len() as int).subrange(1, cs.len() - i) =~= cs.subrange(i + 1, cs.len() as int));
                lemma_kshort_keys(self.by_short_name@);
            }
            let c = cands[i];
            if self.contains(c) {
                return Some(String::from_str(c));
            }
            match find_key_index(&self.by_short_name, c) {
                Some(j) => {
                    return Some(self.by_short_name[j].1.clone());
                },
                None => {},
            }
            i = i + 1;
        }
        None
    }

    /// The library symbol drawn for a component family: the first of the
    /// family's usual KiCad names that the library knows, by full name or
    /// by short name.
    pub fn resolve_symbol_name_for_kind(&self, kind: crate::symbol_kind::CompKind) -> (r: Option<String>)
        ensures
            opt_string(r) == kicad_resolve(self@, kicad_candidates_for_kind(kind)),
    {
        match kind {
            crate::symbol_kind::CompKind::Resistor => {
                let c: [&str; 2] = ["Device:R", "R"];
                assert(strs_view(c@) =~= kicad_candidates_for_kind(kind));
                self.first_candidate(&c)
            },
            crate::symbol_kind::CompKind::Capacitor => {
                let c: [&str; 2] = ["Device:C", "C"];
                assert(strs_view(c@) =~= kicad_candidates_for_kind(kind));
                self.first_candidate(&c)
            },
            crate::symbol_kind::CompKind::Inductor => {
                let c: [&str; 2] = ["Device:L", "L"];
                assert(strs_view(c@) =~= kicad_candidates_for_kind(kind));
                self.first_candidate(&c)
            },
            crate::symbol_kind::CompKind::Diode => {
                let c: [&str; 4] = ["Device:D", "D", "Device:D_Schottky", "D_Schottky"];
                assert(strs_view(c@) =~= kicad_candidates_for_kind(kind));
                self.first_candidate(&c)
            },
            crate::symbol_kind::CompKind::Transistor => {
                let c: [&str; 6] = [
                    "Device:Q_NPN_EBC",
                    "Q_NPN_EBC",
                    "Device:Q_NPN_BCE",
                    "Q_NPN_BCE",
                    "Device:Q_PNP_EBC",
                    "Q_PNP_EBC",
                ];
                assert(strs_view(c@) =~= kicad_candidates_for_kind(kind));
                self.first_candidate(&c)
            },
            crate::symbol_kind::CompKind::IC => {
                let c: [&str; 2] = ["Device:U", "U"];
                assert(strs_view(c@) =~= kicad_candidates_for_kind(kind));
                self.first_candidate(&c)
            },
            crate::symbol_kind::CompKind::Generic => {
                let c: [&str; 2] = ["Device:Generic", "Generic"];
                assert(strs_view(c@) =~= kicad_candidates_for_kind(kind));
                self.first_candidate(&c)
            },
        }
    }
}

/// After reading symbols, the last named symbol read is the one stored
/// under its name.
pub proof fn law_kicad_load_then_symbol(syms: Seq<(Option<Seq<char>>, KicadSymbol)>)
    requires
        syms.len() > 0,
        syms.last().0 is Some,
    ensures
        value_of(kicad_load(syms).entries, syms.last().0->0) == Some(syms.last().1),
{
    crate::base_library::lemma_insert_then_value(kicad_load(syms.drop_last()).entries, syms.last().0->0, syms.last().1);
}

} // verus!
