//! Default component values and value-field hints, after common schematic
//! conventions.

use vstd::prelude::*;
use vstd::string::StringExecFns;

use crate::text::{
    after_last, after_last_char, any_ascii_alnum, ascii_upper, has_infix, has_prefix, is_ascii_alnum,
    str_eq, starts_with, contains, to_ascii_upper,
};

verus! {

/// The default **Value** that a short symbol name suggests, if any.
pub open spec fn spec_default_from_short_name(short: Seq<char>) -> Option<Seq<char>> {
    let u = ascii_upper(short);
    if u == "R"@ || has_prefix(u, "R_"@) {
        Some("R"@)
    } else if u == "C"@ || has_prefix(u, "C_"@) {
        Some("C"@)
    } else if u == "L"@ || has_prefix(u, "L_"@) {
        Some("L"@)
    } else if u == "D"@ || has_prefix(u, "LED"@) {
        if has_infix(u, "LED"@) {
            Some("LED"@)
        } else {
            Some("D"@)
        }
    } else if has_prefix(u, "SW_"@) || u == "SW"@ {
        Some("SW"@)
    } else if has_prefix(u, "CONN_"@) {
        Some("Conn"@)
    } else if vstd::utf8::encode_utf8(u).len() <= 16
        && exists|i: int| 0 <= i < short.len() && is_ascii_alnum(#[trigger] short[i]) {
        Some(short)
    } else {
        None
    }
}

/// The default **Value** for a library symbol id such as `Device:R`.
pub open spec fn spec_default_value_for_library_id(id: Seq<char>) -> Seq<char> {
    match spec_default_from_short_name(after_last(id, ':')) {
        Some(v) => v,
        None => match spec_default_from_short_name(id) {
            Some(v) => v,
            None => "???"@,
        },
    }
}

/// Default **Value** field when a library symbol is placed: the resistor,
/// capacitor, inductor, diode, switch and connector families get their
/// generic value, other short alphanumeric names are kept, and `???`
/// stands for anything else.
pub fn default_value_for_library_id(symbol_id: &str) -> (r: String)
    ensures
        r@ == spec_default_value_for_library_id(symbol_id@),
{
    let sym = after_last_char(symbol_id, ':');
    match default_from_short_name(sym) {
        Some(v) => {
            return v;
        },
        None => {},
    }
    match default_from_short_name(symbol_id) {
        Some(v) => v,
        None => String::from_str("???"),
    }
}

/// The default **Value** that a short symbol name suggests.
fn default_from_short_name(short: &str) -> (r: Option<String>)
    ensures
        match r {
            Some(v) => spec_default_from_short_name(short@) == Some(v@),
            None => spec_default_from_short_name(short@) is None,
        },
{
    let upper_s = to_ascii_upper(short);
    let upper = upper_s.as_str();
    if str_eq(upper, "R") || starts_with(upper, "R_") {
        return Some(String::from_str("R"));
    }
    if str_eq(upper, "C") || starts_with(upper, "C_") {
        return Some(String::from_str("C"));
    }
    if str_eq(upper, "L") || starts_with(upper, "L_") {
        return Some(String::from_str("L"));
    }
    if str_eq(upper, "D") || starts_with(upper, "LED") {
        return Some(if contains(upper, "LED") {
            String::from_str("LED")
        } else {
            String::from_str("D")
        });
    }
    if starts_with(upper, "SW_") || str_eq(upper, "SW") {
        return Some(String::from_str("SW"));
    }
    if starts_with(upper, "CONN_") {
        return Some(String::from_str("Conn"));
    }
    if upper.as_bytes().len() <= 16 && any_ascii_alnum(short) {
        return Some(String::from_str(short));
    }
    None
}

/// What a short name can suggest: one of the family values, or the name
/// itself when it is short and holds an ASCII letter or digit.
proof fn lemma_short_name_range(short: Seq<char>)
    ensures
        spec_default_from_short_name(short) matches Some(v) ==> v.len() > 0 && (v == "R"@ || v == "C"@
            || v == "L"@ || v == "D"@ || v == "LED"@ || v == "SW"@ || v == "Conn"@ || (v == short
            && vstd::utf8::encode_utf8(v).len() <= 16 && exists|i: int| 0 <= i < v.len() && is_ascii_alnum(#[trigger] v[i]))),
{
    reveal_strlit("R");
    reveal_strlit("C");
    reveal_strlit("L");
    reveal_strlit("D");
    reveal_strlit("LED");
    reveal_strlit("SW");
    reveal_strlit("Conn");
    crate::text::lemma_upper_keeps_utf8_len(short);
}

/// The default **Value** of a library id is never empty: it is `???`, a
/// family value, or (the part after the last `:` of) the id itself, short
/// and holding an ASCII letter or digit.
pub proof fn law_default_value_range(id: Seq<char>)
    ensures
        ({
            let r = spec_default_value_for_library_id(id);
            &&& r.len() > 0
            &&& r == "???"@ || r == "R"@ || r == "C"@ || r == "L"@ || r == "D"@ || r == "LED"@ || r == "SW"@
                || r == "Conn"@ || ((r == after_last(id, ':') || r == id) && vstd::utf8::encode_utf8(r).len() <= 16
                && exists|i: int| 0 <= i < r.len() && is_ascii_alnum(#[trigger] r[i]))
        }),
{
    reveal_strlit("???");
    lemma_short_name_range(after_last(id, ':'));
    lemma_short_name_range(id);
}

/// Whether an upper-cased short name belongs to one of the families that
/// have a generic value: `R`, `C`, `L` (alone or before `_`), `D`, a name
/// starting with `LED`, `SW` (alone or before `_`), or one starting with
/// `CONN_`.
pub open spec fn names_family(u: Seq<char>) -> bool {
    u == "R"@ || has_prefix(u, "R_"@) || u == "C"@ || has_prefix(u, "C_"@) || u == "L"@ || has_prefix(u, "L_"@)
        || u == "D"@ || has_prefix(u, "LED"@) || u == "SW"@ || has_prefix(u, "SW_"@) || has_prefix(u, "CONN_"@)
}

/// Whether a name outside the families is kept as its own value: at most
/// 16 bytes, with an ASCII letter or digit.
pub open spec fn kept_as_value(s: Seq<char>) -> bool {
    vstd::utf8::encode_utf8(s).len() <= 16 && exists|i: int| 0 <= i < s.len() && is_ascii_alnum(#[trigger] s[i])
}

proof fn lemma_prefix_chars(u: Seq<char>, p: Seq<char>)
    ensures
        has_prefix(u, p) ==> forall|k: int| 0 <= k < p.len() ==> u[k] == #[trigger] p[k],
{
    if has_prefix(u, p) {
        assert forall|k: int| 0 <= k < p.len() implies u[k] == #[trigger] p[k] by {
            assert(u.subrange(0, p.len() as int)[k] == u[k]);
        }
    }
}

proof fn lemma_differs_at(u: Seq<char>, p: Seq<char>, k: int)
    requires
        0 <= k < u.len(),
        0 <= k < p.len(),
        u[k] != p[k],
    ensures
        u != p,
        !has_prefix(u, p),
{
    if has_prefix(u, p) {
        assert(u.subrange(0, p.len() as int)[k] == u[k]);
    }
}

/// The default value of each family, decided by the part after the last
/// `:` in ASCII upper case: `R`/`R_...` gives `R`, `C`/`C_...` gives `C`,
/// `L`/`L_...` gives `L`, `D` gives `D`, `LED...` gives `LED`,
/// `SW`/`SW_...` gives `SW`, `CONN_...` gives `Conn`. A part outside the
/// families is kept when it is short and holds a letter or digit; else the
/// whole id is tried the same way, and `???` is left when it fails too.
pub proof fn law_default_value_families(id: Seq<char>)
    ensures
        ({
            let short = after_last(id, ':');
            let u = ascii_upper(short);
            let r = spec_default_value_for_library_id(id);
            &&& (u == "R"@ || has_prefix(u, "R_"@)) ==> r == "R"@
            &&& (u == "C"@ || has_prefix(u, "C_"@)) ==> r == "C"@
            &&& (u == "L"@ || has_prefix(u, "L_"@)) ==> r == "L"@
            &&& u == "D"@ ==> r == "D"@
            &&& has_prefix(u, "LED"@) ==> r == "LED"@
            &&& (u == "SW"@ || has_prefix(u, "SW_"@)) ==> r == "SW"@
            &&& has_prefix(u, "CONN_"@) ==> r == "Conn"@
            &&& (!names_family(u) && kept_as_value(short)) ==> r == short
            &&& (!names_family(u) && !kept_as_value(short) && !names_family(ascii_upper(id))
                && kept_as_value(id)) ==> r == id
            &&& (!names_family(u) && !kept_as_value(short) && !names_family(ascii_upper(id))
                && !kept_as_value(id)) ==> r == "???"@
        }),
{
    reveal_strlit("R");
    reveal_strlit("R_");
    reveal_strlit("C");
    reveal_strlit("C_");
    reveal_strlit("L");
    reveal_strlit("L_");
    reveal_strlit("D");
    reveal_strlit("LED");
    reveal_strlit("SW");
    reveal_strlit("SW_");
    reveal_strlit("CONN_");
    reveal_strlit("Conn");
    reveal_strlit("???");
    let short = after_last(id, ':');
    crate::text::lemma_upper_keeps_utf8_len(short);
    crate::text::lemma_upper_keeps_utf8_len(id);
    let u = ascii_upper(short);
    lemma_prefix_chars(u, "R_"@);
    lemma_prefix_chars(u, "C_"@);
    lemma_prefix_chars(u, "L_"@);
    lemma_prefix_chars(u, "LED"@);
    lemma_prefix_chars(u, "SW_"@);
    lemma_prefix_chars(u, "CONN_"@);
    if has_prefix(u, "LED"@) {
        assert(has_infix(u, "LED"@)) by {
            assert(crate::text::occurs_at(u, "LED"@, 0));
        }
    }
    if u == "D"@ {
        assert(!has_infix(u, "LED"@)) by {
            if has_infix(u, "LED"@) {
                let i = choose|i: int| crate::text::occurs_at(u, "LED"@, i);
                assert(i + 3 <= u.len());
            }
        }
    }
    let r = spec_default_value_for_library_id(id);
    if has_prefix(u, "LED"@) {
        assert(u[0] == "LED"@[0] && u[1] == "LED"@[1]);
    }
    if has_prefix(u, "SW_"@) {
        assert(u[0] == "SW_"@[0]);
    }
    if u == "SW"@ {
        assert(u[0] == "SW"@[0]);
    }
    if has_prefix(u, "CONN_"@) {
        assert(u[0] == "CONN_"@[0] && u[1] == "CONN_"@[1]);
    }
    if u.len() > 1 && u[0] == 'L' && u[1] == 'E' {
        lemma_differs_at(u, "L_"@, 1);
    }
    if u.len() > 0 && u[0] != 'R' {
        lemma_differs_at(u, "R"@, 0);
        lemma_differs_at(u, "R_"@, 0);
    }
    if u.len() > 0 && u[0] != 'C' {
        lemma_differs_at(u, "C"@, 0);
        lemma_differs_at(u, "C_"@, 0);
        lemma_differs_at(u, "CONN_"@, 0);
    }
    if u.len() > 0 && u[0] != 'L' {
        lemma_differs_at(u, "L"@, 0);
        lemma_differs_at(u, "L_"@, 0);
        lemma_differs_at(u, "LED"@, 0);
    }
    if u.len() > 0 && u[0] != 'D' {
        lemma_differs_at(u, "D"@, 0);
    }
    if u.len() > 1 && u[0] == 'C' && u[1] == 'O' {
        lemma_differs_at(u, "C_"@, 1);
    }
    if u.len() > 1 && u[0] == 'L' && u[1] == '_' {
        lemma_differs_at(u, "LED"@, 1);
    }
    assert((u == "R"@ || has_prefix(u, "R_"@)) ==> r == "R"@);
    assert((u == "C"@ || has_prefix(u, "C_"@)) ==> r == "C"@);
    assert((u == "L"@ || has_prefix(u, "L_"@)) ==> r == "L"@);
    assert(u == "D"@ ==> r == "D"@);
    assert(has_prefix(u, "LED"@) ==> r == "LED"@);
    assert((u == "SW"@ || has_prefix(u, "SW_"@)) ==> r == "SW"@);
    assert(has_prefix(u, "CONN_"@) ==> r == "Conn"@);
}

/// The placeholder hint of the **Value** field, by reference-designator prefix.
pub open spec fn spec_value_placeholder(prefix: Seq<char>) -> Seq<char> {
    if prefix == "R"@ {
        "e.g. 10k, 4.7k"@
    } else if prefix == "C"@ {
        "e.g. 100n, 10u"@
    } else if prefix == "L"@ {
        "e.g. 10uH, 1mH"@
    } else if prefix == "D"@ {
        "e.g. 1N4148"@
    } else if prefix == "Q"@ {
        "e.g. 2N7002"@
    } else if prefix == "U"@ {
        "part value / IC name"@
    } else if prefix == "J"@ {
        "e.g. Conn_01x04"@
    } else if prefix == "SW"@ {
        "e.g. SW_SPST"@
    } else {
        "component value"@
    }
}

/// Inspector placeholder for the **Value** field, by refdes prefix.
pub fn value_placeholder_for_prefix(prefix: &str) -> (r: &'static str)
    ensures
        r@ == spec_value_placeholder(prefix@),
{
    if str_eq(prefix, "R") {
        "e.g. 10k, 4.7k"
    } else if str_eq(prefix, "C") {
        "e.g. 100n, 10u"
    } else if str_eq(prefix, "L") {
        "e.g. 10uH, 1mH"
    } else if str_eq(prefix, "D") {
        "e.g. 1N4148"
    } else if str_eq(prefix, "Q") {
        "e.g. 2N7002"
    } else if str_eq(prefix, "U") {
        "part value / IC name"
    } else if str_eq(prefix, "J") {
        "e.g. Conn_01x04"
    } else if str_eq(prefix, "SW") {
        "e.g. SW_SPST"
    } else {
        "component value"
    }
}

} // verus!

verus! {

/// The hint of the **Value** field names typical values of the part a
/// prefix stands for: resistances for `R`, capacitances for `C`,
/// inductances for `L`, a diode for `D`, a transistor for `Q`, the part
/// name for `U`, a connector for `J`, a switch for `SW`, and a generic
/// hint for any other prefix.
pub proof fn law_value_placeholder_by_prefix(prefix: Seq<char>)
    ensures
        ({
            let h = spec_value_placeholder(prefix);
            &&& prefix == "R"@ ==> h == "e.g. 10k, 4.7k"@
            &&& prefix == "C"@ ==> h == "e.g. 100n, 10u"@
            &&& prefix == "L"@ ==> h == "e.g. 10uH, 1mH"@
            &&& prefix == "D"@ ==> h == "e.g. 1N4148"@
            &&& prefix == "Q"@ ==> h == "e.g. 2N7002"@
            &&& prefix == "U"@ ==> h == "part value / IC name"@
            &&& prefix == "J"@ ==> h == "e.g. Conn_01x04"@
            &&& prefix == "SW"@ ==> h == "e.g. SW_SPST"@
            &&& !(prefix == "R"@ || prefix == "C"@ || prefix == "L"@ || prefix == "D"@ || prefix == "Q"@
                || prefix == "U"@ || prefix == "J"@ || prefix == "SW"@) ==> h == "component value"@
        }),
{
    reveal_strlit("R");
    reveal_strlit("C");
    reveal_strlit("L");
    reveal_strlit("D");
    reveal_strlit("Q");
    reveal_strlit("U");
    reveal_strlit("J");
    reveal_strlit("SW");
    assert("R"@[0] == 'R' && "C"@[0] == 'C' && "L"@[0] == 'L' && "D"@[0] == 'D' && "Q"@[0] == 'Q'
        && "U"@[0] == 'U' && "J"@[0] == 'J' && "SW"@.len() == 2);
}

} // verus!

