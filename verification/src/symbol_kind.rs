//! Component families used to choose a schematic symbol body.

use vstd::prelude::*;

use crate::text::{trim_start, trim_start_ws, upper_char, upper_char_exec};

verus! {

/// Family of a component, as its reference designator tells it.
#[derive(Clone, Copy, Debug, PartialEq, Eq)]
pub enum CompKind {
    Resistor,
    Capacitor,
    Inductor,
    Diode,
    Transistor,
    IC,
    Generic,
}

/// The family that an upper-case designator letter stands for.
pub open spec fn kind_for_letter(c: char) -> CompKind {
    if c == 'R' {
        CompKind::Resistor
    } else if c == 'C' {
        CompKind::Capacitor
    } else if c == 'L' {
        CompKind::Inductor
    } else if c == 'D' || c == 'Z' {
        CompKind::Diode
    } else if c == 'Q' {
        CompKind::Transistor
    } else if c == 'U' || c == 'J' || c == 'M' || c == 'I' {
        CompKind::IC
    } else {
        CompKind::Generic
    }
}

/// The family of a reference designator: its first character once white
/// space is trimmed (`U` for a blank designator), in ASCII upper case.
/// Trailing white space never decides, so trimming the start suffices.
pub open spec fn spec_kind_from_refdes(ref_des: Seq<char>) -> CompKind {
    let t = trim_start_ws(ref_des);
    let c = if t.len() > 0 { t[0] } else { 'U' };
    kind_for_letter(upper_char(c))
}

/// Family of a component from its reference designator (`R1` is a
/// resistor, `U3` an IC, ...).
pub fn kind_from_refdes(ref_des: &str) -> (k: CompKind)
    ensures
        k == spec_kind_from_refdes(ref_des@),
{
    let t = trim_start(ref_des);
    let first = if t.unicode_len() > 0 { t.get_char(0) } else { 'U' };
    let c = upper_char_exec(first);
    if c == 'R' {
        CompKind::Resistor
    } else if c == 'C' {
        CompKind::Capacitor
    } else if c == 'L' {
        CompKind::Inductor
    } else if c == 'D' || c == 'Z' {
        CompKind::Diode
    } else if c == 'Q' {
        CompKind::Transistor
    } else if c == 'U' || c == 'J' || c == 'M' || c == 'I' {
        CompKind::IC
    } else {
        CompKind::Generic
    }
}

/// The family of a designator does not depend on ASCII letter case.
pub proof fn law_kind_ignores_case(ref_des: Seq<char>)
    ensures
        spec_kind_from_refdes(crate::text::ascii_upper(ref_des)) == spec_kind_from_refdes(ref_des),
{
    crate::text::lemma_trim_start_upper(ref_des);
    let t = trim_start_ws(ref_des);
    if t.len() > 0 {
        let c = t[0];
        assert(crate::text::ascii_upper(t)[0] == upper_char(c));
        if 'a' <= c && c <= 'z' {
            assert(upper_char(c) as u32 == c as u32 - 32);
        }
        assert(upper_char(upper_char(c)) == upper_char(c));
    }
}

} // verus!

verus! {

/// The family a designator names, by its first non-blank character in
/// either case: `R` resistor, `C` capacitor, `L` inductor, `D` or `Z`
/// diode, `Q` transistor, `U`, `J`, `M` or `I` an IC, any other character
/// the generic body; a blank designator is an IC.
pub proof fn law_kind_by_first_letter(ref_des: Seq<char>)
    ensures
        ({
            let t = trim_start_ws(ref_des);
            let k = spec_kind_from_refdes(ref_des);
            &&& t.len() == 0 ==> k == CompKind::IC
            &&& t.len() > 0 ==> {
                let c = t[0];
                &&& (c == 'R' || c == 'r') ==> k == CompKind::Resistor
                &&& (c == 'C' || c == 'c') ==> k == CompKind::Capacitor
                &&& (c == 'L' || c == 'l') ==> k == CompKind::Inductor
                &&& (c == 'D' || c == 'd' || c == 'Z' || c == 'z') ==> k == CompKind::Diode
                &&& (c == 'Q' || c == 'q') ==> k == CompKind::Transistor
                &&& (c == 'U' || c == 'u' || c == 'J' || c == 'j' || c == 'M' || c == 'm' || c == 'I'
                    || c == 'i') ==> k == CompKind::IC
                &&& !(c == 'R' || c == 'r' || c == 'C' || c == 'c' || c == 'L' || c == 'l' || c == 'D'
                    || c == 'd' || c == 'Z' || c == 'z' || c == 'Q' || c == 'q' || c == 'U' || c == 'u'
                    || c == 'J' || c == 'j' || c == 'M' || c == 'm' || c == 'I' || c == 'i')
                    ==> k == CompKind::Generic
            }
        }),
{
    let t = trim_start_ws(ref_des);
    if t.len() > 0 {
        let c = t[0];
        if 'a' <= c && c <= 'z' {
            assert(upper_char(c) as u32 == c as u32 - 32);
        }
    }
}

} // verus!
