//! Footprint families for the 3D board preview: which body size a footprint
//! name stands for.

use vstd::prelude::*;

use crate::text::{ascii_upper, has_infix};

verus! {

/// Body size family of a footprint, as the 3D preview sizes its box.
#[derive(Clone, Copy, Debug, PartialEq, Eq)]
pub enum FootprintClass {
    /// 0805 / 2012 metric chip.
    Chip0805,
    /// 1206 / 3216 metric chip.
    Chip1206,
    Sot23,
    Soic8,
    Qfp,
    Header1x02,
    Header1x04,
    /// Anything else.
    Other,
}

/// The family a footprint name falls in: the first pattern that its ASCII
/// upper-case form contains.
pub open spec fn spec_footprint_class(footprint: Seq<char>) -> FootprintClass {
    let f = ascii_upper(footprint);
    if has_infix(f, "0805"@) || has_infix(f, "2012"@) {
        FootprintClass::Chip0805
    } else if has_infix(f, "1206"@) || has_infix(f, "3216"@) {
        FootprintClass::Chip1206
    } else if has_infix(f, "SOT-23"@) || has_infix(f, "SOT23"@) {
        FootprintClass::Sot23
    } else if has_infix(f, "SOIC-8"@) || has_infix(f, "SOIC8"@) {
        FootprintClass::Soic8
    } else if has_infix(f, "QFP"@) || has_infix(f, "LQFP"@) {
        FootprintClass::Qfp
    } else if has_infix(f, "1X02"@) || has_infix(f, "1x02"@) {
        FootprintClass::Header1x02
    } else if has_infix(f, "1X04"@) || has_infix(f, "1x04"@) {
        FootprintClass::Header1x04
    } else {
        FootprintClass::Other
    }
}

/// The body size family of a footprint name.
pub fn footprint_class(footprint: &str) -> (c: FootprintClass)
    ensures
        c == spec_footprint_class(footprint@),
{
    let up = crate::text::to_ascii_upper(footprint);
    let f = up.as_str();
    if crate::text::contains(f, "0805") || crate::text::contains(f, "2012") {
        FootprintClass::Chip0805
    } else if crate::text::contains(f, "1206") || crate::text::contains(f, "3216") {
        FootprintClass::Chip1206
    } else if crate::text::contains(f, "SOT-23") || crate::text::contains(f, "SOT23") {
        FootprintClass::Sot23
    } else if crate::text::contains(f, "SOIC-8") || crate::text::contains(f, "SOIC8") {
        FootprintClass::Soic8
    } else if crate::text::contains(f, "QFP") || crate::text::contains(f, "LQFP") {
        FootprintClass::Qfp
    } else if crate::text::contains(f, "1X02") || crate::text::contains(f, "1x02") {
        FootprintClass::Header1x02
    } else if crate::text::contains(f, "1X04") || crate::text::contains(f, "1x04") {
        FootprintClass::Header1x04
    } else {
        FootprintClass::Other
    }
}

} // verus!

verus! {

/// A footprint's family follows the first size pattern that its name holds
/// in any ASCII case, tried in this order: `0805`/`2012` is an 0805 chip,
/// `1206`/`3216` a 1206 chip, `SOT-23`/`SOT23` an SOT-23, `SOIC-8`/`SOIC8`
/// an SOIC-8, `QFP` a QFP, `1X02` a two-pin header, `1X04` a four-pin
/// header; a name with none of them is of no family.
pub proof fn law_footprint_families(footprint: Seq<char>)
    ensures
        ({
            let f = ascii_upper(footprint);
            let c = spec_footprint_class(footprint);
            let chip0805 = has_infix(f, "0805"@) || has_infix(f, "2012"@);
            let chip1206 = has_infix(f, "1206"@) || has_infix(f, "3216"@);
            let sot = has_infix(f, "SOT-23"@) || has_infix(f, "SOT23"@);
            let soic = has_infix(f, "SOIC-8"@) || has_infix(f, "SOIC8"@);
            let qfp = has_infix(f, "QFP"@);
            let h2 = has_infix(f, "1X02"@);
            let h4 = has_infix(f, "1X04"@);
            &&& chip0805 ==> c == FootprintClass::Chip0805
            &&& (!chip0805 && chip1206) ==> c == FootprintClass::Chip1206
            &&& (!chip0805 && !chip1206 && sot) ==> c == FootprintClass::Sot23
            &&& (!chip0805 && !chip1206 && !sot && soic) ==> c == FootprintClass::Soic8
            &&& (!chip0805 && !chip1206 && !sot && !soic && qfp) ==> c == FootprintClass::Qfp
            &&& (!chip0805 && !chip1206 && !sot && !soic && !qfp && h2) ==> c == FootprintClass::Header1x02
            &&& (!chip0805 && !chip1206 && !sot && !soic && !qfp && !h2 && h4) ==> c == FootprintClass::Header1x04
            &&& (!chip0805 && !chip1206 && !sot && !soic && !qfp && !h2 && !h4) ==> c == FootprintClass::Other
        }),
{
    let f = ascii_upper(footprint);
    if has_infix(f, "LQFP"@) {
        reveal_strlit("LQFP");
        reveal_strlit("QFP");
        let i = choose|i: int| crate::text::occurs_at(f, "LQFP"@, i);
        assert(f.subrange(i + 1, i + 4) =~= f.subrange(i, i + 4).subrange(1, 4));
        assert("LQFP"@.subrange(1, 4) =~= "QFP"@);
        assert(crate::text::occurs_at(f, "QFP"@, i + 1));
    }
    if has_infix(f, "1x02"@) || has_infix(f, "1x04"@) {
        reveal_strlit("1x02");
        reveal_strlit("1x04");
        let p = if has_infix(f, "1x02"@) { "1x02"@ } else { "1x04"@ };
        let i = choose|i: int| crate::text::occurs_at(f, p, i);
        assert(f[i + 1] == f.subrange(i, i + 4)[1]);
        assert(f[i + 1] == crate::text::upper_char(footprint[i + 1]));
        let x = footprint[i + 1];
        if 'a' <= x && x <= 'z' {
            assert(crate::text::upper_char(x) as u32 == x as u32 - 32);
        }
    }
}

} // verus!
