//! Net names while wiring: which net a new wire joins, which net is
//! highlighted, and the designator prefix a copied symbol keeps.

use vstd::prelude::*;
use vstd::string::StringExecFns;

use crate::editor_state::PinEndpoint;
use crate::text::{str_eq, trim_ws};

verus! {

/// A wire segment as the wiring decisions read it: its net name and the
/// pins its ends are attached to.
pub struct SegmentPins {
    pub net: String,
    pub start_pin: Option<PinEndpoint>,
    pub end_pin: Option<PinEndpoint>,
}

/// The same pin of the same symbol.
pub open spec fn same_pin(a: PinEndpoint, b: PinEndpoint) -> bool {
    a.ref_des@ == b.ref_des@ && a.pin_name@ == b.pin_name@
}

/// One end of the segment is attached to `p`.
pub open spec fn attached_to(s: SegmentPins, p: PinEndpoint) -> bool {
    (s.start_pin matches Some(a) && same_pin(a, p)) || (s.end_pin matches Some(b) && same_pin(b, p))
}

/// The net of the first segment attached to `p`.
pub open spec fn net_at_pin(segs: Seq<SegmentPins>, p: PinEndpoint) -> Option<Seq<char>>
    decreases segs.len(),
{
    if segs.len() == 0 {
        None
    } else if attached_to(segs[0], p) {
        Some(segs[0].net@)
    } else {
        net_at_pin(segs.subrange(1, segs.len() as int), p)
    }
}

/// The first non-empty net name.
pub open spec fn first_named_net(segs: Seq<SegmentPins>) -> Option<Seq<char>>
    decreases segs.len(),
{
    if segs.len() == 0 {
        None
    } else if segs[0].net@.len() > 0 {
        Some(segs[0].net@)
    } else {
        first_named_net(segs.subrange(1, segs.len() as int))
    }
}

/// The net a new wire joins: the net of a wire already at the pin it starts
/// from; else the first named net among the wires of the chain being drawn
/// (from `chain_start` on); else the default net name (trimmed), or `NET`.
pub open spec fn spec_inherited_wire_net(
    drag_from: Option<PinEndpoint>,
    segs: Seq<SegmentPins>,
    chain_start: Option<usize>,
    new_wire_net: Seq<char>,
) -> Seq<char> {
    let from_pin = match drag_from {
        Some(p) => net_at_pin(segs, p),
        None => None,
    };
    let from_chain = match chain_start {
        Some(st) => first_named_net(segs.subrange(st as int, segs.len() as int)),
        None => None,
    };
    if from_pin is Some {
        from_pin->0
    } else if from_chain is Some {
        from_chain->0
    } else if trim_ws(new_wire_net).len() == 0 {
        "NET"@
    } else {
        trim_ws(new_wire_net)
    }
}

fn pins_equal(a: &PinEndpoint, b: &PinEndpoint) -> (r: bool)
    ensures
        r == same_pin(*a, *b),
{
    str_eq(a.ref_des.as_str(), b.ref_des.as_str()) && str_eq(a.pin_name.as_str(), b.pin_name.as_str())
}

/// The net name a new wire gets.
pub fn inherited_wire_net(
    drag_from: Option<&PinEndpoint>,
    segments: &[SegmentPins],
    chain_start: Option<usize>,
    new_wire_net: &str,
) -> (r: String)
    requires
        chain_start matches Some(st) ==> st <= segments@.len(),
    ensures
        r@ == spec_inherited_wire_net(
            match drag_from {
                Some(p) => Some(*p),
                None => None,
            },
            segments@,
            chain_start,
            new_wire_net@,
        ),
{
    let ghost segs = segments@;
    let ghost from_opt = match drag_from {
        Some(p) => Some(*p),
        None => None::<PinEndpoint>,
    };
    if let Some(from) = drag_from {
        let mut i: usize = 0;
        assert(segs.subrange(0, segs.len() as int) =~= segs);
        while i < segments.len()
            invariant
                segs == segments@,
                i <= segs.len(),
                from_opt == Some(*from),
                from_opt == (match drag_from {
                    Some(p) => Some(*p),
                    None => None,
                }),
                net_at_pin(segs, *from) == net_at_pin(segs.subrange(i as int, segs.len() as int), *from),
            decreases segs.len() - i,
        {
            proof {
                assert(segs.subrange(i as int, segs.len() as int)[0] == segs[i as int]);
                assert(segs.subrange(i as int, segs.len() as int).subrange(1, segs.len() - i) =~= segs.subrange(
                    i + 1,
                    segs.len() as int,
                ));
            }
            let s = &segments[i];
            let hit = match &s.start_pin {
                Some(a) => pins_equal(a, from),
                None => false,
            } || match &s.end_pin {
                Some(b) => pins_equal(b, from),
                None => false,
            };
            assert(hit == attached_to(segs[i as int], *from));
            if hit {
                let r = s.net.clone();
                assert(net_at_pin(segs.subrange(i as int, segs.len() as int), *from) == Some(segs[i as int].net@));
                return r;
            }
            i = i + 1;
        }
        assert(net_at_pin(segs, *from) is None) by {
            assert(segs.subrange(segs.len() as int, segs.len() as int).len() == 0);
        }
    }
    assert(match from_opt {
        Some(p) => net_at_pin(segs, p),
        None => None,
    } is None);
    if let Some(start) = chain_start {
        let mut i: usize = start;
        assert(segs.subrange(start as int, segs.len() as int) =~= segs.subrange(start as int, segs.len() as int));
        while i < segments.len()
            invariant
                segs == segments@,
                start <= i <= segs.len(),
                chain_start == Some(start),
                from_opt == (match drag_from {
                    Some(p) => Some(*p),
                    None => None,
                }),
                (match from_opt {
                    Some(p) => net_at_pin(segs, p),
                    None => None,
                }) is None,
                first_named_net(segs.subrange(start as int, segs.len() as int)) == first_named_net(
                    segs.subrange(i as int, segs.len() as int),
                ),
            decreases segs.len() - i,
        {
            proof {
                assert(segs.subrange(i as int, segs.len() as int)[0] == segs[i as int]);
                assert(segs.subrange(i as int, segs.len() as int).subrange(1, segs.len() - i) =~= segs.subrange(
                    i + 1,
                    segs.len() as int,
                ));
            }
            if segments[i].net.unicode_len() > 0 {
                let r = segments[i].net.clone();
                assert(first_named_net(segs.subrange(i as int, segs.len() as int)) == Some(segs[i as int].net@));
                return r;
            }
            i = i + 1;
        }
    }
    let n = crate::text::trim(new_wire_net);
    if n.unicode_len() == 0 {
        String::from_str("NET")
    } else {
        String::from_str(n)
    }
}

/// The net that is highlighted: that of the primary selected segment, else
/// that of the selected net label (when the position is valid).
pub open spec fn spec_highlighted_net(
    primary_segment: Option<usize>,
    segment_nets: Seq<Seq<char>>,
    net_label: Option<usize>,
    label_names: Seq<Seq<char>>,
) -> Option<Seq<char>> {
    if primary_segment is Some && primary_segment->0 < segment_nets.len() {
        Some(segment_nets[primary_segment->0 as int])
    } else if net_label is Some && net_label->0 < label_names.len() {
        Some(label_names[net_label->0 as int])
    } else {
        None
    }
}

/// The highlighted net name.
pub fn highlighted_net(
    primary_segment: Option<usize>,
    segment_nets: &[String],
    net_label: Option<usize>,
    label_names: &[String],
) -> (r: Option<String>)
    ensures
        match r {
            Some(s) => spec_highlighted_net(
                primary_segment,
                crate::text::texts_view(segment_nets@),
                net_label,
                crate::text::texts_view(label_names@),
            ) == Some(s@),
            None => spec_highlighted_net(
                primary_segment,
                crate::text::texts_view(segment_nets@),
                net_label,
                crate::text::texts_view(label_names@),
            ) is None,
        },
{
    if let Some(i) = primary_segment {
        if i < segment_nets.len() {
            return Some(segment_nets[i].clone());
        }
    }
    if let Some(j) = net_label {
        if j < label_names.len() {
            return Some(label_names[j].clone());
        }
    }
    None
}

/// ASCII letters.
pub open spec fn is_ascii_letter(c: char) -> bool {
    ('a' <= c && c <= 'z') || ('A' <= c && c <= 'Z')
}

/// Length of the run of ASCII letters at the start.
pub open spec fn letters_len(s: Seq<char>) -> nat
    decreases s.len(),
{
    if s.len() > 0 && is_ascii_letter(s[0]) {
        1 + letters_len(s.subrange(1, s.len() as int))
    } else {
        0
    }
}

/// The designator prefix a copied symbol is renumbered under: the leading
/// ASCII letters of its designator, or `U` when it has none.
pub open spec fn spec_copy_prefix(ref_des: Seq<char>) -> Seq<char> {
    if letters_len(ref_des) == 0 {
        "U"@
    } else {
        ref_des.subrange(0, letters_len(ref_des) as int)
    }
}

proof fn lemma_letters_len(s: Seq<char>, i: int)
    requires
        0 <= i <= s.len(),
        forall|j: int| 0 <= j < i ==> is_ascii_letter(#[trigger] s[j]),
    ensures
        letters_len(s) == i + letters_len(s.subrange(i, s.len() as int)),
        letters_len(s) <= s.len(),
    decreases i,
{
    if i > 0 {
        let t = s.subrange(1, s.len() as int);
        assert forall|j: int| 0 <= j < i - 1 implies is_ascii_letter(#[trigger] t[j]) by {
            assert(t[j] == s[j + 1]);
        }
        lemma_letters_len(t, i - 1);
        assert(t.subrange(i - 1, t.len() as int) =~= s.subrange(i, s.len() as int));
    } else {
        assert(s.subrange(0, s.len() as int) =~= s);
        lemma_letters_bound(s);
    }
}

proof fn lemma_letters_bound(s: Seq<char>)
    ensures
        letters_len(s) <= s.len(),
    decreases s.len(),
{
    if s.len() > 0 {
        lemma_letters_bound(s.subrange(1, s.len() as int));
    }
}

fn letter_exec(c: char) -> (r: bool)
    ensures
        r == is_ascii_letter(c),
{
    ('a' <= c && c <= 'z') || ('A' <= c && c <= 'Z')
}

/// The designator prefix of a copied symbol.
pub fn copy_prefix(ref_des: &str) -> (r: String)
    ensures
        r@ == spec_copy_prefix(ref_des@),
{
    let n = ref_des.unicode_len();
    let mut i: usize = 0;
    while i < n && letter_exec(ref_des.get_char(i))
        invariant
            n == ref_des@.len(),
            i <= n,
            forall|j: int| 0 <= j < i ==> is_ascii_letter(#[trigger] ref_des@[j]),
        decreases n - i,
    {
        i = i + 1;
    }
    proof {
        lemma_letters_len(ref_des@, i as int);
        let rest = ref_des@.subrange(i as int, n as int);
        if i < n {
            assert(rest[0] == ref_des@[i as int]);
        }
        assert(letters_len(rest) == 0);
    }
    if i == 0 {
        String::from_str("U")
    } else {
        String::from_str(ref_des.substring_char(0, i))
    }
}

} // verus!

verus! {

proof fn lemma_letters_run(s: Seq<char>)
    ensures
        letters_len(s) <= s.len(),
        forall|j: int| 0 <= j < letters_len(s) ==> is_ascii_letter(#[trigger] s[j]),
        letters_len(s) < s.len() ==> !is_ascii_letter(s[letters_len(s) as int]),
    decreases s.len(),
{
    if s.len() > 0 && is_ascii_letter(s[0]) {
        let t = s.subrange(1, s.len() as int);
        lemma_letters_run(t);
        assert forall|j: int| 0 <= j < letters_len(s) implies is_ascii_letter(#[trigger] s[j]) by {
            if j > 0 {
                assert(s[j] == t[j - 1]);
            }
        }
        if letters_len(s) < s.len() {
            assert(s[letters_len(s) as int] == t[letters_len(t) as int]);
        }
    }
}

/// A copied symbol is renumbered under the run of ASCII letters that
/// starts its designator (`R` for `R12`, `SW` for `SW3b`): a non-empty
/// prefix of the designator, all letters, not followed by a letter; a
/// designator that does not start with a letter gives `U`.
pub proof fn law_copy_prefix_is_leading_letters(ref_des: Seq<char>)
    ensures
        ({
            let p = spec_copy_prefix(ref_des);
            &&& (ref_des.len() == 0 || !is_ascii_letter(ref_des[0])) ==> p == "U"@
            &&& (ref_des.len() > 0 && is_ascii_letter(ref_des[0])) ==> {
                &&& 0 < p.len() <= ref_des.len()
                &&& ref_des.subrange(0, p.len() as int) == p
                &&& forall|j: int| 0 <= j < p.len() ==> is_ascii_letter(#[trigger] p[j])
                &&& p.len() < ref_des.len() ==> !is_ascii_letter(ref_des[p.len() as int])
            }
        }),
{
    lemma_letters_run(ref_des);
}

} // verus!
