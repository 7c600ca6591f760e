//! Net names of a schematic sheet, as the design manager lists them.

use vstd::prelude::*;
use vstd::string::StringExecFns;

use crate::text::{lex_lt, texts_view, trim_ws};

verus! {

/// A net name that some wire or label of the sheet carries (trimmed, and
/// not empty).
pub open spec fn is_sheet_net(segment_nets: Seq<Seq<char>>, label_names: Seq<Seq<char>>, k: Seq<char>) -> bool {
    &&& k.len() > 0
    &&& (exists|i: int| 0 <= i < segment_nets.len() && trim_ws(#[trigger] segment_nets[i]) == k)
        || (exists|i: int| 0 <= i < label_names.len() && trim_ws(#[trigger] label_names[i]) == k)
}

/// Strictly increasing in character order (so without repeats).
pub open spec fn strictly_sorted(r: Seq<Seq<char>>) -> bool {
    forall|i: int, j: int| 0 <= i < j < r.len() ==> lex_lt(#[trigger] r[i], #[trigger] r[j])
}

/// Adds `x` to a strictly sorted list of names unless it is already there.
fn insert_sorted_unique(out: &mut Vec<String>, x: String)
    requires
        strictly_sorted(texts_view(old(out)@)),
    ensures
        strictly_sorted(texts_view(final(out)@)),
        forall|k: Seq<char>|
            texts_view(final(out)@).contains(k) <==> (texts_view(old(out)@).contains(k) || k == x@),
{
    let ghost before = texts_view(out@);
    let mut j: usize = 0;
    while j < out.len() && crate::text::str_lt(out[j].as_str(), x.as_str())
        invariant
            before == texts_view(out@),
            strictly_sorted(before),
            j <= out@.len(),
            forall|i: int| 0 <= i < j ==> lex_lt(#[trigger] before[i], x@),
        decreases out@.len() - j,
    {
        j = j + 1;
    }
    if j < out.len() && crate::text::str_eq(out[j].as_str(), x.as_str()) {
        assert(before[j as int] == x@);
        return;
    }
    proof {
        if j < before.len() {
            crate::text::lemma_lex_total(before[j as int], x@);
            assert(lex_lt(x@, before[j as int]));
        }
    }
    out.insert(j, x);
    let ghost after = texts_view(out@);
    proof {
        assert(after =~= before.insert(j as int, x@));
        assert forall|a: int, b: int| 0 <= a < b < after.len() implies lex_lt(#[trigger] after[a], #[trigger] after[b]) by {
            if b < j {
            } else if b == j {
            } else if a < j {
                assert(after[b] == before[b - 1]);
                if b - 1 > j {
                    assert(lex_lt(before[j as int], before[b - 1]));
                    crate::text::lemma_lex_transitive(x@, before[j as int], before[b - 1]);
                }
                crate::text::lemma_lex_transitive(after[a], x@, after[b]);
            } else if a == j {
                assert(after[b] == before[b - 1]);
                if b - 1 > j {
                    assert(lex_lt(before[j as int], before[b - 1]));
                    crate::text::lemma_lex_transitive(x@, before[j as int], before[b - 1]);
                }
            } else {
                assert(after[a] == before[a - 1] && after[b] == before[b - 1]);
            }
        }
        assert forall|k: Seq<char>| after.contains(k) <==> (before.contains(k) || k == x@) by {
            if after.contains(k) {
                let i = choose|i: int| 0 <= i < after.len() && after[i] == k;
                if i < j {
                    assert(before[i] == k);
                } else if i > j {
                    assert(before[i - 1] == k);
                }
            }
            if before.contains(k) {
                let i = choose|i: int| 0 <= i < before.len() && before[i] == k;
                if i < j {
                    assert(after[i] == k);
                } else {
                    assert(after[i + 1] == k);
                }
            }
            if k == x@ {
                assert(after[j as int] == k);
            }
        }
    }
}

/// All net names on a sheet, from its wires' and labels' names: trimmed,
/// empty ones left out, each once, in character order.
pub fn all_net_names(segment_nets: &[String], label_names: &[String]) -> (r: Vec<String>)
    ensures
        strictly_sorted(texts_view(r@)),
        forall|k: Seq<char>|
            texts_view(r@).contains(k) <==> is_sheet_net(texts_view(segment_nets@), texts_view(label_names@), k),
{
    let ghost segs = texts_view(segment_nets@);
    let ghost labs = texts_view(label_names@);
    let mut out: Vec<String> = Vec::new();
    let mut i: usize = 0;
    while i < segment_nets.len()
        invariant
            segs == texts_view(segment_nets@),
            i <= segs.len(),
            strictly_sorted(texts_view(out@)),
            forall|k: Seq<char>|
                texts_view(out@).contains(k) <==> (k.len() > 0 && exists|a: int|
                    0 <= a < i && trim_ws(#[trigger] segs[a]) == k),
        decreases segs.len() - i,
    {
        let t = crate::text::trim(segment_nets[i].as_str());
        let ghost before = texts_view(out@);
        if t.unicode_len() > 0 {
            insert_sorted_unique(&mut out, String::from_str(t));
        }
        proof {
            assert(segs[i as int] == segment_nets@[i as int]@);
            assert forall|k: Seq<char>|
                texts_view(out@).contains(k) <==> (k.len() > 0 && exists|a: int|
                    0 <= a < i + 1 && trim_ws(#[trigger] segs[a]) == k) by {
                if k.len() > 0 && exists|a: int| 0 <= a < i + 1 && trim_ws(#[trigger] segs[a]) == k {
                    let a = choose|a: int| 0 <= a < i + 1 && trim_ws(#[trigger] segs[a]) == k;
                    if a < i {
                        assert(before.contains(k));
                    }
                }
            }
        }
        i = i + 1;
    }
    let mut j: usize = 0;
    while j < label_names.len()
        invariant
            segs == texts_view(segment_nets@),
            labs == texts_view(label_names@),
            j <= labs.len(),
            strictly_sorted(texts_view(out@)),
            forall|k: Seq<char>|
                texts_view(out@).contains(k) <==> (k.len() > 0 && ((exists|a: int|
                    0 <= a < segs.len() && trim_ws(#[trigger] segs[a]) == k) || (exists|a: int|
                    0 <= a < j && trim_ws(#[trigger] labs[a]) == k))),
        decreases labs.len() - j,
    {
        let t = crate::text::trim(label_names[j].as_str());
        let ghost before = texts_view(out@);
        if t.unicode_len() > 0 {
            insert_sorted_unique(&mut out, String::from_str(t));
        }
        proof {
            assert(labs[j as int] == label_names@[j as int]@);
            assert forall|k: Seq<char>|
                texts_view(out@).contains(k) <==> (k.len() > 0 && ((exists|a: int|
                    0 <= a < segs.len() && trim_ws(#[trigger] segs[a]) == k) || (exists|a: int|
                    0 <= a < j + 1 && trim_ws(#[trigger] labs[a]) == k))) by {
                if k.len() > 0 && exists|a: int| 0 <= a < j + 1 && trim_ws(#[trigger] labs[a]) == k {
                    let a = choose|a: int| 0 <= a < j + 1 && trim_ws(#[trigger] labs[a]) == k;
                    if a < j {
                        assert(before.contains(k));
                    }
                }
            }
        }
        j = j + 1;
    }
    out
}

/// Positions of the wires whose trimmed net name is the trimmed `net`,
/// ascending; none for a blank name.
pub fn segment_indices_for_net(net: &str, segment_nets: &[String], label_names: &[String]) -> (r: Vec<usize>)
    ensures
        trim_ws(net@).len() == 0 ==> r@.len() == 0,
        trim_ws(net@).len() > 0 ==> (forall|k: int| 0 <= k < r@.len() ==> #[trigger] r@[k] < segment_nets@.len()
            && trim_ws(segment_nets@[r@[k] as int]@) == trim_ws(net@)),
        trim_ws(net@).len() > 0 ==> (forall|i: int| 0 <= i < segment_nets@.len() && trim_ws(segment_nets@[i]@) == trim_ws(net@)
            ==> r@.contains(i as usize)),
        forall|k: int, l: int| 0 <= k < l < r@.len() ==> #[trigger] r@[k] < #[trigger] r@[l],
{
    let t = crate::text::trim(net);
    let mut out: Vec<usize> = Vec::new();
    if t.unicode_len() == 0 {
        return out;
    }
    let mut i: usize = 0;
    while i < segment_nets.len()
        invariant
            t@ == trim_ws(net@),
            i <= segment_nets@.len(),
            forall|k: int| 0 <= k < out@.len() ==> #[trigger] out@[k] < i && trim_ws(segment_nets@[out@[k] as int]@) == t@,
            forall|a: int| 0 <= a < i && trim_ws(segment_nets@[a]@) == t@ ==> out@.contains(a as usize),
            forall|k: int, l: int| 0 <= k < l < out@.len() ==> #[trigger] out@[k] < #[trigger] out@[l],
        decreases segment_nets@.len() - i,
    {
        let ghost before = out@;
        if crate::text::str_eq(crate::text::trim(segment_nets[i].as_str()), t) {
            out.push(i);
            proof {
                assert(out@[before.len() as int] == i);
                assert forall|a: int| 0 <= a < i && trim_ws(segment_nets@[a]@) == t@ implies out@.contains(a as usize) by {
                    let k = choose|k: int| 0 <= k < before.len() && before[k] == a as usize;
                    assert(out@[k] == a as usize);
                }
            }
        }
        i = i + 1;
    }
    out
}

/// Positions of the wires on the net with this id, ascending.
pub fn segment_indices_for_net_id(net_id: u128, segment_net_ids: &[u128]) -> (r: Vec<usize>)
    ensures
        forall|k: int| 0 <= k < r@.len() ==> #[trigger] r@[k] < segment_net_ids@.len() && segment_net_ids@[r@[k] as int] == net_id,
        forall|i: int| 0 <= i < segment_net_ids@.len() && segment_net_ids@[i] == net_id ==> r@.contains(i as usize),
        forall|k: int, l: int| 0 <= k < l < r@.len() ==> #[trigger] r@[k] < #[trigger] r@[l],
{
    let mut out: Vec<usize> = Vec::new();
    let mut i: usize = 0;
    while i < segment_net_ids.len()
        invariant
            i <= segment_net_ids@.len(),
            forall|k: int| 0 <= k < out@.len() ==> #[trigger] out@[k] < i && segment_net_ids@[out@[k] as int] == net_id,
            forall|a: int| 0 <= a < i && segment_net_ids@[a] == net_id ==> out@.contains(a as usize),
            forall|k: int, l: int| 0 <= k < l < out@.len() ==> #[trigger] out@[k] < #[trigger] out@[l],
        decreases segment_net_ids@.len() - i,
    {
        let ghost before = out@;
        if segment_net_ids[i] == net_id {
            out.push(i);
            proof {
                assert(out@[before.len() as int] == i);
                assert forall|a: int| 0 <= a < i && segment_net_ids@[a] == net_id implies out@.contains(a as usize) by {
                    let k = choose|k: int| 0 <= k < before.len() && before[k] == a as usize;
                    assert(out@[k] == a as usize);
                }
            }
        }
        i = i + 1;
    }
    out
}

/// A placed symbol as the component summary reads it: its reference
/// designator and, when it has one, the id of its catalog part.
pub struct PlacedPart {
    pub ref_des: String,
    pub part_id: Option<u128>,
}

/// The MPN cached for a part id (the first entry with that id).
pub open spec fn cached_mpn(cache: Seq<(u128, String)>, id: u128) -> Option<Seq<char>>
    decreases cache.len(),
{
    if cache.len() == 0 {
        None
    } else if cache[0].0 == id {
        Some(cache[0].1@)
    } else {
        cached_mpn(cache.subrange(1, cache.len() as int), id)
    }
}

/// The summary row of a placed symbol: its designator and its part's MPN,
/// or a dash when it has no part or the part is not cached.
pub open spec fn summary_row(p: PlacedPart, cache: Seq<(u128, String)>) -> (Seq<char>, Seq<char>) {
    (p.ref_des@, match p.part_id {
        Some(id) => match cached_mpn(cache, id) {
            Some(m) => m,
            None => "\u{2014}"@,
        },
        None => "\u{2014}"@,
    })
}

/// Symbol `i` is listed before symbol `j`: by designator in character
/// order, ties in the symbols' own order.
pub open spec fn designator_before(parts: Seq<PlacedPart>, i: int, j: int) -> bool {
    lex_lt(parts[i].ref_des@, parts[j].ref_des@) || (parts[i].ref_des@ == parts[j].ref_des@ && i < j)
}

proof fn lemma_designator_transitive(parts: Seq<PlacedPart>, i: int, j: int, k: int)
    requires
        designator_before(parts, i, j),
        designator_before(parts, j, k),
    ensures
        designator_before(parts, i, k),
{
    let a = parts[i].ref_des@;
    let b = parts[j].ref_des@;
    let c = parts[k].ref_des@;
    if lex_lt(a, b) && lex_lt(b, c) {
        crate::text::lemma_lex_transitive(a, b, c);
    }
    crate::text::lemma_lex_total(a, c);
    crate::text::lemma_lex_irreflexive(a);
}

fn cache_lookup(cache: &[(u128, String)], id: u128) -> (r: Option<String>)
    ensures
        match r {
            Some(m) => cached_mpn(cache@, id) == Some(m@),
            None => cached_mpn(cache@, id) is None,
        },
{
    let mut i: usize = 0;
    assert(cache@.subrange(0, cache@.len() as int) =~= cache@);
    while i < cache.len()
        invariant
            i <= cache@.len(),
            cached_mpn(cache@, id) == cached_mpn(cache@.subrange(i as int, cache@.len() as int), id),
        decreases cache@.len() - i,
    {
        proof {
            assert(cache@.subrange(i as int, cache@.len() as int)[0] == cache@[i as int]);
            assert(cache@.subrange(i as int, cache@.len() as int).subrange(1, cache@.len() - i) =~= cache@.subrange(
                i + 1,
                cache@.len() as int,
            ));
        }
        if cache[i].0 == id {
            return Some(cache[i].1.clone());
        }
        i = i + 1;
    }
    None
}

/// The design manager's component list: one row per placed symbol with
/// its designator and part MPN (a dash when unknown), sorted by designator
/// (ties keep the symbols' order).
pub fn components_summary(symbols: &[PlacedPart], part_cache: &[(u128, String)]) -> (r: Vec<(String, String)>)
    ensures
        r@.len() == symbols@.len(),
        exists|order: Seq<usize>|
            #![trigger order.len()]
            order.len() == symbols@.len() && (forall|k: int| 0 <= k < order.len() ==> #[trigger] order[k] < symbols@.len())
                && (forall|k: int, l: int|
                0 <= k < l < order.len() ==> designator_before(symbols@, #[trigger] order[k] as int, #[trigger] order[l] as int))
                && (forall|k: int|
                0 <= k < order.len() ==> (#[trigger] r@[k].0@, r@[k].1@) == summary_row(symbols@[order[k] as int], part_cache@)),
{
    let ghost ps = symbols@;
    let mut order: Vec<usize> = Vec::new();
    let mut i: usize = 0;
    while i < symbols.len()
        invariant
            ps == symbols@,
            i <= ps.len(),
            order@.len() == i,
            forall|k: int| 0 <= k < order@.len() ==> #[trigger] order@[k] < i,
            forall|k: int, l: int|
                0 <= k < l < order@.len() ==> designator_before(ps, #[trigger] order@[k] as int, #[trigger] order@[l] as int),
        decreases ps.len() - i,
    {
        let mut p: usize = 0;
        while p < order.len() && !(crate::text::str_lt(symbols[i].ref_des.as_str(), symbols[order[p]].ref_des.as_str()))
            invariant
                ps == symbols@,
                i < ps.len(),
                p <= order@.len(),
                forall|k: int| 0 <= k < order@.len() ==> #[trigger] order@[k] < i,
                forall|k: int| 0 <= k < p ==> designator_before(ps, #[trigger] order@[k] as int, i as int),
            decreases order@.len() - p,
        {
            proof {
                crate::text::lemma_lex_total(ps[i as int].ref_des@, ps[order@[p as int] as int].ref_des@);
            }
            p = p + 1;
        }
        let ghost before = order@;
        order.insert(p, i);
        proof {
            assert(order@ =~= before.insert(p as int, i));
            assert forall|k: int, l: int| 0 <= k < l < order@.len() implies designator_before(
                ps,
                #[trigger] order@[k] as int,
                #[trigger] order@[l] as int,
            ) by {
                if l < p {
                } else if l == p {
                } else if k < p {
                    assert(order@[l] == before[l - 1]);
                    if l - 1 > p {
                        lemma_designator_transitive(ps, i as int, before[p as int] as int, before[l - 1] as int);
                    }
                    lemma_designator_transitive(ps, order@[k] as int, i as int, order@[l] as int);
                } else if k == p {
                    assert(order@[l] == before[l - 1]);
                    if l - 1 > p {
                        lemma_designator_transitive(ps, i as int, before[p as int] as int, before[l - 1] as int);
                    }
                } else {
                    assert(order@[k] == before[k - 1] && order@[l] == before[l - 1]);
                }
            }
            assert forall|k: int| 0 <= k < order@.len() implies #[trigger] order@[k] < i + 1 by {
                if k < p {
                    assert(order@[k] == before[k]);
                } else if k > p {
                    assert(order@[k] == before[k - 1]);
                }
            }
        }
        i = i + 1;
    }
    let mut rows: Vec<(String, String)> = Vec::new();
    let mut k: usize = 0;
    while k < order.len()
        invariant
            ps == symbols@,
            order@.len() == ps.len(),
            forall|a: int| 0 <= a < order@.len() ==> #[trigger] order@[a] < ps.len(),
            k <= order@.len(),
            rows@.len() == k,
            forall|a: int| 0 <= a < k ==> (#[trigger] rows@[a].0@, rows@[a].1@) == summary_row(ps[order@[a] as int], part_cache@),
        decreases order@.len() - k,
    {
        let s = &symbols[order[k]];
        let mpn = match s.part_id {
            Some(id) => match cache_lookup(part_cache, id) {
                Some(m) => m,
                None => String::from_str("\u{2014}"),
            },
            None => String::from_str("\u{2014}"),
        };
        rows.push((s.ref_des.clone(), mpn));
        k = k + 1;
    }
    assert(order@.len() == ps.len());
    rows
}

/// The names a symbol's pins are tried under: its declared pins, or `1`
/// and `2` when it declares none.
pub open spec fn pin_candidates(pins: Seq<Seq<char>>) -> Seq<Seq<char>> {
    if pins.len() == 0 {
        seq!["1"@, "2"@]
    } else {
        pins
    }
}

/// The pin names that have a wire end within the attach radius, each once,
/// in character order. The names tried are the declared pins (`1` and `2`
/// when there are none); `attached[i]` says whether the `i`-th of them has
/// a wire end near it (the caller measures the distance).
pub fn display_pins_for_symbol(pins: &[String], attached: &[bool]) -> (r: Vec<String>)
    requires
        attached@.len() == pin_candidates(texts_view(pins@)).len(),
    ensures
        strictly_sorted(texts_view(r@)),
        forall|k: Seq<char>|
            texts_view(r@).contains(k) <==> exists|i: int|
                0 <= i < attached@.len() && attached@[i] && #[trigger] pin_candidates(texts_view(pins@))[i] == k,
{
    let mut cands: Vec<String> = Vec::new();
    if pins.len() == 0 {
        cands.push(String::from_str("1"));
        cands.push(String::from_str("2"));
        assert(texts_view(cands@) =~= seq!["1"@, "2"@]);
    } else {
        let mut j: usize = 0;
        while j < pins.len()
            invariant
                j <= pins@.len(),
                texts_view(cands@) == texts_view(pins@).subrange(0, j as int),
            decreases pins@.len() - j,
        {
            let c = pins[j].clone();
            assert(c@ == pins@[j as int]@);
            let ghost before = cands@;
            cands.push(c);
            assert(texts_view(cands@) =~= texts_view(before).push(c@));
            assert(texts_view(cands@) =~= texts_view(pins@).subrange(0, j + 1));
            j = j + 1;
        }
        assert(texts_view(pins@).subrange(0, pins@.len() as int) =~= texts_view(pins@));
    }
    let ghost ps = texts_view(cands@);
    assert(ps == pin_candidates(texts_view(pins@)));
    let mut out: Vec<String> = Vec::new();
    let mut i: usize = 0;
    while i < cands.len()
        invariant
            ps == texts_view(cands@),
            ps.len() == attached@.len(),
            i <= ps.len(),
            strictly_sorted(texts_view(out@)),
            forall|k: Seq<char>|
                texts_view(out@).contains(k) <==> exists|a: int| 0 <= a < i && attached@[a] && #[trigger] ps[a] == k,
        decreases ps.len() - i,
    {
        let ghost before = texts_view(out@);
        if attached[i] {
            let x = cands[i].clone();
            assert(x@ == ps[i as int]);
            insert_sorted_unique(&mut out, x);
        }
        proof {
            assert forall|k: Seq<char>|
                texts_view(out@).contains(k) <==> exists|a: int| 0 <= a < i + 1 && attached@[a] && #[trigger] ps[a] == k by {
                if exists|a: int| 0 <= a < i + 1 && attached@[a] && #[trigger] ps[a] == k {
                    let a = choose|a: int| 0 <= a < i + 1 && attached@[a] && #[trigger] ps[a] == k;
                    if a < i {
                        assert(before.contains(k));
                    }
                }
                if texts_view(out@).contains(k) && !(attached@[i as int] && k == ps[i as int]) {
                    assert(before.contains(k));
                }
            }
        }
        i = i + 1;
    }
    out
}

} // verus!
