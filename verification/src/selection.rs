//! The canvas selection: which symbols, wire segments and other items are
//! selected, how select-all fills it under the selection filter, how many
//! items it holds, and what a delete or rotate acts on.

use vstd::prelude::*;
use vstd::string::StringExecFns;

use crate::editor_state::{admits_annotations, admits_labels, admits_symbols, admits_wires, SelectionFilter};
use crate::text::{texts_view, trim_ws};

verus! {

/// What is selected on the canvas. Symbols are named by designator and
/// wire segments by position, each at most once; of the other item kinds at
/// most one item (by position) is selected. `primary_sym` and
/// `primary_segment` are what the inspector shows.
pub struct Selection {
    pub syms: Vec<String>,
    pub segments: Vec<usize>,
    pub net_label: Option<usize>,
    pub junction: Option<usize>,
    pub no_connect: Option<usize>,
    pub power_symbol: Option<usize>,
    pub text_item: Option<usize>,
    pub bus: Option<usize>,
    pub erc_marker: Option<usize>,
    pub primary_sym: Option<String>,
    pub primary_segment: Option<usize>,
}

/// How many items of each kind the active sheet holds.
#[derive(Clone, Copy, Debug)]
pub struct ItemCounts {
    pub segments: usize,
    pub net_labels: usize,
    pub power_symbols: usize,
    pub junctions: usize,
    pub no_connects: usize,
    pub text_items: usize,
    pub buses: usize,
}

/// What a delete removes: every selected symbol, every selected segment,
/// or the one selected item of a kind (by position); or nothing.
#[derive(Clone, Copy, Debug, PartialEq, Eq)]
pub enum DeleteTarget {
    Symbols,
    Segments,
    NetLabel(usize),
    Junction(usize),
    NoConnect(usize),
    PowerSymbol(usize),
    TextItem(usize),
    Bus(usize),
    Nothing,
}

/// No item occurs twice.
pub open spec fn no_repeats<T>(s: Seq<T>) -> bool {
    forall|i: int, j: int| 0 <= i < j < s.len() ==> s[i] != s[j]
}

/// Nothing is selected.
pub open spec fn is_empty_selection(s: Selection) -> bool {
    &&& s.syms@.len() == 0
    &&& s.segments@.len() == 0
    &&& s.net_label is None
    &&& s.junction is None
    &&& s.no_connect is None
    &&& s.power_symbol is None
    &&& s.text_item is None
    &&& s.bus is None
    &&& s.erc_marker is None
    &&& s.primary_sym is None
    &&& s.primary_segment is None
}

/// The first item of a kind when there is one.
pub open spec fn first_of(n: usize) -> Option<usize> {
    if n > 0 { Some(0usize) } else { None }
}

/// The number of selected items: each symbol, each segment, and each other
/// selected item.
pub open spec fn spec_selection_count(s: Selection) -> int {
    s.syms@.len() + s.segments@.len() + (if s.net_label is Some { 1int } else { 0int }) + (if s.junction is Some {
        1int
    } else {
        0int
    }) + (if s.no_connect is Some { 1int } else { 0int }) + (if s.power_symbol is Some { 1int } else { 0int }) + (
    if s.text_item is Some { 1int } else { 0int }) + (if s.bus is Some { 1int } else { 0int }) + (if s.erc_marker is Some {
        1int
    } else {
        0int
    })
}

/// The target of a delete: symbols first, then segments, then the selected
/// net label, junction, no-connect, power symbol, text item and bus.
pub open spec fn spec_delete_target(s: Selection) -> DeleteTarget {
    if s.syms@.len() > 0 {
        DeleteTarget::Symbols
    } else if s.segments@.len() > 0 {
        DeleteTarget::Segments
    } else if s.net_label is Some {
        DeleteTarget::NetLabel(s.net_label->0)
    } else if s.junction is Some {
        DeleteTarget::Junction(s.junction->0)
    } else if s.no_connect is Some {
        DeleteTarget::NoConnect(s.no_connect->0)
    } else if s.power_symbol is Some {
        DeleteTarget::PowerSymbol(s.power_symbol->0)
    } else if s.text_item is Some {
        DeleteTarget::TextItem(s.text_item->0)
    } else if s.bus is Some {
        DeleteTarget::Bus(s.bus->0)
    } else {
        DeleteTarget::Nothing
    }
}

/// Position of the last label whose trimmed name is `net`.
pub open spec fn last_label_named(labels: Seq<String>, net: Seq<char>) -> Option<usize>
    decreases labels.len(),
{
    if labels.len() == 0 {
        None
    } else if trim_ws(labels.last()@) == net {
        Some((labels.len() - 1) as usize)
    } else {
        last_label_named(labels.drop_last(), net)
    }
}

impl Selection {
    /// An empty selection.
    pub fn new() -> (s: Self)
        ensures
            is_empty_selection(s),
    {
        Selection {
            syms: Vec::new(),
            segments: Vec::new(),
            net_label: None,
            junction: None,
            no_connect: None,
            power_symbol: None,
            text_item: None,
            bus: None,
            erc_marker: None,
            primary_sym: None,
            primary_segment: None,
        }
    }

    /// Deselects everything.
    pub fn clear_selection(&mut self)
        ensures
            is_empty_selection(*final(self)),
    {
        self.syms.clear();
        self.segments.clear();
        self.primary_sym = None;
        self.primary_segment = None;
        self.net_label = None;
        self.junction = None;
        self.no_connect = None;
        self.power_symbol = None;
        self.text_item = None;
        self.bus = None;
        self.erc_marker = None;
    }

    /// Selects every item of the sheet that the filter admits: all symbols
    /// (each designator once, the first symbol primary), all segments (one
    /// of them primary), and the first net label, power symbol, junction,
    /// no-connect, text item and bus of the admitted kinds.
    pub fn select_all(&mut self, filter: SelectionFilter, sym_refs: &[String], counts: ItemCounts)
        ensures
            no_repeats(texts_view(final(self).syms@)),
            forall|k: Seq<char>|
                texts_view(final(self).syms@).contains(k) <==> (admits_symbols(filter)
                    && texts_view(sym_refs@).contains(k)),
            final(self).primary_sym == (if admits_symbols(filter) && sym_refs@.len() > 0 {
                Some(sym_refs@[0])
            } else {
                None::<String>
            }),
            final(self).segments@ == (if admits_wires(filter) {
                Seq::new(counts.segments as nat, |i: int| i as usize)
            } else {
                Seq::<usize>::empty()
            }),
            admits_wires(filter) && counts.segments > 0 ==> (final(self).primary_segment matches Some(i) && i
                < counts.segments),
            !(admits_wires(filter) && counts.segments > 0) ==> final(self).primary_segment is None,
            final(self).net_label == (if admits_labels(filter) { first_of(counts.net_labels) } else { None }),
            final(self).power_symbol == (if admits_labels(filter) { first_of(counts.power_symbols) } else { None }),
            final(self).junction == (if admits_annotations(filter) { first_of(counts.junctions) } else { None }),
            final(self).no_connect == (if admits_annotations(filter) { first_of(counts.no_connects) } else { None }),
            final(self).text_item == (if admits_annotations(filter) { first_of(counts.text_items) } else { None }),
            final(self).bus == (if admits_wires(filter) { first_of(counts.buses) } else { None }),
            final(self).erc_marker is None,
    {
        self.clear_selection();
        if filter.allows_symbols() {
            let mut syms: Vec<String> = Vec::new();
            let mut i: usize = 0;
            while i < sym_refs.len()
                invariant
                    i <= sym_refs@.len(),
                    no_repeats(texts_view(syms@)),
                    forall|k: Seq<char>|
                        texts_view(syms@).contains(k) <==> texts_view(sym_refs@.subrange(0, i as int)).contains(k),
                decreases sym_refs@.len() - i,
            {
                let ghost before = texts_view(syms@);
                let mut seen = false;
                let mut j: usize = 0;
                while j < syms.len()
                    invariant
                        i < sym_refs@.len(),
                        before == texts_view(syms@),
                        j <= syms@.len(),
                        !seen ==> forall|a: int| 0 <= a < j ==> before[a] != sym_refs@[i as int]@,
                        seen ==> before.contains(sym_refs@[i as int]@),
                    decreases syms@.len() - j,
                {
                    if crate::text::str_eq(syms[j].as_str(), sym_refs[i].as_str()) {
                        seen = true;
                        assert(before[j as int] == sym_refs@[i as int]@);
                    }
                    j = j + 1;
                }
                if !seen {
                    syms.push(sym_refs[i].clone());
                }
                proof {
                    let now = texts_view(syms@);
                    let upto = texts_view(sym_refs@.subrange(0, i + 1));
                    let prev = texts_view(sym_refs@.subrange(0, i as int));
                    assert(upto =~= prev.push(sym_refs@[i as int]@));
                    if !seen {
                        assert(now =~= before.push(sym_refs@[i as int]@));
                    } else {
                        assert(now =~= before);
                    }
                    assert forall|k: Seq<char>| now.contains(k) <==> upto.contains(k) by {
                        if now.contains(k) {
                            let a = choose|a: int| 0 <= a < now.len() && now[a] == k;
                            if a < before.len() {
                                assert(before[a] == k);
                                assert(before.contains(k));
                                assert(prev.contains(k));
                                let b = choose|b: int| 0 <= b < prev.len() && prev[b] == k;
                                assert(upto[b] == k);
                            } else {
                                assert(upto[i as int] == k);
                            }
                        }
                        if upto.contains(k) {
                            let a = choose|a: int| 0 <= a < upto.len() && upto[a] == k;
                            if a < i {
                                assert(prev[a] == k);
                                assert(before.contains(k));
                                let b = choose|b: int| 0 <= b < before.len() && before[b] == k;
                                if !seen {
                                    assert(now[b] == k);
                                }
                            } else {
                                if !seen {
                                    assert(now[before.len() as int] == k);
                                }
                            }
                        }
                    }
                }
                i = i + 1;
            }
            proof {
                assert(sym_refs@.subrange(0, sym_refs@.len() as int) =~= sym_refs@);
            }
            self.syms = syms;
            if sym_refs.len() > 0 {
                self.primary_sym = Some(sym_refs[0].clone());
            }
        }
        if filter.allows_wires() {
            let mut segs: Vec<usize> = Vec::new();
            let mut i: usize = 0;
            while i < counts.segments
                invariant
                    i <= counts.segments,
                    segs@ == Seq::new(i as nat, |a: int| a as usize),
                decreases counts.segments - i,
            {
                segs.push(i);
                proof {
                    assert(segs@ =~= Seq::new((i + 1) as nat, |a: int| a as usize));
                }
                i = i + 1;
            }
            self.segments = segs;
            if counts.segments > 0 {
                self.primary_segment = Some(0);
            }
        } else {
            assert(self.segments@ =~= Seq::<usize>::empty());
        }
        if filter.allows_labels() {
            if counts.net_labels > 0 {
                self.net_label = Some(0);
            }
            if counts.power_symbols > 0 {
                self.power_symbol = Some(0);
            }
        }
        if filter.allows_annotations() {
            if counts.junctions > 0 {
                self.junction = Some(0);
            }
            if counts.no_connects > 0 {
                self.no_connect = Some(0);
            }
            if counts.text_items > 0 {
                self.text_item = Some(0);
            }
        }
        if filter.allows_wires() && counts.buses > 0 {
            self.bus = Some(0);
        }
    }

    /// Number of selected items.
    pub fn selection_count(&self) -> (n: usize)
        requires
            self.syms@.len() + self.segments@.len() + 9 <= usize::MAX,
        ensures
            n == spec_selection_count(*self),
    {
        let mut n = self.syms.len() + self.segments.len();
        if self.net_label.is_some() {
            n = n + 1;
        }
        if self.junction.is_some() {
            n = n + 1;
        }
        if self.no_connect.is_some() {
            n = n + 1;
        }
        if self.power_symbol.is_some() {
            n = n + 1;
        }
        if self.text_item.is_some() {
            n = n + 1;
        }
        if self.bus.is_some() {
            n = n + 1;
        }
        if self.erc_marker.is_some() {
            n = n + 1;
        }
        n
    }

    /// Whether anything is selected.
    pub fn has_selection(&self) -> (r: bool)
        requires
            self.syms@.len() + self.segments@.len() + 9 <= usize::MAX,
        ensures
            r == (spec_selection_count(*self) > 0),
    {
        self.selection_count() > 0
    }

    /// What a delete removes. Deleting symbols or segments deselects
    /// everything; deleting another item deselects that item only.
    pub fn take_delete_target(&mut self) -> (t: DeleteTarget)
        ensures
            t == spec_delete_target(*old(self)),
            (t == DeleteTarget::Symbols || t == DeleteTarget::Segments) ==> is_empty_selection(*final(self)),
            t == DeleteTarget::Nothing ==> *final(self) == *old(self),
            (t is NetLabel || t is Junction || t is NoConnect || t is PowerSymbol || t is TextItem || t is Bus)
                ==> *final(self) == (Selection {
                net_label: if t is NetLabel { None } else { old(self).net_label },
                junction: if t is Junction { None } else { old(self).junction },
                no_connect: if t is NoConnect { None } else { old(self).no_connect },
                power_symbol: if t is PowerSymbol { None } else { old(self).power_symbol },
                text_item: if t is TextItem { None } else { old(self).text_item },
                bus: if t is Bus { None } else { old(self).bus },
                ..*old(self)
            }),
    {
        if self.syms.len() > 0 {
            self.clear_selection();
            return DeleteTarget::Symbols;
        }
        if self.segments.len() > 0 {
            self.clear_selection();
            return DeleteTarget::Segments;
        }
        if let Some(i) = self.net_label {
            self.net_label = None;
            return DeleteTarget::NetLabel(i);
        }
        if let Some(i) = self.junction {
            self.junction = None;
            return DeleteTarget::Junction(i);
        }
        if let Some(i) = self.no_connect {
            self.no_connect = None;
            return DeleteTarget::NoConnect(i);
        }
        if let Some(i) = self.power_symbol {
            self.power_symbol = None;
            return DeleteTarget::PowerSymbol(i);
        }
        if let Some(i) = self.text_item {
            self.text_item = None;
            return DeleteTarget::TextItem(i);
        }
        if let Some(i) = self.bus {
            self.bus = None;
            return DeleteTarget::Bus(i);
        }
        DeleteTarget::Nothing
    }

    /// Selects the whole net of segment `segment_index`: every segment with
    /// the same net id, that segment as primary, and the last net label
    /// whose trimmed name is the segment's trimmed net name. An index past
    /// the segments changes nothing.
    pub fn select_net_for_segment(
        &mut self,
        segment_index: usize,
        segment_net_ids: &[u128],
        segment_nets: &[String],
        label_names: &[String],
    )
        requires
            segment_net_ids@.len() == segment_nets@.len(),
        ensures
            segment_index >= segment_net_ids@.len() ==> *final(self) == *old(self),
            segment_index < segment_net_ids@.len() ==> {
                &&& final(self).syms@.len() == 0
                &&& final(self).primary_sym is None
                &&& final(self).primary_segment == Some(segment_index)
                &&& forall|k: int| 0 <= k < final(self).segments@.len() ==> #[trigger] final(self).segments@[k]
                    < segment_net_ids@.len() && segment_net_ids@[final(self).segments@[k] as int]
                    == segment_net_ids@[segment_index as int]
                &&& forall|i: int| 0 <= i < segment_net_ids@.len() && segment_net_ids@[i] == segment_net_ids@[segment_index as int]
                    ==> final(self).segments@.contains(i as usize)
                &&& forall|k: int, l: int| 0 <= k < l < final(self).segments@.len() ==> #[trigger] final(self).segments@[k]
                    < #[trigger] final(self).segments@[l]
                &&& final(self).net_label == last_label_named(label_names@, trim_ws(segment_nets@[segment_index as int]@))
                &&& final(self).junction is None && final(self).no_connect is None && final(self).power_symbol is None
                &&& final(self).text_item is None && final(self).bus is None && final(self).erc_marker is None
            },
    {
        if segment_index >= segment_net_ids.len() {
            return;
        }
        let net_id = segment_net_ids[segment_index];
        let net_name = crate::text::trim(segment_nets[segment_index].as_str());
        self.clear_selection();
        self.segments = crate::connectivity::segment_indices_for_net_id(net_id, segment_net_ids);
        self.primary_segment = Some(segment_index);
        let mut found: Option<usize> = None;
        let mut i: usize = 0;
        while i < label_names.len()
            invariant
                i <= label_names@.len(),
                net_name@ == trim_ws(segment_nets@[segment_index as int]@),
                found == last_label_named(label_names@.subrange(0, i as int), net_name@),
            decreases label_names@.len() - i,
        {
            proof {
                assert(label_names@.subrange(0, i + 1).drop_last() =~= label_names@.subrange(0, i as int));
            }
            if crate::text::str_eq(crate::text::trim(label_names[i].as_str()), net_name) {
                found = Some(i);
            }
            i = i + 1;
        }
        proof {
            assert(label_names@.subrange(0, label_names@.len() as int) =~= label_names@);
        }
        self.net_label = found;
    }

    /// Selects what an ERC violation points at: its symbol (made primary)
    /// and the wires of its net (one of them primary). Returns whether the
    /// view should zoom to fit: for a violation at a symbol, or one with a
    /// canvas marker.
    pub fn focus_violation(
        &mut self,
        instance_ref: Option<&str>,
        net_name: Option<&str>,
        segment_nets: &[String],
        marker_exists: bool,
    ) -> (zoom: bool)
        ensures
            zoom == (instance_ref is Some || marker_exists),
            match instance_ref {
                Some(r) => texts_view(final(self).syms@) == seq![r@] && (final(self).primary_sym matches Some(p)
                    && p@ == r@),
                None => final(self).syms@.len() == 0 && final(self).primary_sym is None,
            },
            forall|k: int| 0 <= k < final(self).segments@.len() ==> (#[trigger] final(self).segments@[k]
                < segment_nets@.len() && net_name is Some && trim_ws(net_name->0@).len() > 0 && trim_ws(
                segment_nets@[final(self).segments@[k] as int]@,
            ) == trim_ws(net_name->0@)),
            forall|i: int|
                0 <= i < segment_nets@.len() && net_name is Some && trim_ws(net_name->0@).len() > 0 && trim_ws(
                    segment_nets@[i]@,
                ) == trim_ws(net_name->0@) ==> final(self).segments@.contains(i as usize),
            forall|k: int, l: int| 0 <= k < l < final(self).segments@.len() ==> #[trigger] final(self).segments@[k]
                < #[trigger] final(self).segments@[l],
            final(self).segments@.len() > 0 ==> (final(self).primary_segment matches Some(p)
                && final(self).segments@.contains(p)),
            final(self).segments@.len() == 0 ==> final(self).primary_segment is None,
            final(self).net_label is None && final(self).junction is None && final(self).no_connect is None,
            final(self).power_symbol is None && final(self).text_item is None && final(self).bus is None,
            final(self).erc_marker is None,
    {
        self.clear_selection();
        let mut zoom = marker_exists;
        if let Some(r) = instance_ref {
            self.syms.push(String::from_str(r));
            self.primary_sym = Some(String::from_str(r));
            zoom = true;
            proof {
                assert(texts_view(self.syms@) =~= seq![r@]);
            }
        }
        if let Some(net) = net_name {
            let idx = crate::connectivity::segment_indices_for_net(net, segment_nets, &[]);
            if idx.len() > 0 {
                self.primary_segment = Some(idx[0]);
                assert(idx@.contains(idx@[0]));
            }
            self.segments = idx;
        }
        zoom
    }

    /// Prepares a rotation: with no symbols selected the primary symbol is
    /// selected; `false` when there is nothing to rotate.
    pub fn rotation_targets(&mut self) -> (r: bool)
        ensures
            r == (old(self).syms@.len() > 0 || old(self).primary_sym is Some),
            old(self).syms@.len() == 0 && old(self).primary_sym is Some ==> texts_view(final(self).syms@) == seq![
                old(self).primary_sym->0@,
            ] && final(self).primary_sym == old(self).primary_sym,
            !(old(self).syms@.len() == 0 && old(self).primary_sym is Some) ==> *final(self) == *old(self),
    {
        if self.syms.len() == 0 {
            match &self.primary_sym {
                Some(rd) => {
                    let r = rd.clone();
                    self.syms.push(r);
                    proof {
                        assert(texts_view(self.syms@) =~= seq![old(self).primary_sym->0@]);
                    }
                    true
                },
                None => false,
            }
        } else {
            true
        }
    }
}

} // verus!
