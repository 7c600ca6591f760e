//! Wires drawn for a design that has a stored netlist but no schematic
//! document yet: on each net, the pins of distinct instances are chained
//! one to the next.

use vstd::prelude::*;
use vstd::string::StringExecFns;

verus! {

/// A wire between two instance pins on one net: designator and pin of
/// each end, and the net's name.
pub struct PinLink {
    pub a: String,
    pub a_pin: String,
    pub b: String,
    pub b_pin: String,
    pub net: String,
}

/// The texts of a link: both designators and pins, and the net name.
pub open spec fn link_view(l: PinLink) -> (Seq<char>, Seq<char>, Seq<char>, Seq<char>, Seq<char>) {
    (l.a@, l.a_pin@, l.b@, l.b_pin@, l.net@)
}

/// The texts of a list of links.
pub open spec fn links_view(v: Seq<PinLink>) -> Seq<(Seq<char>, Seq<char>, Seq<char>, Seq<char>, Seq<char>)> {
    v.map_values(|l: PinLink| link_view(l))
}

/// The name a table gives an id: its last entry for that id, as a map
/// built from the table in order keeps it.
pub open spec fn last_name(table: Seq<(u128, String)>, id: u128) -> Option<Seq<char>>
    decreases table.len(),
{
    if table.len() == 0 {
        None
    } else if table.last().0 == id {
        Some(table.last().1@)
    } else {
        last_name(table.drop_last(), id)
    }
}

/// The nets of the pins `(net, instance, pin)`, each once, in the order
/// of their first pin.
pub open spec fn net_order(pins: Seq<(u128, u128, String)>) -> Seq<u128>
    decreases pins.len(),
{
    if pins.len() == 0 {
        Seq::empty()
    } else {
        let r = net_order(pins.drop_last());
        if r.contains(pins.last().0) {
            r
        } else {
            r.push(pins.last().0)
        }
    }
}

/// Whether an instance already has a pin in the chain.
pub open spec fn has_instance(u: Seq<(u128, Seq<char>)>, inst: u128) -> bool {
    exists|k: int| 0 <= k < u.len() && #[trigger] u[k].0 == inst
}

/// The chain of a net: of its pins, the first of each instance, as
/// `(instance, pin)`, in order.
pub open spec fn net_chain(pins: Seq<(u128, u128, String)>, net: u128) -> Seq<(u128, Seq<char>)>
    decreases pins.len(),
{
    if pins.len() == 0 {
        Seq::empty()
    } else {
        let r = net_chain(pins.drop_last(), net);
        let p = pins.last();
        if p.0 == net && !has_instance(r, p.1) {
            r.push((p.1, p.2@))
        } else {
            r
        }
    }
}

/// Links between neighbours of a chain, for each pair whose two instances
/// both have a designator.
pub open spec fn chain_links(u: Seq<(u128, Seq<char>)>, insts: Seq<(u128, String)>, net: Seq<char>) -> Seq<
    (Seq<char>, Seq<char>, Seq<char>, Seq<char>, Seq<char>),
>
    decreases u.len(),
{
    if u.len() < 2 {
        Seq::empty()
    } else {
        let r = chain_links(u.drop_last(), insts, net);
        let a = u[u.len() - 2];
        let b = u.last();
        match (last_name(insts, a.0), last_name(insts, b.0)) {
            (Some(ra), Some(rb)) => r.push((ra, a.1, rb, b.1, net)),
            _ => r,
        }
    }
}

/// The name of a net, or `NET` when the net table does not name it.
pub open spec fn net_label(nets: Seq<(u128, String)>, net: u128) -> Seq<char> {
    match last_name(nets, net) {
        Some(n) => n,
        None => "NET"@,
    }
}

/// The links of the nets in `order`, net after net.
pub open spec fn links_of_nets(
    pins: Seq<(u128, u128, String)>,
    nets: Seq<(u128, String)>,
    insts: Seq<(u128, String)>,
    order: Seq<u128>,
) -> Seq<(Seq<char>, Seq<char>, Seq<char>, Seq<char>, Seq<char>)>
    decreases order.len(),
{
    if order.len() == 0 {
        Seq::empty()
    } else {
        links_of_nets(pins, nets, insts, order.drop_last()) + chain_links(
            net_chain(pins, order.last()),
            insts,
            net_label(nets, order.last()),
        )
    }
}

/// The texts of a chain.
pub open spec fn chain_view(v: Seq<(u128, String)>) -> Seq<(u128, Seq<char>)> {
    v.map_values(|p: (u128, String)| (p.0, p.1@))
}

/// The name a table gives an id, the last entry for it winning.
fn find_last_name(table: &[(u128, String)], id: u128) -> (r: Option<String>)
    ensures
        r matches Some(s) ==> last_name(table@, id) == Some(s@),
        r is None ==> last_name(table@, id) is None,
{
    let mut i = table.len();
    assert(table@.subrange(0, i as int) =~= table@);
    while i > 0
        invariant
            i <= table@.len(),
            last_name(table@, id) == last_name(table@.subrange(0, i as int), id),
        decreases i,
    {
        let ghost sub = table@.subrange(0, i as int);
        assert(sub.drop_last() =~= table@.subrange(0, i - 1));
        assert(sub.last() == table@[i - 1]);
        i = i - 1;
        if table[i].0 == id {
            return Some(table[i].1.clone());
        }
    }
    None
}

fn contains_id(v: &Vec<u128>, x: u128) -> (r: bool)
    ensures
        r == v@.contains(x),
{
    let mut k: usize = 0;
    while k < v.len()
        invariant
            k <= v@.len(),
            forall|j: int| 0 <= j < k ==> v@[j] != x,
        decreases v@.len() - k,
    {
        if v[k] == x {
            assert(v@[k as int] == x);
            return true;
        }
        k = k + 1;
    }
    false
}

fn nets_in_order(pins: &[(u128, u128, String)]) -> (r: Vec<u128>)
    ensures
        r@ == net_order(pins@),
{
    let mut r: Vec<u128> = Vec::new();
    let mut i: usize = 0;
    while i < pins.len()
        invariant
            i <= pins@.len(),
            r@ == net_order(pins@.subrange(0, i as int)),
        decreases pins@.len() - i,
    {
        let ghost sub = pins@.subrange(0, i + 1);
        assert(sub.drop_last() =~= pins@.subrange(0, i as int));
        assert(sub.last() == pins@[i as int]);
        let n = pins[i].0;
        if !contains_id(&r, n) {
            r.push(n);
        }
        i = i + 1;
    }
    assert(pins@.subrange(0, pins@.len() as int) =~= pins@);
    r
}

fn has_instance_exec(u: &Vec<(u128, String)>, inst: u128) -> (r: bool)
    ensures
        r == has_instance(chain_view(u@), inst),
{
    let mut k: usize = 0;
    while k < u.len()
        invariant
            k <= u@.len(),
            forall|j: int| 0 <= j < k ==> u@[j].0 != inst,
        decreases u@.len() - k,
    {
        if u[k].0 == inst {
            assert(chain_view(u@)[k as int].0 == inst);
            return true;
        }
        k = k + 1;
    }
    proof {
        if has_instance(chain_view(u@), inst) {
            let j = choose|j: int| 0 <= j < chain_view(u@).len() && #[trigger] chain_view(u@)[j].0 == inst;
            assert(u@[j].0 == inst);
        }
    }
    false
}

fn chain_of_net(pins: &[(u128, u128, String)], net: u128) -> (r: Vec<(u128, String)>)
    ensures
        chain_view(r@) == net_chain(pins@, net),
{
    let mut r: Vec<(u128, String)> = Vec::new();
    let mut i: usize = 0;
    while i < pins.len()
        invariant
            i <= pins@.len(),
            chain_view(r@) == net_chain(pins@.subrange(0, i as int), net),
        decreases pins@.len() - i,
    {
        let ghost sub = pins@.subrange(0, i + 1);
        assert(sub.drop_last() =~= pins@.subrange(0, i as int));
        assert(sub.last() == pins@[i as int]);
        if pins[i].0 == net && !has_instance_exec(&r, pins[i].1) {
            let ghost before = chain_view(r@);
            r.push((pins[i].1, pins[i].2.clone()));
            assert(chain_view(r@) =~= before.push((pins@[i as int].1, pins@[i as int].2@)));
        }
        i = i + 1;
    }
    assert(pins@.subrange(0, pins@.len() as int) =~= pins@);
    r
}

fn links_of_chain(u: &Vec<(u128, String)>, insts: &[(u128, String)], net: &str) -> (r: Vec<PinLink>)
    ensures
        links_view(r@) == chain_links(chain_view(u@), insts@, net@),
{
    let mut r: Vec<PinLink> = Vec::new();
    let ghost cv = chain_view(u@);
    if u.len() < 2 {
        assert(links_view(r@) =~= Seq::empty());
        return r;
    }
    let mut k: usize = 1;
    assert(links_view(r@) =~= chain_links(cv.subrange(0, 1), insts@, net@));
    while k < u.len()
        invariant
            1 <= k <= u@.len(),
            cv == chain_view(u@),
            links_view(r@) == chain_links(cv.subrange(0, k as int), insts@, net@),
        decreases u@.len() - k,
    {
        let ghost sub = cv.subrange(0, k + 1);
        assert(sub.drop_last() =~= cv.subrange(0, k as int));
        assert(sub[sub.len() - 2] == cv[k - 1]);
        assert(sub.last() == cv[k as int]);
        let ghost before = links_view(r@);
        let ra = find_last_name(insts, u[k - 1].0);
        let rb = find_last_name(insts, u[k].0);
        match (ra, rb) {
            (Some(a), Some(b)) => {
                let l = PinLink {
                    a,
                    a_pin: u[k - 1].1.clone(),
                    b,
                    b_pin: u[k].1.clone(),
                    net: String::from_str(net),
                };
                let ghost lv = link_view(l);
                r.push(l);
                assert(links_view(r@) =~= before.push(lv));
            },
            _ => {},
        }
        k = k + 1;
    }
    assert(cv.subrange(0, u@.len() as int) =~= cv);
    r
}

/// Wires for a stored netlist: for each net, in the order of its first
/// pin, the pins `(net, instance, pin)` on it are taken in order, one per
/// instance (its first), and each is linked to the next when both
/// instances have a designator in `instances`. Net and instance ids are
/// named by the last entry of `nets` and `instances` for them; a net
/// without a name is called `NET`.
pub fn links_from_netlist(
    pins: &[(u128, u128, String)],
    nets: &[(u128, String)],
    instances: &[(u128, String)],
) -> (r: Vec<PinLink>)
    ensures
        links_view(r@) == links_of_nets(pins@, nets@, instances@, net_order(pins@)),
{
    let order = nets_in_order(pins);
    let mut r: Vec<PinLink> = Vec::new();
    let mut i: usize = 0;
    while i < order.len()
        invariant
            i <= order@.len(),
            order@ == net_order(pins@),
            links_view(r@) == links_of_nets(pins@, nets@, instances@, order@.subrange(0, i as int)),
        decreases order@.len() - i,
    {
        let ghost sub = order@.subrange(0, i + 1);
        assert(sub.drop_last() =~= order@.subrange(0, i as int));
        assert(sub.last() == order@[i as int]);
        let n = order[i];
        let label = match find_last_name(nets, n) {
            Some(s) => s,
            None => String::from_str("NET"),
        };
        proof {
            reveal_strlit("NET");
        }
        assert(label@ == net_label(nets@, n));
        let chain = chain_of_net(pins, n);
        let mut links = links_of_chain(&chain, instances, label.as_str());
        let ghost before = links_view(r@);
        let ghost added = links_view(links@);
        r.append(&mut links);
        assert(links_view(r@) =~= before + added);
        i = i + 1;
    }
    assert(order@.subrange(0, order@.len() as int) =~= order@);
    r
}

/// A net's chain holds one pin per instance, each a pin of that net: no
/// instance occurs twice, and every entry comes from a pin on the net.
pub proof fn law_chain_one_pin_per_instance(pins: Seq<(u128, u128, String)>, net: u128)
    ensures
        forall|i: int, j: int| 0 <= i < j < net_chain(pins, net).len()
            ==> #[trigger] net_chain(pins, net)[i].0 != #[trigger] net_chain(pins, net)[j].0,
        forall|i: int| 0 <= i < net_chain(pins, net).len() ==> exists|k: int| 0 <= k < pins.len()
            && pins[k].0 == net && pins[k].1 == #[trigger] net_chain(pins, net)[i].0
            && pins[k].2@ == net_chain(pins, net)[i].1,
    decreases pins.len(),
{
    if pins.len() > 0 {
        let rest = pins.drop_last();
        law_chain_one_pin_per_instance(rest, net);
        let r = net_chain(rest, net);
        let c = net_chain(pins, net);
        let p = pins.last();
        assert forall|i: int| 0 <= i < c.len() implies exists|k: int| 0 <= k < pins.len()
            && pins[k].0 == net && pins[k].1 == #[trigger] c[i].0 && pins[k].2@ == c[i].1 by {
            if i < r.len() {
                assert(c[i] == r[i]);
                let k = choose|k: int| 0 <= k < rest.len() && rest[k].0 == net && rest[k].1 == #[trigger] r[i].0
                    && rest[k].2@ == r[i].1;
                assert(pins[k] == rest[k]);
            } else {
                assert(pins[pins.len() - 1] == p);
            }
        }
        assert forall|i: int, j: int| 0 <= i < j < c.len() implies #[trigger] c[i].0 != #[trigger] c[j].0 by {
            if j >= r.len() {
                assert(c[i] == r[i]);
                if r[i].0 == p.1 {
                    assert(has_instance(r, p.1));
                }
            } else {
                assert(c[i] == r[i] && c[j] == r[j]);
            }
        }
    }
}

} // verus!
