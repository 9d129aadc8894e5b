//! Graph nodes: the nodes that the daemon reports as live, numbered in dump
//! order, each with the subnets it announces.

use crate::tinc_tcp_stream::{SourceNode, SourceNodeView, SourceSubnet, SourceSubnetView};
use vstd::prelude::*;

verus! {

/// Whether `c` is a hexadecimal digit: `0`-`9`, `a`-`f` or `A`-`F`.
pub open spec fn is_hex_digit(c: char) -> bool {
    ('0' <= c && c <= '9') || ('a' <= c && c <= 'f') || ('A' <= c && c <= 'F')
}

/// The value of one hexadecimal digit, in either case. A character that is
/// no hexadecimal digit stands for a zero digit.
pub open spec fn hex_digit_value(c: char) -> nat {
    if '0' <= c && c <= '9' {
        (c as u32 - '0' as u32) as nat
    } else if 'a' <= c && c <= 'f' {
        (c as u32 - 'a' as u32 + 10) as nat
    } else if 'A' <= c && c <= 'F' {
        (c as u32 - 'A' as u32 + 10) as nat
    } else {
        0
    }
}

/// Whether `c` takes up a digit position. Characters outside ASCII are
/// passed over as if they were not there.
pub open spec fn takes_position(c: char) -> bool {
    (c as u32) < 0x80
}

/// The number that `s` writes in hexadecimal, most significant digit first.
pub open spec fn hex_value(s: Seq<char>) -> nat
    decreases s.len(),
{
    if s.len() == 0 {
        0
    } else if takes_position(s.last()) {
        hex_value(s.drop_last()) * 16 + hex_digit_value(s.last())
    } else {
        hex_value(s.drop_last())
    }
}

/// The 32-bit status word that `s` decodes to: the low 32 bits of its value.
pub open spec fn status_word(s: Seq<char>) -> u32 {
    (hex_value(s) % 0x1_0000_0000) as u32
}

/// The liveness bit is bit 4 of the status word.
pub open spec fn is_live(status: Seq<char>) -> bool {
    status_word(status) & 0x10 == 0x10
}

fn hex_digit(c: char) -> (r: Option<u32>)
    ensures
        r is Some <==> takes_position(c),
        r matches Some(d) ==> d == hex_digit_value(c) && d < 16,
{
    let code: u32 = c as u32;
    if code >= 0x80 {
        None
    } else if 48 <= code && code <= 57 {
        Some(code - 48)
    } else if 97 <= code && code <= 102 {
        Some(code - 97 + 10)
    } else if 65 <= code && code <= 70 {
        Some(code - 65 + 10)
    } else {
        Some(0)
    }
}

/// Decodes a hexadecimal string to its status word.
pub fn hex_str_to_dec(hex: &str) -> (out: u32)
    ensures
        out == status_word(hex@),
{
    let mut out: u32 = 0;
    for c in it: hex.chars()
        invariant
            it.seq() == hex@,
            out == status_word(hex@.take(it.index() as int)),
    {
        let ghost k = it.index() as int;
        assert(hex@.take(k + 1).drop_last() =~= hex@.take(k));
        if let Some(d) = hex_digit(c) {
            let wide: u64 = out as u64 * 16 + d as u64;
            proof {
                let v = hex_value(hex@.take(k));
                assert((v % 0x1_0000_0000 * 16 + d) % 0x1_0000_0000 == (v * 16 + d) % 0x1_0000_0000)
                    by (nonlinear_arith);
            }
            out = (wide % 0x1_0000_0000) as u32;
        }
    }
    assert(hex@.take(hex@.len() as int) =~= hex@);
    out
}

/// A node of the graph.
#[derive(Clone, Debug)]
pub struct Node {
    pub index: u32,
    pub edges: u32,
    pub reachable: i32,
    pub name: String,
    pub version: u8,
    pub group: u8,
    pub nets: Vec<String>,
    pub id: u32,
}

/// A node as contracts speak of it: numbers without bounds, texts as
/// sequences of characters.
pub ghost struct NodeView {
    pub index: nat,
    pub edges: nat,
    pub reachable: int,
    pub name: Seq<char>,
    pub version: nat,
    pub group: nat,
    pub nets: Seq<Seq<char>>,
    pub id: nat,
}

impl View for Node {
    type V = NodeView;

    open spec fn view(&self) -> NodeView {
        NodeView {
            index: self.index as nat,
            edges: self.edges as nat,
            reachable: self.reachable as int,
            name: self.name@,
            version: self.version as nat,
            group: self.group as nat,
            nets: self.nets.deep_view(),
            id: self.id as nat,
        }
    }
}

impl DeepView for Node {
    type V = NodeView;

    open spec fn deep_view(&self) -> NodeView {
        self@
    }
}

/// The node at `position` (counted from zero) among the live nodes: numbered
/// from one, with no links counted yet.
pub open spec fn placed_node(position: int, name: Seq<char>, nets: Seq<Seq<char>>) -> NodeView {
    NodeView {
        index: (position + 1) as nat,
        edges: 0,
        reachable: 1,
        name,
        version: 0,
        group: 0,
        nets,
        id: (position + 1) as nat,
    }
}

/// A live node before it has a place in the graph.
pub open spec fn unplaced_node(name: Seq<char>) -> NodeView {
    NodeView {
        index: 0,
        edges: 0,
        reachable: 1,
        name,
        version: 0,
        group: 0,
        nets: Seq::empty(),
        id: 0,
    }
}

/// The test that a dump record passes when its liveness bit is set.
pub open spec fn live_record() -> spec_fn(SourceNodeView) -> bool {
    |r: SourceNodeView| is_live(r.status_int)
}

/// The test that a subnet passes when `owner` announces it.
pub open spec fn announced_by(owner: Seq<char>) -> spec_fn(SourceSubnetView) -> bool {
    |s: SourceSubnetView| s.name == owner
}

/// The records of the dump whose liveness bit is set, in dump order.
pub open spec fn live_records(raw: Seq<SourceNodeView>) -> Seq<SourceNodeView> {
    raw.filter(live_record())
}

/// The addresses that `owner` announces, in the order they were announced.
pub open spec fn subnets_of(subnets: Seq<SourceSubnetView>, owner: Seq<char>) -> Seq<Seq<char>> {
    subnets.filter(announced_by(owner)).map_values(|s: SourceSubnetView| s.addr)
}

/// The nodes of the graph: one per live record, in dump order, numbered
/// 1, 2, 3, ... and carrying the subnets announced under its name.
pub open spec fn graph_nodes(
    raw: Seq<SourceNodeView>,
    subnets: Seq<SourceSubnetView>,
) -> Seq<NodeView> {
    let live = live_records(raw);
    Seq::new(live.len(), |i: int| placed_node(i, live[i].node, subnets_of(subnets, live[i].node)))
}

/// Sixteen to the power `n`.
pub open spec fn pow16(n: nat) -> nat
    decreases n,
{
    if n == 0 {
        1
    } else {
        16 * pow16((n - 1) as nat)
    }
}

/// A string of `n` characters writes a number below `16^n`, so a status of
/// up to eight characters decodes to its value, with nothing cut off.
pub proof fn lemma_short_status_is_its_value(status: Seq<char>)
    requires
        status.len() <= 8,
    ensures
        hex_value(status) < pow16(status.len()),
        status_word(status) == hex_value(status),
{
    lemma_hex_value_bound(status);
    reveal_with_fuel(pow16, 9);
    lemma_pow16_grows(status.len(), 8);
}

proof fn lemma_pow16_grows(m: nat, n: nat)
    requires
        m <= n,
    ensures
        1 <= pow16(m) <= pow16(n),
    decreases n,
{
    if n > 0 {
        if m < n {
            lemma_pow16_grows(m, (n - 1) as nat);
        } else {
            lemma_pow16_grows((m - 1) as nat, (n - 1) as nat);
        }
    }
}

proof fn lemma_hex_value_bound(s: Seq<char>)
    ensures
        hex_value(s) < pow16(s.len()),
    decreases s.len(),
{
    if s.len() > 0 {
        lemma_hex_value_bound(s.drop_last());
        lemma_pow16_grows((s.len() - 1) as nat, s.len());
    }
}

/// A status is live exactly when the sixteens digit of its value is odd:
/// testing bit 4 of the status word is testing bit 4 of the decoded number.
pub proof fn lemma_liveness_is_bit_four(status: Seq<char>)
    ensures
        is_live(status) <==> (hex_value(status) / 16) % 2 == 1,
{
    let v = hex_value(status);
    let w = status_word(status);
    assert((w & 0x10 == 0x10) <==> (w / 16) % 2 == 1) by (bit_vector);
    assert(((v % 0x1_0000_0000) / 16) % 2 == (v / 16) % 2) by (nonlinear_arith);
}

/// The graph has one node for each live record of the dump, in dump order,
/// and numbers them 1, 2, 3, ... without a gap.
pub proof fn lemma_nodes_numbered_in_dump_order(
    raw: Seq<SourceNodeView>,
    subnets: Seq<SourceSubnetView>,
)
    ensures
        graph_nodes(raw, subnets).len() == live_records(raw).len(),
        live_records(raw).len() <= raw.len(),
        forall|i: int|
            0 <= i < live_records(raw).len() ==> {
                let node = #[trigger] graph_nodes(raw, subnets)[i];
                &&& node.index == i + 1
                &&& node.id == i + 1
                &&& node.name == live_records(raw)[i].node
                &&& node.nets == subnets_of(subnets, node.name)
                &&& node.edges == 0
            },
        forall|i: int|
            0 <= i < live_records(raw).len() ==> is_live(
                (#[trigger] live_records(raw)[i]).status_int,
            ),
{
    raw.lemma_filter_len(live_record());
    assert forall|i: int| 0 <= i < live_records(raw).len() implies is_live(
        (#[trigger] live_records(raw)[i]).status_int,
    ) by {
        raw.lemma_filter_pred(live_record(), i);
    }
}

/// The places in the dump of the records whose liveness bit is set, in
/// rising order.
pub open spec fn live_positions(raw: Seq<SourceNodeView>) -> Seq<int>
    decreases raw.len(),
{
    if raw.len() == 0 {
        Seq::empty()
    } else {
        let before = live_positions(raw.drop_last());
        if is_live(raw.last().status_int) {
            before.push(raw.len() - 1)
        } else {
            before
        }
    }
}

/// The live records are the records at the live places: every place of a
/// live record is among them, once, and they rise.
pub proof fn lemma_live_positions(raw: Seq<SourceNodeView>)
    ensures
        live_positions(raw).len() == live_records(raw).len(),
        forall|k: int|
            0 <= k < live_positions(raw).len() ==> {
                let p = #[trigger] live_positions(raw)[k];
                &&& 0 <= p < raw.len()
                &&& is_live(raw[p].status_int)
                &&& live_records(raw)[k] == raw[p]
            },
        forall|j: int, k: int|
            0 <= j < k < live_positions(raw).len() ==> live_positions(raw)[j] < live_positions(
                raw,
            )[k],
        forall|i: int|
            0 <= i < raw.len() && is_live(#[trigger] raw[i].status_int) ==> live_positions(
                raw,
            ).contains(i),
    decreases raw.len(),
{
    reveal(Seq::filter);
    if raw.len() > 0 {
        let rest = raw.drop_last();
        let before = live_positions(rest);
        let places = live_positions(raw);
        lemma_live_positions(rest);
        assert forall|k: int| 0 <= k < places.len() implies {
            let p = #[trigger] places[k];
            &&& 0 <= p < raw.len()
            &&& is_live(raw[p].status_int)
            &&& live_records(raw)[k] == raw[p]
        } by {
            if k < before.len() {
                assert(places[k] == before[k]);
                assert(rest[before[k]] == raw[before[k]]);
                assert(live_records(raw)[k] == live_records(rest)[k]);
            }
        }
        assert forall|j: int, k: int| 0 <= j < k < places.len() implies places[j] < places[k] by {
            assert(places[j] == before[j]);
            if k < before.len() {
                assert(places[k] == before[k]);
            }
        }
        assert forall|i: int|
            0 <= i < raw.len() && is_live(#[trigger] raw[i].status_int) implies places.contains(
            i,
        ) by {
            if i < rest.len() {
                assert(rest[i] == raw[i]);
                assert(before.contains(i));
                let k = choose|k: int| 0 <= k < before.len() && before[k] == i;
                assert(places[k] == i);
            } else {
                assert(places[places.len() - 1] == i);
            }
        }
    }
}

/// The nodes of the graph are the live records of the dump and no others,
/// in the order of the dump: the node numbered `k + 1` bears the name of the
/// record at the `k`-th live place.
pub proof fn lemma_nodes_follow_the_dump(raw: Seq<SourceNodeView>, subnets: Seq<SourceSubnetView>)
    ensures
        graph_nodes(raw, subnets).len() == live_positions(raw).len(),
        forall|k: int|
            0 <= k < live_positions(raw).len() ==> {
                let node = #[trigger] graph_nodes(raw, subnets)[k];
                &&& node.index == k + 1
                &&& node.id == node.index
                &&& node.name == raw[live_positions(raw)[k]].node
            },
{
    lemma_live_positions(raw);
    assert forall|k: int| 0 <= k < live_positions(raw).len() implies {
        let node = #[trigger] graph_nodes(raw, subnets)[k];
        &&& node.index == k + 1
        &&& node.id == node.index
        &&& node.name == raw[live_positions(raw)[k]].node
    } by {
        let p = live_positions(raw)[k];
        assert(live_records(raw)[k] == raw[p]);
    }
}

/// Collects the addresses announced under `owner`.
pub fn collect_subnets(subnets: &Vec<SourceSubnet>, owner: &String) -> (nets: Vec<String>)
    ensures
        nets.deep_view() == subnets_of(subnets.deep_view(), owner@),
{
    let mut nets: Vec<String> = Vec::new();
    let ghost all = subnets.deep_view();
    assert(all.take(0).filter(announced_by(owner@)) =~= Seq::empty()) by {
        reveal(Seq::filter);
    }
    for i in 0..subnets.len()
        invariant
            all == subnets.deep_view(),
            nets.deep_view() =~= subnets_of(all.take(i as int), owner@),
    {
        proof {
            assert(all.take(i + 1) =~= all.take(i as int).push(all[i as int]));
            all.take(i as int).lemma_filter_push(all[i as int], announced_by(owner@));
        }
        let ghost before = nets.deep_view();
        assert(all[i as int] == subnets@[i as int]@);
        if subnets[i].name == *owner {
            nets.push(subnets[i].addr.clone());
            assert(nets.deep_view() =~= before.push(all[i as int].addr));
        }
    }
    assert(all.take(all.len() as int) =~= all);
    nets
}

impl Node {
    /// Makes a node of a dump record, if the record's liveness bit is set.
    pub fn from(source_node: &SourceNode) -> (r: Option<Node>)
        ensures
            r is Some <==> is_live(source_node.status_int@),
            r matches Some(node) ==> node@ == unplaced_node(source_node.node@),
    {
        let status: u32 = hex_str_to_dec(source_node.status_int.as_str());
        let reachable: u32 = (status >> 4) & 1;
        assert(reachable <= 1 && (reachable != 0 <==> status & 0x10 == 0x10)) by (bit_vector)
            requires
                reachable == (status >> 4) & 1,
        ;
        if reachable != 0 {
            let node = Node {
                index: 0,
                edges: 0,
                reachable: reachable as i32,
                version: 0,
                name: source_node.node.clone(),
                group: 0,
                nets: Vec::new(),
                id: 0,
            };
            assert(node@.nets =~= Seq::empty());
            return Some(node);
        }
        None
    }

    /// Builds the nodes of the graph from the node dump and the subnet dump.
    pub fn load_nodes(
        source_nodes: Vec<SourceNode>,
        source_subnets: Vec<SourceSubnet>,
    ) -> (nodes: Vec<Node>)
        requires
            live_records(source_nodes.deep_view()).len() <= u32::MAX,
        ensures
            nodes.deep_view() == graph_nodes(source_nodes.deep_view(), source_subnets.deep_view()),
    {
        let mut nodes: Vec<Node> = Vec::new();
        let mut index: u32 = 0;
        let ghost raw = source_nodes.deep_view();
        let ghost subnets = source_subnets.deep_view();
        assert(live_records(raw.take(0)) =~= Seq::empty()) by {
            reveal(Seq::filter);
        }
        for i in 0..source_nodes.len()
            invariant
                raw == source_nodes.deep_view(),
                subnets == source_subnets.deep_view(),
                live_records(raw).len() <= u32::MAX,
                index == nodes.len(),
                nodes.deep_view() =~= graph_nodes(raw.take(i as int), subnets),
        {
            proof {
                assert(raw.take(i + 1) =~= raw.take(i as int).push(raw[i as int]));
                raw.take(i as int).lemma_filter_push(raw[i as int], live_record());
                raw.lemma_filter_take_len(live_record(), i + 1);
            }
            let ghost before = nodes.deep_view();
            assert(before.len() == live_records(raw.take(i as int)).len());
            assert(raw[i as int] == source_nodes@[i as int]@);
            if let Some(mut node) = Node::from(&source_nodes[i]) {
                index += 1;
                node.id = index;
                node.index = index;
                node.nets = collect_subnets(&source_subnets, &node.name);
                nodes.push(node);
                assert(nodes.deep_view() =~= before.push(node@));
            }
        }
        assert(raw.take(raw.len() as int) =~= raw);
        nodes
    }
}

} // verus!
