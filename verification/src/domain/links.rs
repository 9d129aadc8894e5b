//! Graph links: the edges of the dump, resolved against the graph's nodes and
//! kept once per pair of nodes.

use crate::decimal::{decimal, parse_unsigned, to_decimal, unsigned_value};
use crate::domain::nodes::{Node, NodeView};
use crate::tinc_tcp_stream::{SourceEdge, SourceEdgeView};
use vstd::prelude::*;

verus! {

/// The weight of an edge whose weight field is not a number.
pub const DEFAULT_WEIGHT: u32 = 1000;

/// A fraction of two integers, `numer / denom`.
#[derive(Clone, Copy, Debug, PartialEq, Eq)]
pub struct Fraction {
    pub numer: u32,
    pub denom: u32,
}

/// A fraction as contracts speak of it.
pub ghost struct Ratio {
    pub numer: nat,
    pub denom: nat,
}

impl Ratio {
    /// A ratio that lies between zero and one.
    pub open spec fn in_unit_interval(self) -> bool {
        self.numer <= self.denom && self.denom >= 1
    }
}

impl View for Fraction {
    type V = Ratio;

    open spec fn view(&self) -> Ratio {
        Ratio { numer: self.numer as nat, denom: self.denom as nat }
    }
}

/// A link of the graph.
#[derive(Clone, Debug)]
pub struct Link {
    pub sname: String,
    pub tname: String,
    pub frac: Fraction,
    pub target: u32,
    pub weight: u32,
    pub source: u32,
    pub reachable: u8,
    pub _hash: String,
}

/// A link as contracts speak of it: numbers without bounds, texts as
/// sequences of characters.
pub ghost struct LinkView {
    pub sname: Seq<char>,
    pub tname: Seq<char>,
    pub frac: Ratio,
    pub target: nat,
    pub weight: nat,
    pub source: nat,
    pub reachable: nat,
    pub hash: Seq<char>,
}

impl View for Link {
    type V = LinkView;

    open spec fn view(&self) -> LinkView {
        LinkView {
            sname: self.sname@,
            tname: self.tname@,
            frac: self.frac@,
            target: self.target as nat,
            weight: self.weight as nat,
            source: self.source as nat,
            reachable: self.reachable as nat,
            hash: self._hash@,
        }
    }
}

impl DeepView for Link {
    type V = LinkView;

    open spec fn deep_view(&self) -> LinkView {
        self@
    }
}

/// The index under which each name is found: that of the last node that
/// bears the name.
pub open spec fn name_index(nodes: Seq<NodeView>) -> Map<Seq<char>, nat>
    decreases nodes.len(),
{
    if nodes.len() == 0 {
        Map::empty()
    } else {
        name_index(nodes.drop_last()).insert(nodes.last().name, nodes.last().index)
    }
}

/// The index that `name` resolves to; zero where no node bears the name.
pub open spec fn resolve(index: Map<Seq<char>, nat>, name: Seq<char>) -> nat {
    if index.dom().contains(name) {
        index[name]
    } else {
        0
    }
}

/// The weight that a weight field stands for.
pub open spec fn weight_of(text: Seq<char>) -> nat {
    match unsigned_value(text) {
        Some(w) => w as nat,
        None => DEFAULT_WEIGHT as nat,
    }
}

/// The key of a pair of indices: both in decimal, with a hyphen between.
pub open spec fn pair_key(source: nat, target: nat) -> Seq<char> {
    decimal(source) + seq!['-'] + decimal(target)
}

/// An edge is the second report of a link when both its ends resolve and it
/// runs from the higher index to the lower.
pub open spec fn is_second_report(source: nat, target: nat) -> bool {
    source != 0 && target != 0 && source > target
}

/// The link that an edge of the dump gives, if it gives one.
pub open spec fn link_of(edge: SourceEdgeView, index: Map<Seq<char>, nat>) -> Option<LinkView> {
    let source = resolve(index, edge.from);
    let target = resolve(index, edge.to);
    if is_second_report(source, target) {
        None
    } else {
        Some(
            LinkView {
                sname: edge.from,
                tname: edge.to,
                frac: Ratio { numer: 0, denom: 1 },
                target,
                weight: weight_of(edge.weight),
                source,
                reachable: if source != 0 && target != 0 {
                    1
                } else {
                    0
                },
                hash: pair_key(source, target),
            },
        )
    }
}

/// The rule that turns an edge of the dump into a link, or drops it.
pub open spec fn link_rule(
    index: Map<Seq<char>, nat>,
) -> spec_fn(SourceEdgeView) -> Option<LinkView> {
    |edge: SourceEdgeView| link_of(edge, index)
}

/// The links of the graph: those that the edges of the dump give, in dump
/// order.
pub open spec fn graph_links(
    edges: Seq<SourceEdgeView>,
    index: Map<Seq<char>, nat>,
) -> Seq<LinkView> {
    edges.filter_map(link_rule(index))
}

/// The test that a link passes when it starts at the node called `name`.
pub open spec fn starts_at(name: Seq<char>) -> spec_fn(LinkView) -> bool {
    |link: LinkView| link.sname == name
}

/// The number of links that start at the node called `name`.
pub open spec fn links_from(links: Seq<LinkView>, name: Seq<char>) -> nat {
    links.filter(starts_at(name)).len()
}

/// The node with its degree set to the number of links that start at it.
pub open spec fn with_degree(node: NodeView, links: Seq<LinkView>) -> NodeView {
    NodeView { edges: links_from(links, node.name), ..node }
}

/// The rule that sets a node's degree from the links.
pub open spec fn degree_rule(links: Seq<LinkView>) -> spec_fn(NodeView) -> NodeView {
    |node: NodeView| with_degree(node, links)
}

/// A name is in the index exactly when some node bears it, and then it
/// resolves to the index of a node that bears it.
pub proof fn lemma_name_index_holds_the_nodes(nodes: Seq<NodeView>, name: Seq<char>)
    ensures
        name_index(nodes).dom().contains(name) <==> exists|i: int|
            0 <= i < nodes.len() && (#[trigger] nodes[i]).name == name,
        name_index(nodes).dom().contains(name) ==> exists|i: int|
            0 <= i < nodes.len() && (#[trigger] nodes[i]).name == name && nodes[i].index
                == resolve(name_index(nodes), name),
    decreases nodes.len(),
{
    if nodes.len() > 0 {
        let rest = nodes.drop_last();
        lemma_name_index_holds_the_nodes(rest, name);
        if nodes.last().name == name {
            assert(nodes[nodes.len() - 1].name == name);
        } else if name_index(rest).dom().contains(name) {
            let i = choose|i: int|
                0 <= i < rest.len() && (#[trigger] rest[i]).name == name && rest[i].index
                    == resolve(name_index(rest), name);
            assert(nodes[i] == rest[i]);
        } else {
            assert forall|i: int| 0 <= i < nodes.len() implies (#[trigger] nodes[i]).name
                != name by {
                if i < rest.len() {
                    assert(nodes[i] == rest[i]);
                }
            }
        }
    }
}

/// An edge that names a node which is not in the index is never dropped: it
/// gives a link with index zero at that end, marked unreachable.
pub proof fn lemma_unresolved_edge_is_kept(edge: SourceEdgeView, index: Map<Seq<char>, nat>)
    requires
        !index.dom().contains(edge.from) || !index.dom().contains(edge.to),
    ensures
        link_of(edge, index) is Some,
        link_of(edge, index)->0.reachable == 0,
        !index.dom().contains(edge.from) ==> link_of(edge, index)->0.source == 0,
        !index.dom().contains(edge.to) ==> link_of(edge, index)->0.target == 0,
{
}

/// The test that an edge passes when one of its ends is not in the index.
pub open spec fn names_absent_node(index: Map<Seq<char>, nat>) -> spec_fn(SourceEdgeView) -> bool {
    |edge: SourceEdgeView| !index.dom().contains(edge.from) || !index.dom().contains(edge.to)
}

/// The test that a link passes when it is marked unreachable.
pub open spec fn unreachable_link() -> spec_fn(LinkView) -> bool {
    |link: LinkView| link.reachable == 0
}

/// The link that an edge gives; for edges that give one.
pub open spec fn kept_link(index: Map<Seq<char>, nat>) -> spec_fn(SourceEdgeView) -> LinkView {
    |edge: SourceEdgeView| link_of(edge, index)->0
}

/// Where every node is numbered from one, the index holds no zero.
pub proof fn lemma_numbered_nodes_resolve_from_one(nodes: Seq<NodeView>)
    requires
        forall|i: int| 0 <= i < nodes.len() ==> (#[trigger] nodes[i]).index >= 1,
    ensures
        forall|name: Seq<char>| #[trigger]
            name_index(nodes).dom().contains(name) ==> name_index(nodes)[name] >= 1,
{
    assert forall|name: Seq<char>| #[trigger]
        name_index(nodes).dom().contains(name) implies name_index(nodes)[name] >= 1 by {
        lemma_name_index_holds_the_nodes(nodes, name);
    }
}

/// Where the index holds no zero, the links that are marked unreachable are
/// the links of the edges that name an absent node: one for each such edge,
/// in dump order, and no others.
pub proof fn lemma_unreachable_links_are_the_unresolved_edges(
    edges: Seq<SourceEdgeView>,
    index: Map<Seq<char>, nat>,
)
    requires
        forall|name: Seq<char>| #[trigger] index.dom().contains(name) ==> index[name] >= 1,
    ensures
        graph_links(edges, index).filter(unreachable_link()) == edges.filter(
            names_absent_node(index),
        ).map_values(kept_link(index)),
    decreases edges.len(),
{
    reveal(Seq::filter);
    if edges.len() > 0 {
        let rest = edges.drop_last();
        let last = edges.last();
        lemma_unreachable_links_are_the_unresolved_edges(rest, index);
        let links = graph_links(rest, index);
        let absent = rest.filter(names_absent_node(index));
        assert(edges =~= rest.push(last));
        rest.lemma_filter_push(last, names_absent_node(index));
        match link_of(last, index) {
            Some(link) => {
                assert(graph_links(edges, index) =~= links.push(link));
                links.lemma_filter_push(link, unreachable_link());
                if names_absent_node(index)(last) {
                    assert(absent.push(last).map_values(kept_link(index)) =~= absent.map_values(
                        kept_link(index),
                    ).push(link));
                } else {
                    assert(index.dom().contains(last.from));
                    assert(index.dom().contains(last.to));
                }
            },
            None => {
                assert(graph_links(edges, index) =~= links);
            },
        }
    }
}

/// Every node's degree, once set from the links, is the number of links
/// whose source name is the node's name; nothing else about the node
/// changes.
pub proof fn lemma_degrees_count_links(nodes: Seq<NodeView>, links: Seq<LinkView>)
    ensures
        nodes.map_values(degree_rule(links)).len() == nodes.len(),
        forall|i: int|
            0 <= i < nodes.len() ==> {
                let node = #[trigger] nodes.map_values(degree_rule(links))[i];
                &&& node.edges == links_from(links, node.name)
                &&& node.edges == links.filter(starts_at(nodes[i].name)).len()
                &&& node == NodeView { edges: node.edges, ..nodes[i] }
            },
{
}

/// Of the two reports of one link, from either end, exactly one is kept:
/// the one that runs from the lower index to the higher.
pub proof fn lemma_one_direction_survives(
    forward: SourceEdgeView,
    backward: SourceEdgeView,
    index: Map<Seq<char>, nat>,
)
    requires
        backward.from == forward.to,
        backward.to == forward.from,
        0 < resolve(index, forward.from) < resolve(index, forward.to),
    ensures
        link_of(forward, index) is Some,
        link_of(forward, index)->0.source <= link_of(forward, index)->0.target,
        link_of(forward, index)->0.reachable == 1,
        link_of(backward, index) is None,
        graph_links(seq![forward, backward], index) == seq![link_of(forward, index)->0],
        graph_links(seq![backward, forward], index) == seq![link_of(forward, index)->0],
{
    let rule = link_rule(index);
    let both = seq![forward, backward];
    assert(both.drop_last() =~= seq![forward]);
    Seq::lemma_filter_map_singleton(forward, rule);
    assert(both.filter_map(rule) =~= seq![link_of(forward, index)->0]);
    let swapped = seq![backward, forward];
    assert(swapped.drop_last() =~= seq![backward]);
    Seq::lemma_filter_map_singleton(backward, rule);
    assert(swapped.filter_map(rule) =~= seq![link_of(forward, index)->0]);
}

/// A link whose weight field does not read as an unsigned integer has the
/// default weight.
pub proof fn lemma_unreadable_weight_defaults(edge: SourceEdgeView, index: Map<Seq<char>, nat>)
    requires
        unsigned_value(edge.weight) is None,
        link_of(edge, index) is Some,
    ensures
        link_of(edge, index)->0.weight == 1000,
{
}

/// No more links than edges.
pub proof fn lemma_graph_links_len(edges: Seq<SourceEdgeView>, index: Map<Seq<char>, nat>)
    ensures
        graph_links(edges, index).len() <= edges.len(),
    decreases edges.len(),
{
    if edges.len() > 0 {
        lemma_graph_links_len(edges.drop_last(), index);
    }
}

/// Looks `name` up among the nodes.
pub fn lookup(nodes: &Vec<Node>, name: &String) -> (found: u32)
    ensures
        found == resolve(name_index(nodes.deep_view()), name@),
{
    let mut found: u32 = 0;
    let ghost all = nodes.deep_view();
    for i in 0..nodes.len()
        invariant
            all == nodes.deep_view(),
            found == resolve(name_index(all.take(i as int)), name@),
    {
        assert(all.take(i + 1).drop_last() =~= all.take(i as int));
        assert(all[i as int] == nodes@[i as int]@);
        if nodes[i].name == *name {
            found = nodes[i].index;
        }
    }
    assert(all.take(all.len() as int) =~= all);
    found
}

/// Writes the key of a pair of indices.
pub fn write_pair_key(source: u32, target: u32) -> (key: String)
    ensures
        key@ == pair_key(source as nat, target as nat),
{
    let mut key = to_decimal(source);
    proof {
        reveal_strlit("-");
    }
    key.append("-");
    key.append(to_decimal(target).as_str());
    assert("-"@ =~= seq!['-']);
    key
}

/// Counts the links that start at the node called `name`.
pub fn count_links_from(links: &Vec<Link>, name: &String) -> (count: u32)
    requires
        links.len() <= u32::MAX,
    ensures
        count == links_from(links.deep_view(), name@),
{
    let mut count: u32 = 0;
    let ghost all = links.deep_view();
    assert(all.take(0).filter(starts_at(name@)) =~= Seq::empty()) by {
        reveal(Seq::filter);
    }
    for i in 0..links.len()
        invariant
            all == links.deep_view(),
            links.len() <= u32::MAX,
            count <= i,
            count == links_from(all.take(i as int), name@),
    {
        proof {
            assert(all.take(i + 1) =~= all.take(i as int).push(all[i as int]));
            all.take(i as int).lemma_filter_push(all[i as int], starts_at(name@));
        }
        assert(all[i as int] == links@[i as int]@);
        if links[i].sname == *name {
            count += 1;
        }
    }
    assert(all.take(all.len() as int) =~= all);
    count
}

impl Link {
    /// Makes a link of an edge of the dump, unless the edge is the second
    /// report of a link.
    pub fn from(source_edge: SourceEdge, nodes: &Vec<Node>) -> (r: Option<Link>)
        ensures
            r is Some <==> link_of(source_edge@, name_index(nodes.deep_view())) is Some,
            r matches Some(link) ==> Some(link@) == link_of(
                source_edge@,
                name_index(nodes.deep_view()),
            ),
    {
        let weight: u32 = match parse_unsigned(source_edge.weight.as_str()) {
            Some(x) => x,
            None => DEFAULT_WEIGHT,
        };
        let target: u32 = lookup(nodes, &source_edge.to);
        let source: u32 = lookup(nodes, &source_edge.from);

        let mut reachable: u8 = 0;
        if source != 0 && target != 0 {
            if source > target {
                return None;
            }
            reachable = 1;
        }
        let _hash = write_pair_key(source, target);
        Some(
            Link {
                sname: source_edge.from,
                tname: source_edge.to,
                frac: Fraction { numer: 0, denom: 1 },
                target,
                weight,
                source,
                reachable,
                _hash,
            },
        )
    }

    /// Builds the links of the graph from the edge dump, and sets each
    /// node's degree to the number of links that start at it.
    pub fn load_links(
        source_edges: Vec<SourceEdge>,
        nodes_info: &mut Vec<Node>,
    ) -> (links: Vec<Link>)
        requires
            graph_links(source_edges.deep_view(), name_index(old(nodes_info).deep_view())).len()
                <= u32::MAX,
        ensures
            links.deep_view() == graph_links(
                source_edges.deep_view(),
                name_index(old(nodes_info).deep_view()),
            ),
            final(nodes_info).deep_view() == old(nodes_info).deep_view().map_values(
                degree_rule(links.deep_view()),
            ),
            forall|i: int|
                0 <= i < final(nodes_info)@.len() ==> (#[trigger] final(nodes_info)@[i])@.edges
                    == links_from(links.deep_view(), final(nodes_info)@[i]@.name),
    {
        let mut links: Vec<Link> = Vec::new();
        let ghost edges = source_edges.deep_view();
        let ghost index = name_index(nodes_info.deep_view());
        for edge in it: source_edges
            invariant
                it.seq() == source_edges@,
                edges == source_edges.deep_view(),
                index == name_index(nodes_info.deep_view()),
                links.deep_view() =~= graph_links(edges.take(it.index() as int), index),
        {
            proof {
                edges.lemma_filter_map_take_succ(link_rule(index), it.index() as int);
            }
            assert(edges[it.index() as int] == edge@);
            if let Some(link) = Self::from(edge, nodes_info) {
                links.push(link);
            }
        }
        assert(edges.take(edges.len() as int) =~= edges);

        let ghost before = nodes_info.deep_view();
        let ghost kept = links.deep_view();
        let count: usize = nodes_info.len();
        for i in 0..count
            invariant
                kept == links.deep_view(),
                kept.len() <= u32::MAX,
                before == old(nodes_info).deep_view(),
                nodes_info@.len() == count,
                before.len() == count,
                forall|j: int|
                    0 <= j < i ==> (#[trigger] nodes_info@[j])@ == with_degree(before[j], kept),
                forall|j: int| i <= j < count ==> (#[trigger] nodes_info@[j])@ == before[j],
        {
            let degree: u32 = count_links_from(&links, &nodes_info[i].name);
            nodes_info[i].edges = degree;
        }
        assert(nodes_info.deep_view() =~= before.map_values(degree_rule(kept)));
        links
    }
}

} // verus!
