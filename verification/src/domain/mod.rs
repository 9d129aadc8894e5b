//! The graph that is drawn: live nodes and the links between them.

pub mod links;
pub mod nodes;

use crate::domain::links::{
    degree_rule, graph_links, lemma_name_index_holds_the_nodes, link_of, links_from, name_index,
    resolve, Fraction, Link, LinkView, Ratio,
};
use crate::domain::nodes::{graph_nodes, live_records, Node, NodeView};
use crate::tinc_tcp_stream::{
    SourceEdge, SourceEdgeView, SourceNode, SourceNodeView, SourceSubnet, SourceSubnetView,
};
use vstd::prelude::*;

verus! {

/// The graph of one poll.
#[derive(Clone, Debug)]
pub struct Data {
    pub nodes: Vec<Node>,
    pub links: Vec<Link>,
}

/// A graph as contracts speak of it.
pub ghost struct DataView {
    pub nodes: Seq<NodeView>,
    pub links: Seq<LinkView>,
}

impl View for Data {
    type V = DataView;

    open spec fn view(&self) -> DataView {
        DataView { nodes: self.nodes.deep_view(), links: self.links.deep_view() }
    }
}

/// The greatest weight among the links, and at least one.
pub open spec fn max_weight(links: Seq<LinkView>) -> nat
    decreases links.len(),
{
    if links.len() == 0 {
        1
    } else {
        let rest = max_weight(links.drop_last());
        if links.last().weight > rest {
            links.last().weight
        } else {
            rest
        }
    }
}

/// The strength of a link of the given weight where `max` is the greatest
/// weight: `1 - weight / max`.
pub open spec fn strength(weight: nat, max: nat) -> Ratio {
    Ratio { numer: (max - weight) as nat, denom: max }
}

/// The link with its strength set against the greatest weight `max`.
pub open spec fn with_strength(link: LinkView, max: nat) -> LinkView {
    LinkView { frac: strength(link.weight, max), ..link }
}

/// The rule that sets a link's strength against the greatest weight `max`.
pub open spec fn rate(max: nat) -> spec_fn(LinkView) -> LinkView {
    |link: LinkView| with_strength(link, max)
}

/// The links, each with its strength set against the greatest weight among
/// them.
pub open spec fn rated(links: Seq<LinkView>) -> Seq<LinkView> {
    links.map_values(rate(max_weight(links)))
}

/// The graph that a dump describes.
pub open spec fn graph(
    raw: Seq<SourceNodeView>,
    subnets: Seq<SourceSubnetView>,
    edges: Seq<SourceEdgeView>,
) -> DataView {
    let nodes = graph_nodes(raw, subnets);
    let links = graph_links(edges, name_index(nodes));
    DataView {
        nodes: nodes.map_values(degree_rule(links)),
        links: rated(links),
    }
}

/// The greatest weight is at least one and at least every link's weight, and
/// unless it is one, some link has it.
pub proof fn lemma_max_weight(links: Seq<LinkView>)
    ensures
        max_weight(links) >= 1,
        forall|i: int| 0 <= i < links.len() ==> (#[trigger] links[i]).weight <= max_weight(links),
        max_weight(links) == 1 || exists|i: int|
            0 <= i < links.len() && (#[trigger] links[i]).weight == max_weight(links),
    decreases links.len(),
{
    if links.len() > 0 {
        let rest = links.drop_last();
        lemma_max_weight(rest);
        assert forall|i: int| 0 <= i < links.len() implies (#[trigger] links[i]).weight
            <= max_weight(links) by {
            if i < rest.len() {
                assert(links[i] == rest[i]);
            }
        }
        if max_weight(links) != 1 {
            if links.last().weight > max_weight(rest) {
                assert(links[links.len() - 1].weight == max_weight(links));
            } else {
                let i = choose|i: int|
                    0 <= i < rest.len() && (#[trigger] rest[i]).weight == max_weight(rest);
                assert(links[i] == rest[i]);
            }
        }
    }
}

/// Every link's strength lies between zero and one: it is
/// `1 - weight / max`, where `max` is the greatest weight among the links, so
/// the heaviest link has strength zero.
pub proof fn lemma_strength_in_unit_interval(links: Seq<LinkView>)
    ensures
        rated(links).len() == links.len(),
        forall|i: int|
            0 <= i < links.len() ==> {
                let link = #[trigger] rated(links)[i];
                &&& link.frac.in_unit_interval()
                &&& link.frac.denom == max_weight(links)
                &&& link.frac.numer + links[i].weight == max_weight(links)
                &&& link == with_strength(links[i], max_weight(links))
            },
{
    lemma_max_weight(links);
}

/// Setting the strengths changes no link's ends, so it changes no count of
/// the links that start at a node.
pub proof fn lemma_rating_keeps_sources(links: Seq<LinkView>, max: nat, name: Seq<char>)
    ensures
        links_from(links.map_values(rate(max)), name) == links_from(links, name),
    decreases links.len(),
{
    reveal(Seq::filter);
    if links.len() > 0 {
        let rest = links.drop_last();
        lemma_rating_keeps_sources(rest, max, name);
        assert(links.map_values(rate(max)).drop_last() =~= rest.map_values(rate(max)));
    }
}

/// In the graph, every node's degree is the number of the graph's links
/// whose source name is the node's name.
pub proof fn lemma_degree_counts_links(
    raw: Seq<SourceNodeView>,
    subnets: Seq<SourceSubnetView>,
    edges: Seq<SourceEdgeView>,
)
    ensures
        forall|i: int|
            0 <= i < graph(raw, subnets, edges).nodes.len() ==> {
                let node = #[trigger] graph(raw, subnets, edges).nodes[i];
                node.edges == links_from(graph(raw, subnets, edges).links, node.name)
            },
{
    let nodes = graph_nodes(raw, subnets);
    let links = graph_links(edges, name_index(nodes));
    assert forall|i: int| 0 <= i < graph(raw, subnets, edges).nodes.len() implies {
        let node = #[trigger] graph(raw, subnets, edges).nodes[i];
        node.edges == links_from(graph(raw, subnets, edges).links, node.name)
    } by {
        lemma_rating_keeps_sources(links, max_weight(links), nodes[i].name);
    }
}

/// In the graph, the nodes keep the place and the number that the node dump
/// gave them: setting the degrees changes nothing else.
pub proof fn lemma_graph_keeps_node_order(
    raw: Seq<SourceNodeView>,
    subnets: Seq<SourceSubnetView>,
    edges: Seq<SourceEdgeView>,
)
    ensures
        graph(raw, subnets, edges).nodes.len() == live_records(raw).len(),
        forall|i: int|
            0 <= i < live_records(raw).len() ==> {
                let node = #[trigger] graph(raw, subnets, edges).nodes[i];
                &&& node.index == i + 1
                &&& node.id == i + 1
                &&& node.name == live_records(raw)[i].node
            },
{
}

/// Only the names of live records resolve. A name that a live record bears
/// resolves to the number of a node of that name; any other name resolves
/// to zero.
pub proof fn lemma_only_live_names_resolve(
    raw: Seq<SourceNodeView>,
    subnets: Seq<SourceSubnetView>,
    name: Seq<char>,
)
    ensures
        ({
            let live = live_records(raw);
            let found = resolve(name_index(graph_nodes(raw, subnets)), name);
            if exists|i: int| 0 <= i < live.len() && (#[trigger] live[i]).node == name {
                1 <= found <= live.len() && live[found - 1].node == name
            } else {
                found == 0
            }
        }),
{
    let live = live_records(raw);
    let nodes = graph_nodes(raw, subnets);
    lemma_name_index_holds_the_nodes(nodes, name);
    if exists|i: int| 0 <= i < live.len() && (#[trigger] live[i]).node == name {
        let i = choose|i: int| 0 <= i < live.len() && (#[trigger] live[i]).node == name;
        assert(nodes[i].name == name);
        let k = choose|k: int|
            0 <= k < nodes.len() && (#[trigger] nodes[k]).name == name && nodes[k].index
                == resolve(name_index(nodes), name);
        assert(live[k].node == name);
    } else {
        assert forall|k: int| 0 <= k < nodes.len() implies (#[trigger] nodes[k]).name != name by {
            assert(live[k].node != name);
        }
    }
}

/// An edge that names a node which is not live is never dropped: the name
/// resolves to zero, and the edge gives a link that is marked unreachable.
pub proof fn lemma_edge_to_absent_node_is_kept(
    raw: Seq<SourceNodeView>,
    subnets: Seq<SourceSubnetView>,
    edge: SourceEdgeView,
    absent: Seq<char>,
)
    requires
        absent == edge.from || absent == edge.to,
        forall|i: int|
            0 <= i < live_records(raw).len() ==> (#[trigger] live_records(raw)[i]).node != absent,
    ensures
        ({
            let index = name_index(graph_nodes(raw, subnets));
            &&& resolve(index, absent) == 0
            &&& link_of(edge, index) is Some
            &&& link_of(edge, index)->0.reachable == 0
            &&& absent == edge.from ==> link_of(edge, index)->0.source == 0
            &&& absent == edge.to ==> link_of(edge, index)->0.target == 0
        }),
{
    lemma_only_live_names_resolve(raw, subnets, absent);
}

impl Data {
    /// Builds the graph from the three dumps of one poll.
    pub fn new(
        source_nodes: Vec<SourceNode>,
        source_subnets: Vec<SourceSubnet>,
        source_edge: Vec<SourceEdge>,
    ) -> (data: Data)
        requires
            live_records(source_nodes.deep_view()).len() <= u32::MAX,
            graph_links(
                source_edge.deep_view(),
                name_index(graph_nodes(source_nodes.deep_view(), source_subnets.deep_view())),
            ).len() <= u32::MAX,
        ensures
            data@ == graph(
                source_nodes.deep_view(),
                source_subnets.deep_view(),
                source_edge.deep_view(),
            ),
    {
        let mut nodes = Node::load_nodes(source_nodes, source_subnets);
        let links = Link::load_links(source_edge, &mut nodes);
        let mut data = Data { nodes, links };
        data.frac();
        data
    }

    /// Sets the strength of every link against the greatest weight among
    /// the links.
    pub fn frac(&mut self)
        ensures
            final(self)@.nodes == old(self)@.nodes,
            final(self)@.links == rated(old(self)@.links),
    {
        let ghost before = self.links.deep_view();
        let count: usize = self.links.len();
        let mut heaviest: u32 = 1;
        for i in 0..count
            invariant
                count == self.links@.len(),
                before == self.links.deep_view(),
                *self == *old(self),
                heaviest == max_weight(before.take(i as int)),
        {
            assert(before.take(i + 1).drop_last() =~= before.take(i as int));
            assert(before[i as int] == self.links@[i as int]@);
            if self.links[i].weight > heaviest {
                heaviest = self.links[i].weight;
            }
        }
        assert(before.take(count as int) =~= before);
        proof {
            lemma_max_weight(before);
        }
        for i in 0..count
            invariant
                count == self.links@.len(),
                count == before.len(),
                self.nodes == old(self).nodes,
                heaviest == max_weight(before),
                forall|j: int| 0 <= j < before.len() ==> (#[trigger] before[j]).weight <= heaviest,
                forall|j: int|
                    0 <= j < i ==> (#[trigger] self.links@[j])@ == with_strength(
                        before[j],
                        heaviest as nat,
                    ),
                forall|j: int| i <= j < count ==> (#[trigger] self.links@[j])@ == before[j],
        {
            assert(self.links@[i as int]@ == before[i as int]);
            let weight: u32 = self.links[i].weight;
            self.links[i].frac = Fraction { numer: heaviest - weight, denom: heaviest };
        }
        assert(self.links.deep_view() =~= rated(before));
    }
}

} // verus!
