//! The conversation with the daemon over its control socket, line by line:
//! the lines that are sent, and the records that the lines of a dump hold,
//! every field still text.
//!
//! The socket itself is the caller's. What is here turns lines into records
//! and requests into lines.

use crate::decimal::{
    decimal, is_digit, lemma_decimal_round_trip, parse_unsigned, to_decimal, unsigned_value,
};
use crate::failure::FailureKind;
use crate::fields::{
    fields, is_space, is_word, lemma_word_after_space_is_a_field, lemma_word_is_one_field,
    split_fields,
};
use vstd::prelude::*;

verus! {

/// One line of the node dump: a node's name and its status bitfield in
/// hexadecimal.
#[derive(Clone, Debug)]
pub struct SourceNode {
    pub node: String,
    pub status_int: String,
}

/// One line of the edge dump: the two endpoints by name and the weight in
/// decimal, which may not be a number at all.
#[derive(Clone, Debug)]
pub struct SourceEdge {
    pub from: String,
    pub to: String,
    pub weight: String,
}

/// One line of the subnet dump: an address range and the node that owns it.
#[derive(Clone, Debug)]
pub struct SourceSubnet {
    pub name: String,
    pub addr: String,
}

/// A node record as contracts speak of it: its two texts.
pub ghost struct SourceNodeView {
    pub node: Seq<char>,
    pub status_int: Seq<char>,
}

/// An edge record as contracts speak of it: its three texts.
pub ghost struct SourceEdgeView {
    pub from: Seq<char>,
    pub to: Seq<char>,
    pub weight: Seq<char>,
}

/// A subnet record as contracts speak of it: its two texts.
pub ghost struct SourceSubnetView {
    pub name: Seq<char>,
    pub addr: Seq<char>,
}

impl View for SourceNode {
    type V = SourceNodeView;

    open spec fn view(&self) -> SourceNodeView {
        SourceNodeView { node: self.node@, status_int: self.status_int@ }
    }
}

impl DeepView for SourceNode {
    type V = SourceNodeView;

    open spec fn deep_view(&self) -> SourceNodeView {
        self@
    }
}

impl View for SourceEdge {
    type V = SourceEdgeView;

    open spec fn view(&self) -> SourceEdgeView {
        SourceEdgeView { from: self.from@, to: self.to@, weight: self.weight@ }
    }
}

impl DeepView for SourceEdge {
    type V = SourceEdgeView;

    open spec fn deep_view(&self) -> SourceEdgeView {
        self@
    }
}

impl View for SourceSubnet {
    type V = SourceSubnetView;

    open spec fn view(&self) -> SourceSubnetView {
        SourceSubnetView { name: self.name@, addr: self.addr@ }
    }
}

impl DeepView for SourceSubnet {
    type V = SourceSubnetView;

    open spec fn deep_view(&self) -> SourceSubnetView {
        self@
    }
}

/// Where the fields of a node record stand in a line of the node dump,
/// counted from zero.
#[derive(Clone, Copy, Debug, PartialEq, Eq, Structural)]
pub struct NodeLayout {
    pub node: usize,
    pub status_int: usize,
}

/// Where the fields of an edge record stand in a line of the edge dump.
#[derive(Clone, Copy, Debug, PartialEq, Eq, Structural)]
pub struct EdgeLayout {
    pub from: usize,
    pub to: usize,
    pub weight: usize,
}

/// Where the fields of a subnet record stand in a line of the subnet dump.
#[derive(Clone, Copy, Debug, PartialEq, Eq, Structural)]
pub struct SubnetLayout {
    pub name: usize,
    pub addr: usize,
}

impl NodeLayout {
    /// The layout of tinc 1.1: after the two numbers that head every line
    /// come the name, the id, the address in three fields, cipher, digest,
    /// MAC length, compression and options, and then the status.
    pub fn tinc() -> (layout: NodeLayout)
        ensures
            layout.node == 2,
            layout.status_int == 12,
    {
        NodeLayout { node: 2, status_int: 12 }
    }
}

impl EdgeLayout {
    /// The layout of tinc 1.1: after the two numbers that head every line
    /// come the two names, two addresses in three fields each, the options,
    /// and then the weight.
    pub fn tinc() -> (layout: EdgeLayout)
        ensures
            layout.from == 2,
            layout.to == 3,
            layout.weight == 11,
    {
        EdgeLayout { from: 2, to: 3, weight: 11 }
    }
}

impl SubnetLayout {
    /// The layout of tinc 1.1: after the two numbers that head every line
    /// come the subnet and then its owner.
    pub fn tinc() -> (layout: SubnetLayout)
        ensures
            layout.addr == 2,
            layout.name == 3,
    {
        SubnetLayout { addr: 2, name: 3 }
    }
}

/// The node record that a line holds, if the line has all its fields.
pub open spec fn node_of_line(line: Seq<char>, layout: NodeLayout) -> Option<SourceNodeView> {
    let found = fields(line);
    if layout.node < found.len() && layout.status_int < found.len() {
        Some(
            SourceNodeView {
                node: found[layout.node as int],
                status_int: found[layout.status_int as int],
            },
        )
    } else {
        None
    }
}

/// The edge record that a line holds, if the line has all its fields.
pub open spec fn edge_of_line(line: Seq<char>, layout: EdgeLayout) -> Option<SourceEdgeView> {
    let found = fields(line);
    if layout.from < found.len() && layout.to < found.len() && layout.weight < found.len() {
        Some(
            SourceEdgeView {
                from: found[layout.from as int],
                to: found[layout.to as int],
                weight: found[layout.weight as int],
            },
        )
    } else {
        None
    }
}

/// The subnet record that a line holds, if the line has all its fields.
pub open spec fn subnet_of_line(line: Seq<char>, layout: SubnetLayout) -> Option<
    SourceSubnetView,
> {
    let found = fields(line);
    if layout.name < found.len() && layout.addr < found.len() {
        Some(
            SourceSubnetView {
                name: found[layout.name as int],
                addr: found[layout.addr as int],
            },
        )
    } else {
        None
    }
}

/// Reads one line of the node dump. A line with too few fields is
/// malformed.
pub fn parse_node(line: &str, layout: &NodeLayout) -> (r: Result<SourceNode, FailureKind>)
    ensures
        r is Ok <==> node_of_line(line@, *layout) is Some,
        r matches Ok(record) ==> Some(record@) == node_of_line(line@, *layout),
        r matches Err(kind) ==> kind == FailureKind::MalformedRecord,
{
    let found = split_fields(line);
    if layout.node < found.len() && layout.status_int < found.len() {
        assert(found.deep_view()[layout.node as int] == found@[layout.node as int]@);
        assert(found.deep_view()[layout.status_int as int] == found@[layout.status_int as int]@);
        Ok(
            SourceNode {
                node: found[layout.node].clone(),
                status_int: found[layout.status_int].clone(),
            },
        )
    } else {
        Err(FailureKind::MalformedRecord)
    }
}

/// Reads one line of the edge dump. A line with too few fields is
/// malformed.
pub fn parse_edge(line: &str, layout: &EdgeLayout) -> (r: Result<SourceEdge, FailureKind>)
    ensures
        r is Ok <==> edge_of_line(line@, *layout) is Some,
        r matches Ok(record) ==> Some(record@) == edge_of_line(line@, *layout),
        r matches Err(kind) ==> kind == FailureKind::MalformedRecord,
{
    let found = split_fields(line);
    if layout.from < found.len() && layout.to < found.len() && layout.weight < found.len() {
        assert(found.deep_view()[layout.from as int] == found@[layout.from as int]@);
        assert(found.deep_view()[layout.to as int] == found@[layout.to as int]@);
        assert(found.deep_view()[layout.weight as int] == found@[layout.weight as int]@);
        Ok(
            SourceEdge {
                from: found[layout.from].clone(),
                to: found[layout.to].clone(),
                weight: found[layout.weight].clone(),
            },
        )
    } else {
        Err(FailureKind::MalformedRecord)
    }
}

/// Reads one line of the subnet dump. A line with too few fields is
/// malformed.
pub fn parse_subnet(line: &str, layout: &SubnetLayout) -> (r: Result<SourceSubnet, FailureKind>)
    ensures
        r is Ok <==> subnet_of_line(line@, *layout) is Some,
        r matches Ok(record) ==> Some(record@) == subnet_of_line(line@, *layout),
        r matches Err(kind) ==> kind == FailureKind::MalformedRecord,
{
    let found = split_fields(line);
    if layout.name < found.len() && layout.addr < found.len() {
        assert(found.deep_view()[layout.name as int] == found@[layout.name as int]@);
        assert(found.deep_view()[layout.addr as int] == found@[layout.addr as int]@);
        Ok(SourceSubnet { name: found[layout.name].clone(), addr: found[layout.addr].clone() })
    } else {
        Err(FailureKind::MalformedRecord)
    }
}

/// The line that ends a dump holds the two numbers that head every line
/// and nothing after them.
pub open spec fn is_end_line(line: Seq<char>) -> bool {
    fields(line).len() == 2
}

/// Whether the dump in `lines` ends at line `n`: the first line that ends a
/// dump.
pub open spec fn ends_at(lines: Seq<Seq<char>>, n: int) -> bool {
    &&& 0 <= n < lines.len()
    &&& is_end_line(lines[n])
    &&& forall|j: int| 0 <= j < n ==> !is_end_line(#[trigger] lines[j])
}

/// Whether `line` is the line that ends a dump.
pub fn is_end(line: &str) -> (r: bool)
    ensures
        r == is_end_line(line@),
{
    split_fields(line).len() == 2
}

/// Finds the line at which the dump in `lines` ends.
pub fn find_end(lines: &Vec<String>) -> (r: Option<usize>)
    ensures
        r matches Some(n) ==> ends_at(lines.deep_view(), n as int),
        r is None ==> forall|n: int| !ends_at(lines.deep_view(), n),
{
    let ghost all = lines.deep_view();
    for i in 0..lines.len()
        invariant
            all == lines.deep_view(),
            forall|j: int| 0 <= j < i ==> !is_end_line(#[trigger] all[j]),
    {
        assert(all[i as int] == lines@[i as int]@);
        if is_end(lines[i].as_str()) {
            return Some(i);
        }
    }
    None
}

/// The rule that reads a line of the node dump.
pub open spec fn node_rule(layout: NodeLayout) -> spec_fn(Seq<char>) -> Option<SourceNodeView> {
    |line: Seq<char>| node_of_line(line, layout)
}

/// The rule that reads a line of the edge dump.
pub open spec fn edge_rule(layout: EdgeLayout) -> spec_fn(Seq<char>) -> Option<SourceEdgeView> {
    |line: Seq<char>| edge_of_line(line, layout)
}

/// The rule that reads a line of the subnet dump.
pub open spec fn subnet_rule(layout: SubnetLayout) -> spec_fn(Seq<char>) -> Option<
    SourceSubnetView,
> {
    |line: Seq<char>| subnet_of_line(line, layout)
}

/// Reads a node dump: the records of the lines before the line that ends
/// the dump, malformed lines passed over. A dump that never ends gives
/// nothing.
pub fn dump_nodes(lines: &Vec<String>, layout: &NodeLayout) -> (r: Option<Vec<SourceNode>>)
    ensures
        r is Some <==> exists|n: int| ends_at(lines.deep_view(), n),
        forall|n: int| #[trigger]
            ends_at(lines.deep_view(), n) ==> r is Some && r->0.deep_view()
                == lines.deep_view().take(n).filter_map(node_rule(*layout)),
{
    let ghost all = lines.deep_view();
    match find_end(lines) {
        None => None,
        Some(end) => {
            let mut records: Vec<SourceNode> = Vec::new();
            for i in 0..end
                invariant
                    all == lines.deep_view(),
                    end < lines.len(),
                    records.deep_view() =~= all.take(i as int).filter_map(node_rule(*layout)),
            {
                proof {
                    all.lemma_filter_map_take_succ(node_rule(*layout), i as int);
                }
                assert(all[i as int] == lines@[i as int]@);
                if let Ok(record) = parse_node(lines[i].as_str(), layout) {
                    records.push(record);
                }
            }
            assert(ends_at(all, end as int));
            Some(records)
        },
    }
}

/// Reads an edge dump: the records of the lines before the line that ends
/// the dump, malformed lines passed over. A dump that never ends gives
/// nothing.
pub fn dump_edges(lines: &Vec<String>, layout: &EdgeLayout) -> (r: Option<Vec<SourceEdge>>)
    ensures
        r is Some <==> exists|n: int| ends_at(lines.deep_view(), n),
        forall|n: int| #[trigger]
            ends_at(lines.deep_view(), n) ==> r is Some && r->0.deep_view()
                == lines.deep_view().take(n).filter_map(edge_rule(*layout)),
{
    let ghost all = lines.deep_view();
    match find_end(lines) {
        None => None,
        Some(end) => {
            let mut records: Vec<SourceEdge> = Vec::new();
            for i in 0..end
                invariant
                    all == lines.deep_view(),
                    end < lines.len(),
                    records.deep_view() =~= all.take(i as int).filter_map(edge_rule(*layout)),
            {
                proof {
                    all.lemma_filter_map_take_succ(edge_rule(*layout), i as int);
                }
                assert(all[i as int] == lines@[i as int]@);
                if let Ok(record) = parse_edge(lines[i].as_str(), layout) {
                    records.push(record);
                }
            }
            assert(ends_at(all, end as int));
            Some(records)
        },
    }
}

/// Reads a subnet dump: the records of the lines before the line that ends
/// the dump, malformed lines passed over. A dump that never ends gives
/// nothing.
pub fn dump_subnets(lines: &Vec<String>, layout: &SubnetLayout) -> (r: Option<Vec<SourceSubnet>>)
    ensures
        r is Some <==> exists|n: int| ends_at(lines.deep_view(), n),
        forall|n: int| #[trigger]
            ends_at(lines.deep_view(), n) ==> r is Some && r->0.deep_view()
                == lines.deep_view().take(n).filter_map(subnet_rule(*layout)),
{
    let ghost all = lines.deep_view();
    match find_end(lines) {
        None => None,
        Some(end) => {
            let mut records: Vec<SourceSubnet> = Vec::new();
            for i in 0..end
                invariant
                    all == lines.deep_view(),
                    end < lines.len(),
                    records.deep_view() =~= all.take(i as int).filter_map(subnet_rule(*layout)),
            {
                proof {
                    all.lemma_filter_map_take_succ(subnet_rule(*layout), i as int);
                }
                assert(all[i as int] == lines@[i as int]@);
                if let Ok(record) = parse_subnet(lines[i].as_str(), layout) {
                    records.push(record);
                }
            }
            assert(ends_at(all, end as int));
            Some(records)
        },
    }
}

/// What the daemon's identity file gives: the port of the control socket
/// and the cookie that opens it.
#[derive(Clone, Debug)]
pub struct Identity {
    pub port: u16,
    pub cookie: String,
}

/// An identity as contracts speak of it.
pub ghost struct IdentityView {
    pub port: nat,
    pub cookie: Seq<char>,
}

impl View for Identity {
    type V = IdentityView;

    open spec fn view(&self) -> IdentityView {
        IdentityView { port: self.port as nat, cookie: self.cookie@ }
    }
}

/// Where the cookie and the port stand in the first line of the identity
/// file.
#[derive(Clone, Copy, Debug, PartialEq, Eq, Structural)]
pub struct IdentityLayout {
    pub cookie: usize,
    pub port: usize,
}

impl IdentityLayout {
    /// The layout of tinc 1.1: the process id, the cookie, the address, the
    /// word `port`, and the port.
    pub fn tinc() -> (layout: IdentityLayout)
        ensures
            layout.cookie == 1,
            layout.port == 4,
    {
        IdentityLayout { cookie: 1, port: 4 }
    }
}

/// The identity that the first line of the identity file gives: the line
/// must have both fields, and the port must be a number of 16 bits.
pub open spec fn identity_of_line(line: Seq<char>, layout: IdentityLayout) -> Option<
    IdentityView,
> {
    let found = fields(line);
    if layout.cookie < found.len() && layout.port < found.len() {
        match unsigned_value(found[layout.port as int]) {
            Some(port) => if port <= u16::MAX {
                Some(IdentityView { port: port as nat, cookie: found[layout.cookie as int] })
            } else {
                None
            },
            None => None,
        }
    } else {
        None
    }
}

/// Reads the first line of the identity file.
pub fn parse_identity(line: &str, layout: &IdentityLayout) -> (r: Result<Identity, FailureKind>)
    ensures
        r is Ok <==> identity_of_line(line@, *layout) is Some,
        r matches Ok(identity) ==> Some(identity@) == identity_of_line(line@, *layout),
        r matches Err(kind) ==> kind == FailureKind::IdentityNotFound,
{
    let found = split_fields(line);
    if layout.cookie < found.len() && layout.port < found.len() {
        assert(found.deep_view()[layout.cookie as int] == found@[layout.cookie as int]@);
        assert(found.deep_view()[layout.port as int] == found@[layout.port as int]@);
        match parse_unsigned(found[layout.port].as_str()) {
            Some(port) => {
                if port <= 0xffff {
                    Ok(Identity { port: port as u16, cookie: found[layout.cookie].clone() })
                } else {
                    Err(FailureKind::IdentityNotFound)
                }
            },
            None => Err(FailureKind::IdentityNotFound),
        }
    } else {
        Err(FailureKind::IdentityNotFound)
    }
}

/// What the poll asks of the daemon.
#[derive(Clone, Copy, Debug, PartialEq, Eq, Structural)]
pub enum Request {
    DumpNodes,
    DumpEdges,
    DumpSubnets,
    Purge,
}

/// The number that heads every line of the control protocol.
pub const CONTROL: u32 = 18;

impl Request {
    /// The number of the request in the control protocol.
    pub open spec fn number(self) -> nat {
        match self {
            Request::DumpNodes => 3,
            Request::DumpEdges => 4,
            Request::DumpSubnets => 5,
            Request::Purge => 8,
        }
    }

    /// The line that makes the request, without its line feed: the control
    /// number and the number of the request.
    pub open spec fn text(self) -> Seq<char> {
        decimal(CONTROL as nat) + seq![' '] + decimal(self.number())
    }

    /// Writes the line that makes the request.
    pub fn line(&self) -> (line: String)
        ensures
            line@ == self.text(),
    {
        let number: u32 = match self {
            Request::DumpNodes => 3,
            Request::DumpEdges => 4,
            Request::DumpSubnets => 5,
            Request::Purge => 8,
        };
        let mut line = to_decimal(CONTROL);
        proof {
            reveal_strlit(" ");
        }
        line.append(" ");
        line.append(to_decimal(number).as_str());
        assert(" "@ =~= seq![' ']);
        line
    }
}

/// The number of lines with which the daemon answers the greeting: its own
/// greeting and its acknowledgement. They are read and dropped.
pub const GREETING_REPLIES: usize = 2;

/// The line that opens the conversation, without its line feed: the cookie
/// behind a caret, between two zeros.
pub open spec fn greeting(cookie: Seq<char>) -> Seq<char> {
    seq!['0', ' ', '^'] + cookie + seq![' ', '0']
}

/// Writes the line that opens the conversation.
pub fn greeting_line(cookie: &str) -> (line: String)
    ensures
        line@ == greeting(cookie@),
{
    proof {
        reveal_strlit("0 ^");
        reveal_strlit(" 0");
    }
    let mut line = String::from_str("0 ^");
    line.append(cookie);
    line.append(" 0");
    assert("0 ^"@ =~= seq!['0', ' ', '^']);
    assert(" 0"@ =~= seq![' ', '0']);
    line
}

/// A number in decimal is a word.
pub proof fn lemma_decimal_is_word(n: nat)
    ensures
        is_word(decimal(n)),
{
    lemma_decimal_round_trip(n);
    assert forall|j: int| 0 <= j < decimal(n).len() implies !is_space(
        #[trigger] decimal(n)[j],
    ) by {
        assert(is_digit(decimal(n)[j]));
    }
}

/// The line that makes a request has two fields, as the line that ends a
/// dump has.
pub proof fn lemma_request_has_two_fields(request: Request)
    ensures
        fields(request.text()) == seq![decimal(CONTROL as nat), decimal(request.number())],
        is_end_line(request.text()),
{
    let head = decimal(CONTROL as nat);
    let tail = decimal(request.number());
    lemma_decimal_is_word(CONTROL as nat);
    lemma_decimal_is_word(request.number());
    lemma_word_is_one_field(head);
    lemma_word_after_space_is_a_field(head, ' ', tail);
    assert(request.text() =~= head.push(' ') + tail);
    assert(seq![head].push(tail) =~= seq![head, tail]);
}

} // verus!
