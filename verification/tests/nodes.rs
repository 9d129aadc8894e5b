use tincmgr::domain::nodes::{collect_subnets, hex_str_to_dec, Node};
use tincmgr::tinc_tcp_stream::{SourceNode, SourceSubnet};

fn record(name: &str, status: &str) -> SourceNode {
    SourceNode { node: name.to_string(), status_int: status.to_string() }
}

fn subnet(owner: &str, addr: &str) -> SourceSubnet {
    SourceSubnet { name: owner.to_string(), addr: addr.to_string() }
}

#[test]
fn hexadecimal_decodes_digit_by_digit() {
    assert_eq!(hex_str_to_dec(""), 0);
    assert_eq!(hex_str_to_dec("0"), 0);
    assert_eq!(hex_str_to_dec("a"), 10);
    assert_eq!(hex_str_to_dec("f"), 15);
    assert_eq!(hex_str_to_dec("10"), 16);
    assert_eq!(hex_str_to_dec("1f"), 31);
    assert_eq!(hex_str_to_dec("ff"), 255);
    assert_eq!(hex_str_to_dec("abc"), 0xabc);
    assert_eq!(hex_str_to_dec("0000001f"), 31);
    assert_eq!(hex_str_to_dec("ffffffff"), u32::MAX);
    assert_eq!(hex_str_to_dec("1000001a"), 0x1000001a);
}

#[test]
fn upper_case_digits_have_the_value_of_lower_case() {
    assert_eq!(hex_str_to_dec("1F"), 0x1f);
    assert_eq!(hex_str_to_dec("A"), 10);
    assert_eq!(hex_str_to_dec("F"), 15);
    assert_eq!(hex_str_to_dec("F0"), 240);
    assert_eq!(hex_str_to_dec("B0"), 176);
    assert_eq!(hex_str_to_dec("AbCdEf"), 0xabcdef);
    assert_eq!(hex_str_to_dec("FFFFFFFF"), u32::MAX);
    assert_eq!(hex_str_to_dec("DEADBEEF"), hex_str_to_dec("deadbeef"));
    assert!(Node::from(&record("n", "B0")).is_some());
    assert!(Node::from(&record("n", "F0")).is_some());
    assert!(Node::from(&record("n", "1F")).is_some());
    assert!(Node::from(&record("n", "EF")).is_none());
    assert!(Node::from(&record("n", "A")).is_none());
}

#[test]
fn decoding_agrees_with_the_standard_parser_on_hex_digits() {
    let statuses = [
        "0", "9", "a", "f", "A", "F", "10", "1f", "1F", "B0", "b0", "F0", "Ef", "eF", "100",
        "7fF", "0000", "700001F", "0700001f", "AbCdEf01", "ffffffff", "FFFFFFFF", "80000000",
        "FFFFFFEF", "12345678", "9ABCDEF0",
    ];
    for status in statuses {
        let value = u32::from_str_radix(status, 16).unwrap();
        assert_eq!(hex_str_to_dec(status), value, "{:?}", status);
        let live = Node::from(&record("n", status)).is_some();
        assert_eq!(live, (value & 0x10) != 0, "{:?}", status);
    }
}

#[test]
fn characters_that_are_no_digit_count_as_zero() {
    assert_eq!(hex_str_to_dec("g"), 0);
    assert_eq!(hex_str_to_dec("G"), 0);
    assert_eq!(hex_str_to_dec("1g"), 0x10);
    assert_eq!(hex_str_to_dec("1G"), 0x10);
    assert_eq!(hex_str_to_dec("@"), 0);
    assert_eq!(hex_str_to_dec("`"), 0);
    assert_eq!(hex_str_to_dec("0x1f"), 0x001f);
    assert_eq!(hex_str_to_dec("+1"), 0x01);
    assert_eq!(hex_str_to_dec(" 1"), 0x01);
    assert_eq!(hex_str_to_dec("1 "), 0x10);
}

#[test]
fn characters_outside_ascii_take_no_place() {
    assert_eq!(hex_str_to_dec("é"), 0);
    assert_eq!(hex_str_to_dec("1é0"), 0x10);
    assert_eq!(hex_str_to_dec("1é"), 0x1);
    assert_eq!(hex_str_to_dec("٣1"), 0x1);
}

#[test]
fn long_statuses_keep_their_low_thirty_two_bits() {
    assert_eq!(hex_str_to_dec("100000000"), 0);
    assert_eq!(hex_str_to_dec("100000010"), 0x10);
    assert_eq!(hex_str_to_dec("123456789abcdef"), 0x89abcdef);
    assert!(Node::from(&record("n", "f00000010")).is_some());
    assert!(Node::from(&record("n", "f0000000f")).is_none());
}

#[test]
fn liveness_is_bit_four_of_the_decoded_status() {
    let statuses = [
        "0", "1", "f", "10", "11", "1f", "20", "2f", "30", "3f", "ef", "ff", "100", "110", "d",
        "1d", "700001f", "8000000", "ffffffef", "fffffff0", "", "zz", "1z", "z1", "B0", "F0",
        "1F", "EF", "A0", "D",
    ];
    for status in statuses {
        let live = Node::from(&record("n", status)).is_some();
        assert_eq!(live, hex_str_to_dec(status) & 0x10 != 0, "{:?}", status);
        assert_eq!(live, (hex_str_to_dec(status) / 16) % 2 == 1, "{:?}", status);
    }
}

#[test]
fn a_live_record_gives_an_unplaced_node() {
    let node = Node::from(&record("alpha", "1f")).expect("bit 4 is set");
    assert_eq!(node.name, "alpha");
    assert_eq!(node.index, 0);
    assert_eq!(node.id, 0);
    assert_eq!(node.edges, 0);
    assert_eq!(node.reachable, 1);
    assert_eq!(node.version, 0);
    assert_eq!(node.group, 0);
    assert!(node.nets.is_empty());
}

#[test]
fn a_record_without_the_bit_gives_no_node() {
    assert!(Node::from(&record("alpha", "0")).is_none());
    assert!(Node::from(&record("alpha", "f")).is_none());
    assert!(Node::from(&record("alpha", "2f")).is_none());
    assert!(Node::from(&record("alpha", "")).is_none());
    assert!(Node::from(&record("alpha", "live")).is_none());
}

#[test]
fn live_nodes_are_numbered_in_dump_order() {
    let nodes = Node::load_nodes(
        vec![
            record("a", "0"),
            record("b", "10"),
            record("c", "1f"),
            record("d", "f"),
            record("e", "30"),
        ],
        vec![],
    );
    assert_eq!(nodes.len(), 3);
    let names: Vec<&str> = nodes.iter().map(|n| n.name.as_str()).collect();
    assert_eq!(names, vec!["b", "c", "e"]);
    for (place, node) in nodes.iter().enumerate() {
        assert_eq!(node.index as usize, place + 1);
        assert_eq!(node.id, node.index);
        assert_eq!(node.edges, 0);
        assert_eq!(node.reachable, 1);
        assert!(node.nets.is_empty());
    }
}

#[test]
fn no_records_give_no_nodes() {
    assert!(Node::load_nodes(vec![], vec![]).is_empty());
    assert!(Node::load_nodes(vec![], vec![subnet("a", "10.0.0.0/8")]).is_empty());
    assert!(Node::load_nodes(vec![record("a", "0"), record("b", "f")], vec![]).is_empty());
}

#[test]
fn nodes_carry_their_subnets_in_the_order_announced() {
    let nodes = Node::load_nodes(
        vec![record("a", "10"), record("b", "10"), record("c", "0"), record("d", "10")],
        vec![
            subnet("b", "10.0.2.0/24"),
            subnet("a", "10.0.1.0/24"),
            subnet("c", "10.0.3.0/24"),
            subnet("a", "fd00::/64"),
            subnet("z", "10.9.9.9/32"),
            subnet("a", "10.0.1.0/24"),
        ],
    );
    assert_eq!(nodes.len(), 3);
    assert_eq!(nodes[0].name, "a");
    assert_eq!(nodes[0].nets, vec!["10.0.1.0/24", "fd00::/64", "10.0.1.0/24"]);
    assert_eq!(nodes[1].name, "b");
    assert_eq!(nodes[1].nets, vec!["10.0.2.0/24"]);
    assert_eq!(nodes[2].name, "d");
    assert!(nodes[2].nets.is_empty());
    assert_eq!(nodes[2].index, 3);
}

#[test]
fn nodes_of_one_name_each_get_a_number() {
    let nodes = Node::load_nodes(
        vec![record("a", "10"), record("a", "10")],
        vec![subnet("a", "10.0.0.1/32")],
    );
    assert_eq!(nodes.len(), 2);
    assert_eq!(nodes[0].index, 1);
    assert_eq!(nodes[1].index, 2);
    assert_eq!(nodes[0].nets, vec!["10.0.0.1/32"]);
    assert_eq!(nodes[1].nets, vec!["10.0.0.1/32"]);
}

#[test]
fn subnets_are_matched_by_the_whole_name() {
    let announced = vec![
        subnet("node", "1"),
        subnet("node1", "2"),
        subnet("Node", "3"),
        subnet("node", "4"),
        subnet("", "5"),
    ];
    assert_eq!(collect_subnets(&announced, &"node".to_string()), vec!["1", "4"]);
    assert_eq!(collect_subnets(&announced, &"node1".to_string()), vec!["2"]);
    assert_eq!(collect_subnets(&announced, &"".to_string()), vec!["5"]);
    assert!(collect_subnets(&announced, &"nod".to_string()).is_empty());
    assert!(collect_subnets(&vec![], &"node".to_string()).is_empty());
}

#[test]
fn nodes_are_the_live_records_at_their_places_in_the_dump() {
    let dump = vec![
        record("a", "EF"),
        record("b", "B0"),
        record("c", "10"),
        record("d", "0"),
        record("e", "1f"),
        record("f", "2F"),
        record("g", "F0"),
    ];
    let places: Vec<usize> = dump
        .iter()
        .enumerate()
        .filter(|(_, r)| u32::from_str_radix(&r.status_int, 16).unwrap() & 0x10 != 0)
        .map(|(i, _)| i)
        .collect();
    assert_eq!(places, vec![1, 2, 4, 6]);
    let names: Vec<String> = places.iter().map(|&p| dump[p].node.clone()).collect();
    let nodes = Node::load_nodes(dump, vec![]);
    assert_eq!(nodes.len(), places.len());
    for (k, node) in nodes.iter().enumerate() {
        assert_eq!(node.index, k as u32 + 1);
        assert_eq!(node.id, node.index);
        assert_eq!(node.name, names[k]);
    }
}
