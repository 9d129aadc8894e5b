use tincmgr::failure::FailureKind;
use tincmgr::fields::split_fields;
use tincmgr::tinc_tcp_stream::{
    dump_edges, dump_nodes, dump_subnets, find_end, greeting_line, is_end, parse_edge,
    parse_identity, parse_node, parse_subnet, EdgeLayout, IdentityLayout, NodeLayout, Request,
    SubnetLayout, CONTROL, GREETING_REPLIES,
};

const NODE_LINE: &str = "18 3 alpha 0a1b2c3d4e5f 192.0.2.7 port 655 0 0 0 0 700000c 1f beta beta 1 1518 1518 1518 1600000000";
const EDGE_LINE: &str = "18 4 alpha beta 192.0.2.8 port 655 192.0.2.7 port 49152 0 25";
const SUBNET_LINE: &str = "18 5 10.0.0.1/32 alpha";

fn lines(text: &[&str]) -> Vec<String> {
    text.iter().map(|l| l.to_string()).collect()
}

#[test]
fn a_line_splits_at_runs_of_spaces() {
    assert_eq!(split_fields("18 3 alpha"), vec!["18", "3", "alpha"]);
    assert_eq!(split_fields("  18   3\talpha \r\n"), vec!["18", "3", "alpha"]);
    assert_eq!(split_fields("alpha"), vec!["alpha"]);
    assert_eq!(split_fields("a\x0cb"), vec!["a", "b"]);
    assert_eq!(split_fields("a\nb"), vec!["a", "b"]);
    assert!(split_fields("").is_empty());
    assert!(split_fields(" \t \n").is_empty());
}

#[test]
fn only_the_five_ascii_spaces_part_fields() {
    assert_eq!(split_fields("a\u{a0}b"), vec!["a\u{a0}b"]);
    assert_eq!(split_fields("a\x0bb"), vec!["a\x0bb"]);
    assert_eq!(split_fields("é ü"), vec!["é", "ü"]);
}

#[test]
fn splitting_agrees_with_the_standard_splitter() {
    let samples = [
        "", " ", "a", " a", "a ", " a ", "a b", "a  b", "\ta\tb\t", "18 3 x y z", "a\r\nb",
        NODE_LINE, EDGE_LINE, SUBNET_LINE, "é  ü\tß",
    ];
    for text in samples {
        let expected: Vec<&str> = text.split_ascii_whitespace().collect();
        assert_eq!(split_fields(text), expected, "{:?}", text);
    }
}

#[test]
fn the_layouts_are_those_of_the_daemon() {
    assert_eq!(NodeLayout::tinc(), NodeLayout { node: 2, status_int: 12 });
    assert_eq!(EdgeLayout::tinc(), EdgeLayout { from: 2, to: 3, weight: 11 });
    assert_eq!(SubnetLayout::tinc(), SubnetLayout { name: 3, addr: 2 });
    assert_eq!(IdentityLayout::tinc(), IdentityLayout { cookie: 1, port: 4 });
}

#[test]
fn a_node_line_gives_name_and_status() {
    let record = parse_node(NODE_LINE, &NodeLayout::tinc()).expect("all fields are there");
    assert_eq!(record.node, "alpha");
    assert_eq!(record.status_int, "1f");
}

#[test]
fn a_status_that_is_no_number_is_handed_on_as_text() {
    let line = "18 3 alpha id host port 655 0 0 0 0 0 what? - - 0 0 0 0 0";
    let record = parse_node(line, &NodeLayout::tinc()).expect("all fields are there");
    assert_eq!(record.status_int, "what?");
}

#[test]
fn a_node_line_cut_short_is_malformed() {
    let layout = NodeLayout::tinc();
    assert_eq!(
        parse_node("18 3 alpha id host port 655 0 0 0 0 700000c", &layout).err(),
        Some(FailureKind::MalformedRecord)
    );
    assert_eq!(parse_node("18 3", &layout).err(), Some(FailureKind::MalformedRecord));
    assert_eq!(parse_node("", &layout).err(), Some(FailureKind::MalformedRecord));
    assert!(parse_node("18 3 alpha id host port 655 0 0 0 0 700000c 1f", &layout).is_ok());
}

#[test]
fn an_edge_line_gives_both_names_and_the_weight() {
    let record = parse_edge(EDGE_LINE, &EdgeLayout::tinc()).expect("all fields are there");
    assert_eq!(record.from, "alpha");
    assert_eq!(record.to, "beta");
    assert_eq!(record.weight, "25");
}

#[test]
fn a_weight_that_is_no_number_is_handed_on_as_text() {
    let line = "18 4 alpha beta host port 655 host port 655 0 heavy";
    let record = parse_edge(line, &EdgeLayout::tinc()).expect("all fields are there");
    assert_eq!(record.weight, "heavy");
}

#[test]
fn an_edge_line_cut_short_is_malformed() {
    let layout = EdgeLayout::tinc();
    assert_eq!(
        parse_edge("18 4 alpha beta host port 655 host port 655 0", &layout).err(),
        Some(FailureKind::MalformedRecord)
    );
    assert_eq!(parse_edge("18 4 alpha", &layout).err(), Some(FailureKind::MalformedRecord));
}

#[test]
fn a_subnet_line_gives_address_and_owner() {
    let record = parse_subnet(SUBNET_LINE, &SubnetLayout::tinc()).expect("all fields are there");
    assert_eq!(record.name, "alpha");
    assert_eq!(record.addr, "10.0.0.1/32");
}

#[test]
fn a_subnet_line_cut_short_is_malformed() {
    let layout = SubnetLayout::tinc();
    assert_eq!(
        parse_subnet("18 5 10.0.0.1/32", &layout).err(),
        Some(FailureKind::MalformedRecord)
    );
    assert_eq!(parse_subnet("", &layout).err(), Some(FailureKind::MalformedRecord));
}

#[test]
fn another_layout_reads_other_fields() {
    let record = parse_node("alpha 10", &NodeLayout { node: 0, status_int: 1 }).unwrap();
    assert_eq!((record.node.as_str(), record.status_int.as_str()), ("alpha", "10"));
    let record = parse_node("alpha 10", &NodeLayout { node: 1, status_int: 1 }).unwrap();
    assert_eq!((record.node.as_str(), record.status_int.as_str()), ("10", "10"));
    assert!(parse_node("alpha 10", &NodeLayout { node: 0, status_int: 2 }).is_err());
    assert!(parse_node("alpha 10", &NodeLayout { node: usize::MAX, status_int: 0 }).is_err());
}

#[test]
fn a_dump_ends_at_the_line_of_two_fields() {
    assert!(is_end("18 3"));
    assert!(is_end(" 18\t3 \n"));
    assert!(is_end("x y"));
    assert!(!is_end("18"));
    assert!(!is_end(""));
    assert!(!is_end("18 3 alpha"));
    assert!(!is_end(NODE_LINE));

    assert_eq!(find_end(&lines(&[NODE_LINE, NODE_LINE, "18 3"])), Some(2));
    assert_eq!(find_end(&lines(&["18 3"])), Some(0));
    assert_eq!(find_end(&lines(&["18 3", NODE_LINE, "18 3"])), Some(0));
    assert_eq!(find_end(&lines(&[NODE_LINE, "", "18"])), None);
    assert_eq!(find_end(&lines(&[])), None);
}

#[test]
fn a_node_dump_gives_its_records_in_order() {
    let other = NODE_LINE.replace("alpha", "gamma").replace(" 1f ", " f ");
    let nodes = dump_nodes(&lines(&[NODE_LINE, &other, "18 3"]), &NodeLayout::tinc())
        .expect("the dump ends");
    assert_eq!(nodes.len(), 2);
    assert_eq!((nodes[0].node.as_str(), nodes[0].status_int.as_str()), ("alpha", "1f"));
    assert_eq!((nodes[1].node.as_str(), nodes[1].status_int.as_str()), ("gamma", "f"));
}

#[test]
fn malformed_lines_of_a_dump_are_passed_over() {
    let nodes = dump_nodes(
        &lines(&["18 3 broken", NODE_LINE, "", "garbage", NODE_LINE, "18 3"]),
        &NodeLayout::tinc(),
    )
    .expect("the dump ends");
    assert_eq!(nodes.len(), 2);

    let edges = dump_edges(
        &lines(&[EDGE_LINE, "18 4 alpha beta", EDGE_LINE, "18 4"]),
        &EdgeLayout::tinc(),
    )
    .expect("the dump ends");
    assert_eq!(edges.len(), 2);
    assert_eq!(edges[1].weight, "25");

    let subnets = dump_subnets(
        &lines(&["18 5 lonely", SUBNET_LINE, "18 5"]),
        &SubnetLayout::tinc(),
    )
    .expect("the dump ends");
    assert_eq!(subnets.len(), 1);
    assert_eq!(subnets[0].addr, "10.0.0.1/32");
}

#[test]
fn lines_after_the_end_of_a_dump_are_not_read() {
    let edges = dump_edges(&lines(&[EDGE_LINE, "18 4", EDGE_LINE, EDGE_LINE]), &EdgeLayout::tinc())
        .expect("the dump ends");
    assert_eq!(edges.len(), 1);
}

#[test]
fn an_empty_dump_gives_no_records() {
    assert_eq!(dump_nodes(&lines(&["18 3"]), &NodeLayout::tinc()).map(|v| v.len()), Some(0));
    assert_eq!(dump_edges(&lines(&["18 4"]), &EdgeLayout::tinc()).map(|v| v.len()), Some(0));
    assert_eq!(dump_subnets(&lines(&["18 5"]), &SubnetLayout::tinc()).map(|v| v.len()), Some(0));
}

#[test]
fn a_dump_that_never_ends_gives_nothing() {
    assert!(dump_nodes(&lines(&[NODE_LINE, NODE_LINE]), &NodeLayout::tinc()).is_none());
    assert!(dump_edges(&lines(&[EDGE_LINE]), &EdgeLayout::tinc()).is_none());
    assert!(dump_subnets(&lines(&[SUBNET_LINE]), &SubnetLayout::tinc()).is_none());
    assert!(dump_nodes(&lines(&[]), &NodeLayout::tinc()).is_none());
}

#[test]
fn the_identity_file_gives_port_and_cookie() {
    let line = "4242 0123456789abcdef0123456789abcdef 127.0.0.1 port 655\n";
    let identity = parse_identity(line, &IdentityLayout::tinc()).expect("port and cookie");
    assert_eq!(identity.port, 655);
    assert_eq!(identity.cookie, "0123456789abcdef0123456789abcdef");

    let identity = parse_identity("1 c h port 65535", &IdentityLayout::tinc()).unwrap();
    assert_eq!(identity.port, 65535);
    let identity = parse_identity("1 c h port 0", &IdentityLayout::tinc()).unwrap();
    assert_eq!(identity.port, 0);
}

#[test]
fn an_identity_file_without_port_or_cookie_is_no_identity() {
    let layout = IdentityLayout::tinc();
    for line in [
        "",
        "4242",
        "4242 cookie",
        "4242 cookie 127.0.0.1 port",
        "4242 cookie 127.0.0.1 port tinc",
        "4242 cookie 127.0.0.1 port 65536",
        "4242 cookie 127.0.0.1 port -1",
        "4242 cookie 127.0.0.1 port 6.55",
    ] {
        assert_eq!(
            parse_identity(line, &layout).err(),
            Some(FailureKind::IdentityNotFound),
            "{:?}",
            line
        );
    }
}

#[test]
fn requests_are_the_control_number_and_their_own() {
    assert_eq!(CONTROL, 18);
    assert_eq!(Request::DumpNodes.line(), "18 3");
    assert_eq!(Request::DumpEdges.line(), "18 4");
    assert_eq!(Request::DumpSubnets.line(), "18 5");
    assert_eq!(Request::Purge.line(), "18 8");
}

#[test]
fn a_dump_request_reads_as_the_end_of_its_dump() {
    assert!(is_end(&Request::DumpNodes.line()));
    assert!(is_end(&Request::DumpEdges.line()));
    assert!(is_end(&Request::DumpSubnets.line()));
}

#[test]
fn the_greeting_holds_the_cookie() {
    assert_eq!(greeting_line("c00c1e"), "0 ^c00c1e 0");
    assert_eq!(greeting_line(""), "0 ^ 0");
    assert_eq!(GREETING_REPLIES, 2);
}
