use pagegraph::graph::GraphFault;
use pagegraph::graphml::{ReadFault, XmlItem};
use pagegraph::graphml_read::read_graph;
use pagegraph::graphml_text::{parse_bool, parse_loose_bool, parse_timestamp, parse_u64};
use pagegraph::ids::{EdgeId, FrameId, NodeId};
use pagegraph::text::{parse_usize, text_before};
use pagegraph::types::{EdgeType, NodeType, RequestType};

fn open(name: &str, attributes: &[(&str, &str)]) -> XmlItem {
    XmlItem::StartElement {
        name: name.to_string(),
        attributes: attributes.iter().map(|(k, v)| (k.to_string(), v.to_string())).collect(),
    }
}

fn close(name: &str) -> XmlItem {
    XmlItem::EndElement { name: name.to_string() }
}

fn text(value: &str) -> XmlItem {
    XmlItem::Characters(value.to_string())
}

fn field(name: &str, value: &str) -> Vec<XmlItem> {
    vec![open(name, &[]), text(value), close(name)]
}

fn key(id: &str, what: &str, name: &str) -> Vec<XmlItem> {
    vec![
        open("key", &[("id", id), ("for", what), ("attr.name", name), ("attr.type", "string")]),
        close("key"),
        XmlItem::Whitespace,
    ]
}

fn data(key: &str, value: &str) -> Vec<XmlItem> {
    vec![open("data", &[("key", key)]), text(value), close("data")]
}

fn head() -> Vec<XmlItem> {
    let mut items = vec![XmlItem::StartDocument, open("graphml", &[("xmlns", "x")]), XmlItem::Whitespace];
    for (id, name) in [("k0", "id"), ("k1", "node type"), ("k5", "timestamp"), ("k2", "url"), ("k3", "tag name"), ("k4", "is deleted"), ("k6", "node id"), ("k7", "text")] {
        items.extend(key(id, "node", name));
    }
    for (id, name) in [("e0", "id"), ("e1", "edge type"), ("e2", "timestamp"), ("e3", "parent"), ("e4", "before"), ("e5", "request type"), ("e6", "status"), ("e7", "request id")] {
        items.extend(key(id, "edge", name));
    }
    items.push(open("desc", &[]));
    items.extend(field("version", "0.7.2"));
    items.extend(field("about", "a recording"));
    items.extend(field("url", "https://example.org/"));
    items.extend(field("is_root", "true"));
    items.extend(field("frame_id", "0123456789ABCDEF0123456789abcdef"));
    items.push(open("time", &[]));
    items.extend(field("start", "100"));
    items.push(XmlItem::Whitespace);
    items.extend(field("end", "250"));
    items.push(close("time"));
    items.push(close("desc"));
    items.push(open("graph", &[("id", "G"), ("edgedefault", "directed")]));
    items
}

fn node(id: &str, fields: &[(&str, &str)]) -> Vec<XmlItem> {
    let mut items = vec![open("node", &[("id", id)])];
    for (key, value) in fields {
        items.extend(data(key, value));
        items.push(XmlItem::Whitespace);
    }
    items.push(close("node"));
    items
}

fn edge(id: &str, source: &str, target: &str, fields: &[(&str, &str)]) -> Vec<XmlItem> {
    let mut items = vec![open("edge", &[("id", id), ("source", source), ("target", target)])];
    for (key, value) in fields {
        items.extend(data(key, value));
    }
    items.push(close("edge"));
    items
}

fn tail() -> Vec<XmlItem> {
    vec![close("graph"), XmlItem::Whitespace, close("graphml"), XmlItem::Other]
}

fn recording(body: Vec<Vec<XmlItem>>) -> Vec<XmlItem> {
    let mut items = head();
    for part in body {
        items.extend(part);
    }
    items.extend(tail());
    items
}

#[test]
fn a_time_written_as_a_decimal_is_read_as_a_whole_number() {
    let items = recording(vec![node("n1", &[("k1", "parser"), ("k0", "1"), ("k5", "12345.0")])]);
    let g = read_graph(&items).unwrap();
    assert_eq!(g.node(NodeId::from(1)).unwrap().node_timestamp, 12345);
    assert_eq!(parse_timestamp("12345.0"), Some(12345));
}

#[test]
fn times_are_read_with_tolerance() {
    assert_eq!(parse_timestamp("17"), Some(17));
    assert_eq!(parse_timestamp("-17"), Some(-17));
    assert_eq!(parse_timestamp("+17"), Some(17));
    assert_eq!(parse_timestamp("1200.000"), Some(1200));
    assert_eq!(parse_timestamp("1200."), Some(1200));
    assert_eq!(parse_timestamp("0.0"), Some(0));
    assert_eq!(parse_timestamp("-3.0"), Some(-3));
    assert_eq!(parse_timestamp("soon"), Some(0));
    assert_eq!(parse_timestamp(""), Some(0));
    assert_eq!(parse_timestamp("99999999999999999999"), Some(0));
    assert_eq!(parse_timestamp("12.5"), None);
    assert_eq!(parse_timestamp("1.2.0"), None);
    assert_eq!(parse_timestamp("."), None);
    assert_eq!(parse_timestamp("9223372036854775807"), Some(isize::MAX));
    assert_eq!(parse_timestamp("-9223372036854775808"), Some(isize::MIN));
    assert_eq!(parse_timestamp("-9223372036854775809"), Some(0));
}

#[test]
fn numbers_and_truth_values_are_read_as_written() {
    assert_eq!(parse_usize("0"), Some(0));
    assert_eq!(parse_usize("007"), Some(7));
    assert_eq!(parse_usize("+7"), Some(7));
    assert_eq!(parse_usize("18446744073709551615"), Some(usize::MAX));
    assert_eq!(parse_usize("18446744073709551616"), None);
    assert_eq!(parse_usize("000000000000000000000000000001"), Some(1));
    assert_eq!(parse_usize("-1"), None);
    assert_eq!(parse_usize("1 "), None);
    assert_eq!(parse_usize(""), None);
    assert_eq!(parse_usize("+"), None);
    assert_eq!(parse_usize("++1"), None);
    assert_eq!(parse_usize("1a"), None);
    assert_eq!(parse_u64("250"), Some(250));
    assert_eq!(parse_u64("x"), None);
    assert_eq!(parse_bool("true"), Some(true));
    assert_eq!(parse_bool("false"), Some(false));
    assert_eq!(parse_bool("True"), None);
    assert_eq!(parse_loose_bool("True"), Some(true));
    assert_eq!(parse_loose_bool("FALSE"), Some(false));
    assert_eq!(parse_loose_bool("false"), Some(false));
    assert_eq!(parse_loose_bool("yes"), None);
    assert_eq!(parse_loose_bool("tru"), None);
    assert!(text_before("about:blank", "http://a"));
    assert!(text_before("http://a", "http://b"));
    assert!(text_before("http://a", "http://a/"));
    assert!(!text_before("http://a", "http://a"));
    assert!(!text_before("b", "a"));
    assert!(text_before("", "a"));
    assert!(!text_before("a", ""));
}

#[test]
fn a_recording_is_read_as_a_graph() {
    let items = recording(vec![
        node("n1", &[("k1", "parser"), ("k0", "1"), ("k5", "3")]),
        vec![XmlItem::Whitespace, open("note", &[]), close("note")],
        node("n2", &[("k5", "4.0"), ("k3", "script"), ("k1", "HTML element"), ("k4", "False"), ("k6", "17")]),
        node("n3", &[("k1", "text node"), ("k5", "5"), ("k4", "true"), ("k6", "18")]),
        node("n4", &[("k1", "resource"), ("k5", "5"), ("k2", "https://example.org/a.js")]),
        node("n5", &[("k1", "DOM root"), ("k5", "1"), ("k3", "html"), ("k4", "false"), ("k6", "1")]),
        edge("e1", "n1", "n2", &[("e1", "create node"), ("e0", "1"), ("e2", "7")]),
        edge("e2", "n1", "n3", &[("e1", "insert node"), ("e3", "17")]),
        edge("e3", "n2", "n4", &[("e1", "request start"), ("e5", "Script"), ("e6", "started"), ("e7", "9"), ("e2", "8.00")]),
        edge("e4", "n1", "n3", &[("e1", "insert node"), ("e3", "17"), ("e4", "16")]),
    ]);
    let g = read_graph(&items).unwrap();
    assert_eq!(g.desc.version, "0.7.2");
    assert_eq!(g.desc.about, "a recording");
    assert_eq!(g.desc.url, "https://example.org/");
    assert!(g.desc.is_root);
    assert_eq!(g.desc.frame_id, FrameId(0x0123456789ABCDEF0123456789abcdef));
    assert_eq!((g.desc.time.start, g.desc.time.end), (100, 250));
    assert_eq!(g.nodes.len(), 5);
    assert_eq!(g.edges.len(), 4);
    assert_eq!(g.node(NodeId::from(1)).unwrap().node_type, NodeType::Parser {});
    let element = g.node(NodeId::from(2)).unwrap();
    assert_eq!(element.node_timestamp, 4);
    assert_eq!(
        element.node_type,
        NodeType::HtmlElement { tag_name: "script".to_string(), is_deleted: false, node_id: 17 }
    );
    assert_eq!(
        g.node(NodeId::from(3)).unwrap().node_type,
        NodeType::TextNode { text: None, is_deleted: true, node_id: 18 }
    );
    assert_eq!(
        g.node(NodeId::from(5)).unwrap().node_type,
        NodeType::DomRoot { url: None, tag_name: "html".to_string(), is_deleted: false, node_id: 1 }
    );
    let made = g.edge(EdgeId::from(1)).unwrap();
    assert_eq!(made.edge_timestamp, Some(7));
    assert_eq!((made.source, made.target), (NodeId::from(1), NodeId::from(2)));
    assert_eq!(made.edge_type, EdgeType::CreateNode {});
    let put = g.edge(EdgeId::from(2)).unwrap();
    assert_eq!(put.edge_timestamp, None);
    assert_eq!(put.edge_type, EdgeType::InsertNode { parent: 17, before: None });
    assert_eq!(
        g.edge(EdgeId::from(4)).unwrap().edge_type,
        EdgeType::InsertNode { parent: 17, before: Some(16) }
    );
    let asked = g.edge(EdgeId::from(3)).unwrap();
    assert_eq!(asked.edge_timestamp, Some(8));
    assert_eq!(
        asked.edge_type,
        EdgeType::RequestStart { request_type: RequestType::Script, status: "started".to_string(), request_id: 9 }
    );
    let text_node = g.node(NodeId::from(3)).unwrap();
    let entering: Vec<usize> = g.incoming_edges(text_node).iter().map(|e| e.id.0.id).collect();
    assert_eq!(entering, vec![2, 4]);
    let run = g.direct_downstream_effects_of(put);
    assert!(run.is_empty());
}

#[test]
fn identifiers_of_a_frame_are_read_with_their_frame() {
    let items = recording(vec![
        node("n1:0000000000000000000000000000000A", &[("k1", "parser"), ("k0", "1"), ("k5", "3")]),
    ]);
    let g = read_graph(&items).unwrap();
    assert!(g.node(NodeId::from(1).copy_for_frame_id(&FrameId(10))).is_some());
    assert!(g.node(NodeId::from(1)).is_none());
}

fn malformed(body: Vec<Vec<XmlItem>>) -> bool {
    matches!(read_graph(&recording(body)), Err(ReadFault::Malformed))
}

#[test]
fn a_recording_must_be_written_as_one() {
    assert!(read_graph(&recording(vec![])).is_ok());
    let good: &[(&str, &str)] = &[("k1", "resource"), ("k5", "5"), ("k2", "u")];
    assert!(!malformed(vec![node("n4", good)]));
    assert!(malformed(vec![node("n4", &[("k1", "gadget"), ("k5", "5")])]));
    assert!(malformed(vec![node("n4", &[("k1", "resource"), ("k5", "5")])]));
    assert!(malformed(vec![node("n4", &[("k1", "resource"), ("k5", "5"), ("k2", "u"), ("k3", "extra")])]));
    assert!(malformed(vec![node("n4", &[("k1", "resource"), ("k5", "5"), ("k2", "u"), ("k99", "extra")])]));
    assert!(malformed(vec![node("n4", &[("k1", "resource"), ("k2", "u")])]));
    assert!(malformed(vec![node("n4", &[("k5", "5"), ("k2", "u")])]));
    assert!(malformed(vec![node("4", good)]));
    assert!(malformed(vec![node("e4", good)]));
    assert!(malformed(vec![node("n4", &[("k1", "resource"), ("k5", "5"), ("k2", "u"), ("k0", "5")])]));
    assert!(malformed(vec![node("n4", &[("k1", "resource"), ("k5", "5.5"), ("k2", "u")])]));
    assert!(malformed(vec![node("n4", &[("k1", "HTML element"), ("k5", "5"), ("k3", "p"), ("k4", "maybe"), ("k6", "1")])]));
    assert!(malformed(vec![node("n4", &[("k1", "HTML element"), ("k5", "5"), ("k3", "p"), ("k4", "true"), ("k6", "-1")])]));
    assert!(malformed(vec![vec![open("node", &[("id", "n1"), ("class", "x")]), close("node")]]));
    assert!(malformed(vec![vec![text("stray")]]));
    assert!(malformed(vec![vec![XmlItem::Other]]));
    assert!(malformed(vec![edge("e1", "n1", "n1", &[("e1", "teleport")])]));
    assert!(malformed(vec![edge("e1", "n1", "x1", &[("e1", "execute")])]));
    assert!(malformed(vec![edge("e1", "n1", "n1", &[("e1", "insert node"), ("e3", "1"), ("e4", "before")])]));
    assert!(malformed(vec![vec![open("edge", &[("id", "e1"), ("source", "n1")]), open("data", &[("key", "e1")]), text("execute"), close("data"), close("edge")]]));

    let mut late_key = head();
    late_key.extend(tail());
    late_key.truncate(late_key.len() - 3);
    late_key.extend(key("k9", "node", "late"));
    assert_eq!(read_graph(&late_key).err(), Some(ReadFault::Malformed));

    let mut no_desc = vec![XmlItem::StartDocument, open("graphml", &[])];
    no_desc.extend(key("k1", "node", "node type"));
    no_desc.push(open("graph", &[]));
    no_desc.extend(tail());
    assert_eq!(read_graph(&no_desc).err(), Some(ReadFault::Malformed));

    assert_eq!(read_graph(&vec![]).err(), Some(ReadFault::Malformed));
    assert_eq!(read_graph(&vec![XmlItem::StartDocument]).err(), Some(ReadFault::Malformed));
    assert_eq!(read_graph(&vec![XmlItem::StartDocument, open("html", &[])]).err(), Some(ReadFault::Malformed));
    assert_eq!(read_graph(&vec![open("graphml", &[]), open("graphml", &[])]).err(), Some(ReadFault::Malformed));

    let mut bad_key = vec![XmlItem::StartDocument, open("graphml", &[])];
    bad_key.push(open("key", &[("id", "k1"), ("for", "graph"), ("attr.name", "x"), ("attr.type", "string")]));
    bad_key.push(close("key"));
    assert_eq!(read_graph(&bad_key).err(), Some(ReadFault::Malformed));
}

#[test]
fn the_nodes_and_edges_of_a_recording_must_make_a_graph() {
    let parser: &[(&str, &str)] = &[("k1", "parser"), ("k5", "1")];
    let twice = recording(vec![node("n1", parser), node("n1", parser)]);
    assert_eq!(read_graph(&twice).err(), Some(ReadFault::Graph(GraphFault::RepeatedNode)));
    let dangling = recording(vec![node("n1", parser), edge("e1", "n1", "n2", &[("e1", "execute")])]);
    assert_eq!(read_graph(&dangling).err(), Some(ReadFault::Graph(GraphFault::DanglingEdge)));
    let repeated = recording(vec![
        node("n1", parser),
        edge("e1", "n1", "n1", &[("e1", "execute")]),
        edge("e1", "n1", "n1", &[("e1", "structure")]),
    ]);
    assert_eq!(read_graph(&repeated).err(), Some(ReadFault::Graph(GraphFault::RepeatedEdge)));
    let late_node = recording(vec![edge("e1", "n1", "n1", &[("e1", "execute")]), node("n1", parser)]);
    assert!(read_graph(&late_node).is_ok());
}
