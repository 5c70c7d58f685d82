use pagegraph::graph::{Edge, Node, PageGraph, PageGraphDescriptor, PageGraphTime};
use pagegraph::ids::{EdgeId, FrameId, NodeId};
use pagegraph::rules::{get_domain, site_from, third_party, wanted_verdict};
use pagegraph::types::{EdgeType, NodeType, RequestType};

fn describe(url: &str) -> PageGraphDescriptor {
    PageGraphDescriptor {
        version: "0.7.2".to_string(),
        about: "test".to_string(),
        url: url.to_string(),
        is_root: true,
        frame_id: FrameId(1),
        time: PageGraphTime { start: 1, end: 2 },
    }
}

fn a_node(id: usize, node_type: NodeType) -> Node {
    Node { id: NodeId::from(id), node_timestamp: 0, node_type }
}

fn an_edge(id: usize, at: Option<isize>, source: usize, target: usize, edge_type: EdgeType) -> Edge {
    Edge {
        id: EdgeId::from(id),
        edge_timestamp: at,
        edge_type,
        source: NodeId::from(source),
        target: NodeId::from(target),
    }
}

fn a_script(id: usize) -> NodeType {
    NodeType::Script { url: None, script_type: "classic".to_string(), script_id: id, source: "".to_string() }
}

fn an_element(tag: &str, dom: usize) -> NodeType {
    NodeType::HtmlElement { tag_name: tag.to_string(), is_deleted: false, node_id: dom }
}

fn a_resource(url: &str) -> NodeType {
    NodeType::Resource { url: url.to_string() }
}

fn a_start(id: usize, request_type: RequestType) -> EdgeType {
    EdgeType::RequestStart { request_type, status: "".to_string(), request_id: id }
}

fn a_complete(id: usize, size: &str) -> EdgeType {
    EdgeType::RequestComplete {
        resource_type: "script".to_string(),
        status: "".to_string(),
        value: None,
        response_hash: None,
        request_id: id,
        headers: "".to_string(),
        size: size.to_string(),
    }
}

#[test]
fn modifications_come_in_the_order_of_time_without_structure() {
    let nodes = vec![a_node(0, an_element("div", 1)), a_node(1, a_script(1)), a_node(2, NodeType::Parser {})];
    let edges = vec![
        an_edge(0, Some(30), 1, 0, EdgeType::SetAttribute { key: "a".to_string(), value: None, is_style: false }),
        an_edge(1, Some(10), 2, 0, EdgeType::CreateNode {}),
        an_edge(2, None, 2, 0, EdgeType::Structure {}),
        an_edge(3, Some(20), 2, 0, EdgeType::InsertNode { parent: 7, before: None }),
        an_edge(4, Some(20), 1, 0, EdgeType::DeleteAttribute { key: "a".to_string(), is_style: false }),
        an_edge(5, Some(-5), 1, 0, EdgeType::AddEventListener { key: "k".to_string(), event_listener_id: 1, script_id: 1 }),
        an_edge(6, Some(1), 0, 1, EdgeType::Structure {}),
    ];
    let g = PageGraph::new(describe("http://x"), edges, nodes).unwrap();
    let changes = g.all_html_element_modifications(NodeId::from(0));
    let order: Vec<usize> = changes.iter().map(|(id, _)| id.0.id).collect();
    assert_eq!(order, vec![5, 1, 4, 3, 0]);
    for pair in changes.windows(2) {
        assert!(pair[0].1.edge_timestamp.unwrap() <= pair[1].1.edge_timestamp.unwrap());
    }
    for (id, edge) in &changes {
        assert!(!matches!(edge.edge_type, EdgeType::Structure {}));
        assert_eq!(**id, edge.id);
    }
    assert!(g.try_all_html_element_modifications(NodeId::from(1)).is_none());
    assert!(g.try_all_html_element_modifications(NodeId::from(9)).is_none());
}

#[test]
fn modifications_need_times() {
    let nodes = vec![a_node(0, an_element("div", 1)), a_node(1, a_script(1))];
    let edges = vec![an_edge(0, None, 1, 0, EdgeType::CreateNode {})];
    let g = PageGraph::new(describe("http://x"), edges, nodes).unwrap();
    assert!(g.try_all_html_element_modifications(NodeId::from(0)).is_none());
}

#[test]
fn request_types_of_a_resource() {
    let nodes = vec![
        a_node(0, a_resource("http://x/a")),
        a_node(1, a_script(1)),
        a_node(2, a_resource("http://x/b")),
    ];
    let edges = vec![
        an_edge(0, None, 1, 0, a_start(1, RequestType::Script)),
        an_edge(1, None, 1, 0, a_start(2, RequestType::Image)),
        an_edge(2, None, 1, 0, a_start(3, RequestType::Script)),
        an_edge(3, None, 1, 0, a_start(4, RequestType::CSS)),
        an_edge(4, None, 1, 0, a_start(5, RequestType::AJAX)),
        an_edge(5, None, 1, 0, a_start(6, RequestType::Unknown)),
        an_edge(6, None, 1, 0, a_start(7, RequestType::Script)),
        an_edge(7, None, 0, 1, a_complete(1, "120")),
        an_edge(8, None, 0, 1, a_complete(3, "120")),
        an_edge(9, None, 0, 1, a_complete(2, "streamed")),
        an_edge(10, None, 0, 1, a_complete(4, "+7")),
        an_edge(11, None, 0, 1, a_complete(1, "999")),
        an_edge(12, None, 0, 1, EdgeType::Structure {}),
    ];
    let g = PageGraph::new(describe("http://x"), edges, nodes).unwrap();
    assert_eq!(
        g.resource_request_types(&NodeId::from(0)),
        vec![
            ("script".to_string(), Some(120)),
            ("image".to_string(), None),
            ("stylesheet".to_string(), Some(7)),
            ("xhr".to_string(), None),
            ("unknown".to_string(), None),
            ("script".to_string(), None),
        ]
    );
    assert_eq!(g.resource_request_types(&NodeId::from(2)), vec![("other".to_string(), None)]);
    assert!(g.try_resource_request_types(&NodeId::from(1)).is_none());
    assert!(g.try_resource_request_types(&NodeId::from(8)).is_none());
}

#[test]
fn request_type_names_and_labels() {
    assert_eq!(RequestType::from("Image"), RequestType::Image);
    assert_eq!(RequestType::from("Script"), RequestType::Script);
    assert_eq!(RequestType::from("CSS"), RequestType::CSS);
    assert_eq!(RequestType::from("AJAX"), RequestType::AJAX);
    assert_eq!(RequestType::from("Unknown"), RequestType::Unknown);
    assert_eq!(RequestType::from("image"), RequestType::Unknown);
    assert_eq!(RequestType::from(""), RequestType::Unknown);
    assert_eq!(RequestType::Image.as_str(), "image");
    assert_eq!(RequestType::Script.as_str(), "script");
    assert_eq!(RequestType::CSS.as_str(), "stylesheet");
    assert_eq!(RequestType::AJAX.as_str(), "xhr");
    assert_eq!(RequestType::Unknown.as_str(), "unknown");
}

#[test]
fn scripts_and_the_resources_they_ask_for() {
    let nodes = vec![
        a_node(0, an_element("script", 1)),
        a_node(1, a_script(1)),
        a_node(2, a_script(2)),
        a_node(3, a_resource("http://x/a")),
        a_node(4, a_resource("http://x/b")),
        a_node(5, a_resource("http://x/c")),
        a_node(6, an_element("div", 2)),
    ];
    let edges = vec![
        an_edge(0, None, 0, 3, a_start(1, RequestType::Script)),
        an_edge(1, None, 0, 1, EdgeType::Execute {}),
        an_edge(2, None, 0, 2, EdgeType::Execute {}),
        an_edge(3, None, 1, 4, a_start(2, RequestType::Image)),
        an_edge(4, None, 2, 5, a_start(3, RequestType::Image)),
        an_edge(5, None, 2, 4, a_start(4, RequestType::Image)),
        an_edge(6, None, 1, 4, a_start(5, RequestType::Image)),
    ];
    let g = PageGraph::new(describe("http://x"), edges, nodes).unwrap();
    let listed = |found: Vec<(NodeId, &Node)>| found.iter().map(|(id, _)| id.0.id).collect::<Vec<usize>>();
    assert_eq!(listed(g.resources_from_script(NodeId::from(0))), vec![3, 4, 5, 4]);
    assert_eq!(listed(g.resources_from_script(NodeId::from(1))), vec![4]);
    assert_eq!(listed(g.resources_from_script(NodeId::from(2))), vec![5, 4]);
    assert!(g.try_resources_from_script(NodeId::from(6)).is_none());
    assert!(g.try_resources_from_script(NodeId::from(3)).is_none());
    assert_eq!(listed(g.scripts_that_caused_resource(NodeId::from(4))), vec![1, 2]);
    assert_eq!(listed(g.scripts_that_caused_resource(NodeId::from(3))), vec![0]);
    assert!(g.try_scripts_that_caused_resource(NodeId::from(0)).is_none());
    for (id, node) in g.scripts_that_caused_resource(NodeId::from(4)) {
        assert_eq!(id, node.id);
    }
    assert_eq!(g.root_url(), "http://x");
}

fn ad_graph(page: &str) -> PageGraph {
    let nodes = vec![
        a_node(0, a_resource("http://ads.example.com/a.js")),
        a_node(1, a_resource("http://cdn.site.com/b.js")),
        a_node(2, a_script(1)),
        a_node(3, a_resource("not an address")),
        a_node(4, a_resource("data:text/plain,hello")),
        a_node(5, a_resource("http://ads.example.com/never-asked-for.js")),
        a_node(6, an_element("script", 1)),
    ];
    let edges = vec![
        an_edge(0, None, 2, 0, a_start(1, RequestType::Script)),
        an_edge(1, None, 2, 1, a_start(2, RequestType::Script)),
        an_edge(2, None, 2, 1, a_start(3, RequestType::Image)),
    ];
    PageGraph::new(describe(page), edges, nodes).unwrap()
}

#[test]
fn resources_matching_a_filter() {
    let g = ad_graph("http://site.com");
    let listed = |found: Vec<(NodeId, &Node)>| found.iter().map(|(id, _)| id.0.id).collect::<Vec<usize>>();
    assert_eq!(listed(g.resources_matching_filter("||ads.example.com^", false)), vec![0, 5]);
    assert_eq!(listed(g.resources_matching_filter("||ads.example.com^$script", false)), vec![0]);
    assert_eq!(listed(g.resources_matching_filter("||cdn.site.com^$image", false)), vec![1]);
    assert_eq!(listed(g.resources_matching_filter("||cdn.site.com^$stylesheet", false)), Vec::<usize>::new());
    assert_eq!(listed(g.resources_matching_filter("||nothing.example^", false)), Vec::<usize>::new());
    assert_eq!(listed(g.resources_matching_filter("||ads.example.com^", true)), Vec::<usize>::new());
    assert_eq!(listed(g.resources_matching_filter("@@||ads.example.com^", true)), vec![0, 5]);
    assert_eq!(listed(g.resources_matching_filter("@@||ads.example.com^", false)), Vec::<usize>::new());
    for (id, node) in g.resources_matching_filter("||ads.example.com^", false) {
        assert_eq!(id, node.id);
        assert!(matches!(node.node_type, NodeType::Resource { .. }));
    }
}

#[test]
fn resources_matching_filters_know_third_parties() {
    let g = ad_graph("http://www.site.com/index.html");
    let listed = |found: Vec<(NodeId, &Node)>| found.iter().map(|(id, _)| id.0.id).collect::<Vec<usize>>();
    let rules = |rules: &[&str]| rules.iter().map(|r| r.to_string()).collect::<Vec<String>>();
    assert_eq!(listed(g.resources_matching_filters(rules(&["||cdn.site.com^$third-party"]), false)), Vec::<usize>::new());
    assert_eq!(listed(g.resources_matching_filters(rules(&["||cdn.site.com^$~third-party"]), false)), vec![1]);
    assert_eq!(listed(g.resources_matching_filters(rules(&["||ads.example.com^$third-party"]), false)), vec![0, 5]);
    assert_eq!(
        listed(g.resources_matching_filters(rules(&["||ads.example.com^", "||cdn.site.com^"]), false)),
        vec![0, 1, 5]
    );
    assert_eq!(
        listed(g.resources_matching_filters(rules(&["||ads.example.com^", "@@||ads.example.com^$script"]), false)),
        vec![5]
    );
    assert_eq!(listed(g.resources_matching_filters(rules(&[]), false)), Vec::<usize>::new());
}

#[test]
fn resources_matching_filters_need_a_page_with_a_site() {
    assert!(ad_graph("no address").try_resources_matching_filter("||ads.example.com^", false).is_none());
    assert!(ad_graph("data:text/plain,x").try_resources_matching_filter("||ads.example.com^", false).is_none());
    assert!(ad_graph("http://localhost:8080/").try_resources_matching_filter("||ads.example.com^", false).is_some());
}

#[test]
fn sites_of_hosts() {
    assert_eq!(get_domain("localhost"), Some("localhost".to_string()));
    assert_eq!(get_domain("www.example.com"), Some("example.com".to_string()));
    assert_eq!(get_domain("example.com"), Some("example.com".to_string()));
    assert_eq!(get_domain("a.b.example.co.uk"), Some("example.co.uk".to_string()));
    assert_eq!(get_domain(""), None);
    assert_eq!(site_from("localhost", None), Some("localhost".to_string()));
    assert_eq!(site_from("localhost", Some("x".to_string())), Some("localhost".to_string()));
    assert_eq!(site_from("www.a.com", Some("a.com".to_string())), Some("a.com".to_string()));
    assert_eq!(site_from("www.a.com", None), None);
    assert!(third_party("a.com", "b.com"));
    assert!(!third_party("a.com", "a.com"));
    assert!(third_party("", ""));
    assert!(wanted_verdict((true, false), false));
    assert!(!wanted_verdict((true, false), true));
    assert!(wanted_verdict((false, true), true));
    assert!(!wanted_verdict((false, true), false));
}
