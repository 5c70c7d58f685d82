use pagegraph::graph::{
    DownstreamRequests, Edge, GraphFault, Node, PageGraph, PageGraphDescriptor, PageGraphTime,
};
use pagegraph::ids::{is_same_frame_context, EdgeId, FrameId, NodeId};
use pagegraph::types::{EdgeType, NodeType, RequestType};

fn desc(url: &str) -> PageGraphDescriptor {
    PageGraphDescriptor {
        version: "0.7.2".to_string(),
        about: "test".to_string(),
        url: url.to_string(),
        is_root: true,
        frame_id: FrameId(7),
        time: PageGraphTime { start: 1, end: 2 },
    }
}

fn node(id: usize, node_type: NodeType) -> Node {
    Node { id: NodeId::from(id), node_timestamp: id as isize, node_type }
}

fn edge(id: usize, at: Option<isize>, source: usize, target: usize, edge_type: EdgeType) -> Edge {
    Edge {
        id: EdgeId::from(id),
        edge_timestamp: at,
        edge_type,
        source: NodeId::from(source),
        target: NodeId::from(target),
    }
}

fn element(tag: &str, dom: usize) -> NodeType {
    NodeType::HtmlElement { tag_name: tag.to_string(), is_deleted: false, node_id: dom }
}

fn script(id: usize) -> NodeType {
    NodeType::Script {
        url: None,
        script_type: "classic".to_string(),
        script_id: id,
        source: "...".to_string(),
    }
}

fn resource(url: &str) -> NodeType {
    NodeType::Resource { url: url.to_string() }
}

fn start(id: usize) -> EdgeType {
    EdgeType::RequestStart {
        request_type: RequestType::Script,
        status: "started".to_string(),
        request_id: id,
    }
}

fn complete(id: usize, resource_type: &str, size: &str) -> EdgeType {
    EdgeType::RequestComplete {
        resource_type: resource_type.to_string(),
        status: "complete".to_string(),
        value: None,
        response_hash: None,
        request_id: id,
        headers: "".to_string(),
        size: size.to_string(),
    }
}

fn set_attribute(key: &str) -> EdgeType {
    EdgeType::SetAttribute { key: key.to_string(), value: None, is_style: false }
}

fn ids(edges: &Vec<&Edge>) -> Vec<usize> {
    let mut found: Vec<usize> = edges.iter().map(|e| e.id.0.id).collect();
    found.sort();
    found
}

/// A page whose script element runs a script; the script asks for a script
/// that arrives at a second script element, which runs a second script, and
/// that one asks for an image.
fn page() -> PageGraph {
    let nodes = vec![
        node(0, NodeType::DomRoot {
            url: Some("http://x".to_string()),
            tag_name: "html".to_string(),
            is_deleted: false,
            node_id: 1,
        }),
        node(1, element("script", 2)),
        node(2, script(10)),
        node(3, resource("http://x/a.js")),
        node(4, NodeType::Parser {}),
        node(5, element("script", 3)),
        node(6, script(11)),
        node(7, resource("http://x/b.png")),
    ];
    let edges = vec![
        edge(0, Some(1), 4, 1, EdgeType::CreateNode {}),
        edge(1, Some(2), 1, 2, EdgeType::Execute {}),
        edge(2, Some(3), 2, 3, start(5)),
        edge(3, Some(4), 3, 5, complete(5, "script", "120")),
        edge(4, Some(5), 5, 6, EdgeType::Execute {}),
        edge(5, Some(6), 6, 7, start(6)),
        edge(6, Some(7), 7, 6, complete(6, "image", "n/a")),
        edge(7, Some(8), 3, 2, EdgeType::RequestError {
            status: "failed".to_string(),
            request_id: 9,
            value: None,
            headers: "".to_string(),
            size: "0".to_string(),
        }),
    ];
    PageGraph::new(desc("http://x"), edges, nodes).unwrap()
}

#[test]
fn executed_script_causes_its_request_and_the_answer() {
    let nodes = vec![
        node(0, NodeType::DomRoot {
            url: Some("http://x".to_string()),
            tag_name: "html".to_string(),
            is_deleted: false,
            node_id: 1,
        }),
        node(1, script(10)),
        node(2, NodeType::Parser {}),
        node(3, resource("http://x/a.js")),
        node(4, element("script", 2)),
    ];
    let edges = vec![
        edge(0, Some(1), 2, 4, EdgeType::CreateNode {}),
        edge(1, Some(2), 4, 1, EdgeType::Execute {}),
        edge(2, Some(3), 1, 3, start(5)),
        edge(3, Some(4), 3, 1, complete(5, "script", "10")),
    ];
    let g = PageGraph::new(desc("http://x"), edges, nodes).unwrap();
    let seed = g.edge(EdgeId::from(1)).unwrap();
    let effects = g.all_downstream_effects_of(seed);
    assert_eq!(ids(&effects), vec![2, 3]);
    assert!(matches!(effects[0].edge_type, EdgeType::RequestStart { request_id: 5, .. }));
    assert!(matches!(effects[1].edge_type, EdgeType::RequestComplete { request_id: 5, .. }));
}

#[test]
fn direct_effects_follow_the_kind_of_the_edge() {
    let g = page();
    let of = |id: usize| ids(&g.direct_downstream_effects_of(g.edge(EdgeId::from(id)).unwrap()));
    assert_eq!(of(0), Vec::<usize>::new());
    assert_eq!(of(1), vec![2]);
    assert_eq!(of(2), vec![3]);
    assert_eq!(of(3), vec![4]);
    assert_eq!(of(4), vec![5]);
    assert_eq!(of(5), vec![6]);
    assert_eq!(of(6), Vec::<usize>::new());
    assert_eq!(of(7), Vec::<usize>::new());
}

#[test]
fn request_start_is_answered_by_its_own_request_only() {
    let g = page();
    let seed = g.edge(EdgeId::from(2)).unwrap();
    let effects = g.direct_downstream_effects_of(seed);
    assert_eq!(effects.len(), 1);
    for effect in effects {
        match &effect.edge_type {
            EdgeType::RequestComplete { request_id, .. } => assert_eq!(*request_id, 5),
            EdgeType::RequestError { request_id, .. } => assert_eq!(*request_id, 5),
            _ => panic!("not an answer"),
        }
    }
}

#[test]
fn edges_of_other_kinds_have_no_rule() {
    let nodes = vec![node(0, element("div", 1)), node(1, script(1))];
    let edges = vec![
        edge(0, Some(1), 1, 0, EdgeType::Structure {}),
        edge(1, Some(1), 1, 0, EdgeType::JsCall { args: None, script_position: 0 }),
        edge(2, Some(1), 1, 0, EdgeType::DeleteAttribute { key: "src".to_string(), is_style: false }),
        edge(3, Some(1), 1, 0, EdgeType::Filter {}),
        edge(4, Some(1), 1, 0, EdgeType::CrossDom {}),
    ];
    let g = PageGraph::new(desc("http://x"), edges, nodes).unwrap();
    for id in 0..5 {
        let seed = g.edge(EdgeId::from(id)).unwrap();
        assert!(g.try_direct_downstream_effects_of(seed).is_none());
        assert!(g.try_all_downstream_effects_of(seed).is_none());
    }
}

#[test]
fn downstream_never_holds_the_seed_and_is_closed() {
    let g = page();
    for id in 0..8 {
        let seed = g.edge(EdgeId::from(id)).unwrap();
        let all = g.all_downstream_effects_of(seed);
        let found = ids(&all);
        assert!(!found.contains(&id));
        let mut unique = found.clone();
        unique.dedup();
        assert_eq!(unique, found);
        for effect in &all {
            for next in g.direct_downstream_effects_of(effect) {
                assert!(next.id == seed.id || found.contains(&next.id.0.id));
            }
            for later in g.all_downstream_effects_of(effect) {
                assert!(later.id == seed.id || found.contains(&later.id.0.id));
            }
        }
    }
    let seed = g.edge(EdgeId::from(1)).unwrap();
    assert_eq!(ids(&g.all_downstream_effects_of(seed)), vec![2, 3, 4, 5, 6]);
}

#[test]
fn downstream_stops_at_a_loop_of_runs() {
    let nodes = vec![node(0, script(1)), node(1, script(2))];
    let edges = vec![
        edge(0, Some(1), 0, 1, EdgeType::Execute {}),
        edge(1, Some(2), 1, 0, EdgeType::Execute {}),
        edge(2, Some(3), 1, 0, EdgeType::Execute {}),
    ];
    let g = PageGraph::new(desc("http://x"), edges, nodes).unwrap();
    let seed = g.edge(EdgeId::from(0)).unwrap();
    assert_eq!(ids(&g.all_downstream_effects_of(seed)), vec![1, 2]);
}

fn flat(forest: &Vec<DownstreamRequests>, into: &mut Vec<usize>) {
    for tree in forest {
        into.push(tree.request_id);
        flat(&tree.children, into);
    }
}

#[test]
fn nested_requests_lay_out_what_is_downstream() {
    let g = page();
    let seed = g.edge(EdgeId::from(1)).unwrap();
    let forest = g.all_downstream_requests_nested(seed);
    assert_eq!(forest.len(), 1);
    assert_eq!(forest[0].request_id, 5);
    assert_eq!(forest[0].url, "http://x/a.js");
    assert_eq!(forest[0].request_type, RequestType::Script);
    assert_eq!(forest[0].node_id, NodeId::from(3));
    assert_eq!(forest[0].children.len(), 1);
    assert_eq!(forest[0].children[0].request_id, 6);
    assert_eq!(forest[0].children[0].url, "http://x/b.png");
    assert_eq!(forest[0].children[0].node_id, NodeId::from(7));
    assert!(forest[0].children[0].children.is_empty());

    let mut in_forest = Vec::new();
    flat(&forest, &mut in_forest);
    in_forest.sort();
    let mut downstream: Vec<usize> = g
        .all_downstream_effects_of(seed)
        .iter()
        .filter_map(|e| match &e.edge_type {
            EdgeType::RequestStart { request_id, .. } => Some(*request_id),
            _ => None,
        })
        .collect();
    downstream.sort();
    assert_eq!(in_forest, downstream);
    assert_eq!(in_forest, vec![5, 6]);
}

#[test]
fn nested_requests_need_resources_and_no_circles() {
    let nodes = vec![node(0, script(1)), node(1, element("script", 2)), node(2, script(2))];
    let edges = vec![
        edge(0, Some(1), 1, 0, EdgeType::Execute {}),
        edge(1, Some(2), 0, 2, start(1)),
    ];
    let g = PageGraph::new(desc("http://x"), edges, nodes).unwrap();
    let seed = g.edge(EdgeId::from(0)).unwrap();
    assert!(g.try_all_downstream_requests_nested(seed).is_none());

    let nodes = vec![node(0, resource("http://x/a")), node(1, element("script", 2)), node(2, script(2))];
    let edges = vec![
        edge(0, Some(1), 2, 0, start(1)),
        edge(1, Some(2), 0, 1, complete(1, "script", "1")),
        edge(2, Some(3), 1, 2, EdgeType::Execute {}),
    ];
    let g = PageGraph::new(desc("http://x"), edges, nodes).unwrap();
    let seed = g.edge(EdgeId::from(0)).unwrap();
    assert_eq!(ids(&g.all_downstream_effects_of(seed)), vec![1, 2]);
    assert!(g.try_all_downstream_requests_nested(seed).is_none());
}

#[test]
fn inserted_text_runs_the_next_script_of_its_parent() {
    let nodes = vec![
        node(0, NodeType::TextNode { text: Some("x()".to_string()), is_deleted: false, node_id: 9 }),
        node(1, element("script", 4)),
        node(2, script(1)),
        node(3, NodeType::Parser {}),
        node(4, element("div", 5)),
    ];
    let edges = vec![
        edge(0, Some(10), 3, 0, EdgeType::InsertNode { parent: 4, before: None }),
        edge(1, Some(5), 1, 2, EdgeType::Execute {}),
        edge(2, Some(12), 1, 2, EdgeType::Execute {}),
        edge(3, Some(11), 1, 2, EdgeType::Execute {}),
        edge(4, Some(11), 1, 2, EdgeType::Execute {}),
        edge(5, Some(10), 3, 4, EdgeType::InsertNode { parent: 4, before: None }),
        edge(6, Some(10), 3, 0, EdgeType::InsertNode { parent: 5, before: None }),
        edge(7, Some(10), 3, 0, EdgeType::InsertNode { parent: 77, before: None }),
        edge(8, Some(13), 3, 0, EdgeType::InsertNode { parent: 4, before: None }),
    ];
    let g = PageGraph::new(desc("http://x"), edges, nodes).unwrap();
    let of = |id: usize| g.try_direct_downstream_effects_of(g.edge(EdgeId::from(id)).unwrap());
    assert_eq!(ids(&of(0).unwrap()), vec![3]);
    assert_eq!(ids(&of(5).unwrap()), Vec::<usize>::new());
    assert_eq!(ids(&of(6).unwrap()), Vec::<usize>::new());
    assert!(of(7).is_none());
    assert_eq!(ids(&of(8).unwrap()), Vec::<usize>::new());
}

#[test]
fn setting_src_sends_requests_or_loads_frames() {
    let nodes = vec![
        node(0, element("img", 1)),
        node(1, element("div", 2)),
        node(2, script(1)),
        node(3, resource("http://x/i.png")),
        node(4, NodeType::FrameOwner { tag_name: "iframe".to_string(), is_deleted: false, node_id: 3 }),
        node(5, NodeType::DomRoot {
            url: Some("about:blank".to_string()),
            tag_name: "html".to_string(),
            is_deleted: false,
            node_id: 4,
        }),
        node(6, NodeType::DomRoot {
            url: Some("http://y".to_string()),
            tag_name: "html".to_string(),
            is_deleted: false,
            node_id: 5,
        }),
        node(7, NodeType::RemoteFrame { frame_id: FrameId(3) }),
    ];
    let edges = vec![
        edge(0, Some(1), 2, 0, set_attribute("src")),
        edge(1, Some(2), 0, 3, start(1)),
        edge(2, Some(1), 2, 1, set_attribute("src")),
        edge(3, Some(2), 1, 3, start(2)),
        edge(4, Some(1), 2, 0, set_attribute("alt")),
        edge(5, Some(10), 2, 4, set_attribute("src")),
        edge(6, Some(20), 2, 4, set_attribute("src")),
        edge(7, Some(10), 4, 5, EdgeType::CrossDom {}),
        edge(8, Some(12), 4, 6, EdgeType::CrossDom {}),
        edge(9, Some(20), 4, 7, EdgeType::CrossDom {}),
        edge(10, Some(5), 4, 6, EdgeType::CrossDom {}),
    ];
    let g = PageGraph::new(desc("http://x"), edges, nodes).unwrap();
    let of = |id: usize| ids(&g.direct_downstream_effects_of(g.edge(EdgeId::from(id)).unwrap()));
    assert_eq!(of(0), vec![1]);
    assert_eq!(of(2), Vec::<usize>::new());
    assert_eq!(of(4), Vec::<usize>::new());
    assert_eq!(of(5), vec![8]);
    assert_eq!(of(6), vec![9]);
}

#[test]
fn setting_src_on_a_frame_needs_times() {
    let nodes = vec![
        node(0, script(1)),
        node(1, NodeType::FrameOwner { tag_name: "iframe".to_string(), is_deleted: false, node_id: 3 }),
    ];
    let edges = vec![edge(0, None, 0, 1, set_attribute("src"))];
    let g = PageGraph::new(desc("http://x"), edges, nodes).unwrap();
    assert!(g.try_direct_downstream_effects_of(g.edge(EdgeId::from(0)).unwrap()).is_none());
}

#[test]
fn crossing_into_a_document_gives_the_work_of_its_parser() {
    let root = |id: usize, dom: usize| {
        node(id, NodeType::DomRoot {
            url: Some("http://x".to_string()),
            tag_name: "html".to_string(),
            is_deleted: false,
            node_id: dom,
        })
    };
    let nodes = vec![
        node(0, NodeType::FrameOwner { tag_name: "iframe".to_string(), is_deleted: false, node_id: 1 }),
        root(1, 10),
        node(2, NodeType::Parser {}),
        node(3, element("body", 12)),
        node(4, element("p", 11)),
        root(5, 20),
        node(6, element("b", 21)),
        node(7, script(1)),
        node(8, element("i", 13)),
    ];
    let edges = vec![
        edge(0, Some(1), 0, 1, EdgeType::CrossDom {}),
        edge(1, Some(2), 2, 3, EdgeType::CreateNode {}),
        edge(2, Some(3), 2, 3, EdgeType::InsertNode { parent: 10, before: None }),
        edge(3, Some(4), 2, 4, EdgeType::CreateNode {}),
        edge(4, Some(5), 2, 4, EdgeType::InsertNode { parent: 12, before: None }),
        edge(5, Some(6), 2, 4, set_attribute("class")),
        edge(6, Some(7), 7, 4, set_attribute("id")),
        edge(7, Some(8), 2, 6, EdgeType::CreateNode {}),
        edge(8, Some(9), 2, 6, EdgeType::InsertNode { parent: 20, before: None }),
        edge(9, Some(9), 2, 8, EdgeType::CreateNode {}),
        edge(10, Some(9), 2, 4, EdgeType::Structure {}),
    ];
    let g = PageGraph::new(desc("http://x"), edges, nodes).unwrap();
    let seed = g.edge(EdgeId::from(0)).unwrap();
    let effects = g.direct_downstream_effects_of(seed);
    let order: Vec<usize> = effects.iter().map(|e| e.id.0.id).collect();
    assert_eq!(order, vec![3, 4, 5, 1, 2]);
}

#[test]
fn crossing_into_a_document_needs_one_parser_and_distinct_numbers() {
    let root = node(1, NodeType::DomRoot {
        url: None,
        tag_name: "html".to_string(),
        is_deleted: false,
        node_id: 10,
    });
    let owner = node(0, NodeType::FrameOwner { tag_name: "iframe".to_string(), is_deleted: false, node_id: 1 });
    let g = PageGraph::new(
        desc("http://x"),
        vec![edge(0, Some(1), 0, 1, EdgeType::CrossDom {})],
        vec![owner.clone(), root.clone()],
    )
    .unwrap();
    assert!(g.try_direct_downstream_effects_of(g.edge(EdgeId::from(0)).unwrap()).is_none());

    let g = PageGraph::new(
        desc("http://x"),
        vec![
            edge(0, Some(1), 0, 1, EdgeType::CrossDom {}),
            edge(1, Some(1), 2, 3, EdgeType::CreateNode {}),
            edge(2, Some(1), 2, 4, EdgeType::CreateNode {}),
        ],
        vec![
            owner.clone(),
            root.clone(),
            node(2, NodeType::Parser {}),
            node(3, element("a", 5)),
            node(4, element("b", 5)),
        ],
    )
    .unwrap();
    assert!(g.try_direct_downstream_effects_of(g.edge(EdgeId::from(0)).unwrap()).is_none());

    let g = PageGraph::new(
        desc("http://x"),
        vec![
            edge(0, Some(1), 0, 1, EdgeType::CrossDom {}),
            edge(1, Some(1), 2, 3, EdgeType::CreateNode {}),
            edge(2, Some(1), 2, 4, EdgeType::CreateNode {}),
            edge(3, Some(1), 2, 3, EdgeType::InsertNode { parent: 6, before: None }),
            edge(4, Some(1), 2, 4, EdgeType::InsertNode { parent: 5, before: None }),
        ],
        vec![
            owner,
            root,
            node(2, NodeType::Parser {}),
            node(3, element("a", 5)),
            node(4, element("b", 6)),
        ],
    )
    .unwrap();
    assert!(g.try_direct_downstream_effects_of(g.edge(EdgeId::from(0)).unwrap()).is_none());
}

#[test]
fn same_frame_context_is_equality_of_frames() {
    let plain = NodeId::from(1);
    let other = EdgeId::from(9);
    let framed = plain.copy_for_frame_id(&FrameId(3));
    let framed_edge = other.copy_for_frame_id(&FrameId(3));
    let elsewhere = other.copy_for_frame_id(&FrameId(4));
    assert!(is_same_frame_context(plain, other));
    assert!(is_same_frame_context(framed, framed_edge));
    assert!(!is_same_frame_context(plain, framed));
    assert!(!is_same_frame_context(framed, elsewhere));
    assert_eq!(framed, NodeId::try_from("n1:00000000000000000000000000000003").unwrap());
}

#[test]
fn a_graph_needs_distinct_identifiers_and_whole_edges() {
    let nodes = || vec![node(0, NodeType::Parser {}), node(1, element("p", 1))];
    let twice = vec![node(0, NodeType::Parser {}), node(0, element("p", 1))];
    assert_eq!(
        PageGraph::new(desc("http://x"), vec![], twice).err(),
        Some(GraphFault::RepeatedNode)
    );
    let edges = vec![
        edge(0, None, 0, 1, EdgeType::CreateNode {}),
        edge(0, None, 0, 1, EdgeType::Structure {}),
    ];
    assert_eq!(
        PageGraph::new(desc("http://x"), edges, nodes()).err(),
        Some(GraphFault::RepeatedEdge)
    );
    let edges = vec![edge(0, None, 0, 2, EdgeType::CreateNode {})];
    assert_eq!(
        PageGraph::new(desc("http://x"), edges, nodes()).err(),
        Some(GraphFault::DanglingEdge)
    );
    let edges = vec![edge(0, None, 0, 1, EdgeType::CreateNode {})];
    assert!(PageGraph::new(desc("http://x"), edges, nodes()).is_ok());
}

#[test]
fn edges_come_in_the_order_they_were_filed() {
    let nodes = vec![node(0, script(1)), node(1, element("p", 1)), node(2, element("q", 2))];
    let edges = vec![
        edge(0, None, 0, 1, EdgeType::CreateNode {}),
        edge(1, None, 0, 2, EdgeType::CreateNode {}),
        edge(2, None, 0, 1, set_attribute("a")),
        edge(3, None, 1, 0, EdgeType::Structure {}),
        edge(4, None, 0, 0, EdgeType::Execute {}),
        edge(5, None, 0, 2, set_attribute("b")),
    ];
    let g = PageGraph::new(desc("http://x"), edges, nodes).unwrap();
    let list = |edges: Vec<&Edge>| edges.iter().map(|e| e.id.0.id).collect::<Vec<usize>>();
    let n0 = g.node(NodeId::from(0)).unwrap();
    let n1 = g.node(NodeId::from(1)).unwrap();
    assert_eq!(list(g.outgoing_edges(n0)), vec![0, 2, 1, 5, 4]);
    assert_eq!(list(g.incoming_edges(n0)), vec![3, 4]);
    assert_eq!(list(g.incoming_edges(n1)), vec![0, 2]);
    assert_eq!(list(g.outgoing_edges(n1)), vec![3]);
    let names = |nodes: Vec<&Node>| nodes.iter().map(|n| n.id.0.id).collect::<Vec<usize>>();
    assert_eq!(names(g.outgoing_neighbors(n0)), vec![1, 2, 0]);
    assert_eq!(names(g.incoming_neighbors(n0)), vec![1, 0]);
    let e3 = g.edge(EdgeId::from(3)).unwrap();
    assert_eq!(g.source_node(e3).id, NodeId::from(1));
    assert_eq!(g.target_node(e3).id, NodeId::from(0));
    assert!(g.node(NodeId::from(3)).is_none());
    assert!(g.edge(EdgeId::from(6)).is_none());
    assert!(g.contains_node(NodeId::from(2)));
    assert!(!g.contains_node(NodeId::from(2).copy_for_frame_id(&FrameId(1))));
    assert!(e3 == &edge(3, Some(5), 2, 2, EdgeType::Execute {}));
    assert!(e3 != g.edge(EdgeId::from(4)).unwrap());
}

#[test]
fn nodes_and_edges_are_filtered_by_kind() {
    let g = page();
    let scripts = g.filter_nodes(|kind| matches!(kind, NodeType::Script { .. }));
    assert_eq!(scripts.iter().map(|n| n.id.0.id).collect::<Vec<usize>>(), vec![2, 6]);
    let runs = g.filter_edges(|kind| matches!(kind, EdgeType::Execute {}));
    assert_eq!(runs.iter().map(|e| e.id.0.id).collect::<Vec<usize>>(), vec![1, 4]);
    assert!(g.filter_nodes(|_| false).is_empty());
    assert_eq!(g.filter_edges(|_| true).len(), 8);
}
