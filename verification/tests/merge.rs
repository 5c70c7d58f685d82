use pagegraph::graph::{Edge, Node, PageGraph, PageGraphDescriptor, PageGraphTime};
use pagegraph::ids::{EdgeId, FrameId, NodeId};
use pagegraph::merge::MergeFault;
use pagegraph::types::{EdgeType, NodeType};

fn desc_of(is_root: bool) -> PageGraphDescriptor {
    PageGraphDescriptor {
        version: "0.7.2".to_string(),
        about: "test".to_string(),
        url: "http://site.com/".to_string(),
        is_root,
        frame_id: FrameId(1),
        time: PageGraphTime { start: 1, end: 2 },
    }
}

fn node_of(id: usize, node_type: NodeType) -> Node {
    Node { id: NodeId::from(id), node_timestamp: 0, node_type }
}

fn edge_of(id: usize, source: usize, target: usize, edge_type: EdgeType) -> Edge {
    Edge {
        id: EdgeId::from(id),
        edge_timestamp: Some(id as isize),
        edge_type,
        source: NodeId::from(source),
        target: NodeId::from(target),
    }
}

fn root_node(id: usize, dom: usize) -> Node {
    node_of(id, NodeType::DomRoot {
        url: Some("http://frame.org/".to_string()),
        tag_name: "html".to_string(),
        is_deleted: false,
        node_id: dom,
    })
}

fn parent_graph() -> PageGraph {
    let nodes = vec![
        root_node(0, 1),
        node_of(1, NodeType::Parser {}),
        node_of(2, NodeType::FrameOwner { tag_name: "iframe".to_string(), is_deleted: false, node_id: 2 }),
        node_of(3, NodeType::RemoteFrame { frame_id: FrameId(0xabc) }),
        node_of(4, NodeType::RemoteFrame { frame_id: FrameId(0xdef) }),
    ];
    let edges = vec![
        edge_of(0, 1, 2, EdgeType::CreateNode {}),
        edge_of(1, 2, 3, EdgeType::CrossDom {}),
    ];
    PageGraph::new(desc_of(true), edges, nodes).unwrap()
}

fn child_graph() -> PageGraph {
    let nodes = vec![
        node_of(0, NodeType::Parser {}),
        root_node(1, 1),
        node_of(2, NodeType::HtmlElement { tag_name: "p".to_string(), is_deleted: false, node_id: 2 }),
        root_node(3, 3),
    ];
    let edges = vec![
        edge_of(0, 0, 2, EdgeType::CreateNode {}),
        edge_of(1, 0, 2, EdgeType::InsertNode { parent: 1, before: None }),
        edge_of(2, 2, 3, EdgeType::CrossDom {}),
    ];
    PageGraph::new(desc_of(false), edges, nodes).unwrap()
}

#[test]
fn merge_adds_the_nodes_of_the_frame_and_two_crossings() {
    let mut parent = parent_graph();
    let child = child_graph();
    let frame = FrameId(0xabc);
    let nodes_before = parent.nodes.len();
    let edges_before = parent.edges.len();
    let child_nodes = child.nodes.len();
    let child_edges = child.edges.len();
    assert_eq!(parent.all_remote_frame_ids(), vec![FrameId(0xabc), FrameId(0xdef)]);
    parent.merge_frame(child, &frame);

    assert_eq!(parent.nodes.len(), nodes_before + child_nodes);
    assert_eq!(parent.edges.len(), edges_before + 2 + child_edges);
    let place = NodeId::from(3);
    let new_crossings: Vec<&Edge> = parent.edges[edges_before..]
        .iter()
        .filter(|e| matches!(e.edge_type, EdgeType::CrossDom {}) && e.source == place)
        .collect();
    assert_eq!(new_crossings.len(), 2);
    assert_eq!(new_crossings[0].id, EdgeId::from(usize::MAX));
    assert_eq!(new_crossings[0].target, NodeId::from(0).copy_for_frame_id(&frame));
    assert_eq!(new_crossings[0].edge_timestamp, None);
    assert_eq!(new_crossings[1].id, EdgeId::from(usize::MAX - 1));
    assert_eq!(new_crossings[1].target, NodeId::from(1).copy_for_frame_id(&frame));
    assert_eq!(parent.next_edge_id, usize::MAX - 2);

    let moved = parent.node(NodeId::from(2).copy_for_frame_id(&frame)).unwrap();
    assert!(matches!(&moved.node_type, NodeType::HtmlElement { tag_name, .. } if tag_name == "p"));
    let incoming: Vec<String> = parent.incoming_edges(moved).iter().map(|e| e.id.to_string()).collect();
    assert_eq!(
        incoming,
        vec![
            "e0:00000000000000000000000000000ABC".to_string(),
            "e1:00000000000000000000000000000ABC".to_string()
        ]
    );
    let place_node = parent.node(place).unwrap();
    let leaving: Vec<usize> = parent.outgoing_edges(place_node).iter().map(|e| e.id.0.id).collect();
    assert_eq!(leaving, vec![usize::MAX, usize::MAX - 1]);
    assert!(parent.node(NodeId::from(2)).is_some());
    let old = parent.edge(EdgeId::from(1)).unwrap();
    assert_eq!(old.target, place);
}

#[test]
fn merged_frame_is_downstream_of_the_crossing_into_its_place() {
    let mut parent = parent_graph();
    parent.merge_frame(child_graph(), &FrameId(0xabc));
    let seed = parent.edge(EdgeId::from(1)).unwrap();
    let effects = parent.all_downstream_effects_of(seed);
    let mut found: Vec<String> = effects.iter().map(|e| e.id.to_string()).collect();
    found.sort();
    assert_eq!(
        found,
        vec![
            "e0:00000000000000000000000000000ABC".to_string(),
            format!("e{}", usize::MAX - 1),
            format!("e{}", usize::MAX),
            "e1:00000000000000000000000000000ABC".to_string(),
        ]
    );
}

#[test]
fn merge_twice_into_two_places() {
    let mut parent = parent_graph();
    assert_eq!(parent.try_merge_frame(child_graph(), &FrameId(0xabc)), Ok(()));
    assert_eq!(parent.try_merge_frame(child_graph(), &FrameId(0xdef)), Ok(()));
    assert_eq!(parent.nodes.len(), 5 + 4 + 4);
    assert_eq!(parent.edges.len(), 2 + 5 + 5);
    assert_eq!(parent.next_edge_id, usize::MAX - 4);
    assert_eq!(parent.try_merge_frame(child_graph(), &FrameId(0xabc)), Err(MergeFault::TakenIds));
    assert_eq!(parent.nodes.len(), 13);
}

#[test]
fn merge_is_refused_where_the_graphs_do_not_fit() {
    let frame = FrameId(0xabc);
    let mut not_root = child_graph();
    assert_eq!(not_root.try_merge_frame(child_graph(), &frame), Err(MergeFault::NotRoot));

    let mut parent = parent_graph();
    assert_eq!(parent.try_merge_frame(parent_graph(), &frame), Err(MergeFault::FrameIsRoot));
    assert_eq!(parent.try_merge_frame(child_graph(), &FrameId(5)), Err(MergeFault::NoPlace));

    let no_parser = PageGraph::new(desc_of(false), vec![], vec![root_node(1, 1)]).unwrap();
    assert_eq!(parent.try_merge_frame(no_parser, &frame), Err(MergeFault::NoAnchors));
    let two_roots = PageGraph::new(
        desc_of(false),
        vec![],
        vec![root_node(1, 1), root_node(2, 2), node_of(0, NodeType::Parser {})],
    )
    .unwrap();
    assert_eq!(parent.try_merge_frame(two_roots, &frame), Err(MergeFault::NoAnchors));

    let framed = PageGraph::new(
        desc_of(false),
        vec![],
        vec![
            root_node(1, 1),
            Node {
                id: NodeId::from(0).copy_for_frame_id(&FrameId(9)),
                node_timestamp: 0,
                node_type: NodeType::Parser {},
            },
        ],
    )
    .unwrap();
    assert_eq!(parent.try_merge_frame(framed, &frame), Err(MergeFault::TakenIds));

    let mut taken = PageGraph::new(
        desc_of(true),
        vec![edge_of(usize::MAX - 1, 0, 0, EdgeType::Structure {})],
        vec![node_of(0, NodeType::RemoteFrame { frame_id: frame })],
    )
    .unwrap();
    assert_eq!(taken.try_merge_frame(child_graph(), &frame), Err(MergeFault::TakenIds));
    assert_eq!(taken.edges.len(), 1);
    assert_eq!(parent.nodes.len(), 5);
}
