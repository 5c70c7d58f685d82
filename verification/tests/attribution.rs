use pagegraph::graph::{Edge, Node, PageGraph, PageGraphDescriptor, PageGraphTime};
use pagegraph::ids::{EdgeId, FrameId, NodeId};
use pagegraph::types::{EdgeType, NodeType};

fn about(url: &str) -> PageGraphDescriptor {
    PageGraphDescriptor {
        version: "0.7.2".to_string(),
        about: "test".to_string(),
        url: url.to_string(),
        is_root: true,
        frame_id: FrameId(1),
        time: PageGraphTime { start: 1, end: 2 },
    }
}

fn at(id: usize, node_type: NodeType) -> Node {
    Node { id: NodeId::from(id), node_timestamp: 0, node_type }
}

fn link(id: usize, source: usize, target: usize, edge_type: EdgeType) -> Edge {
    Edge {
        id: EdgeId::from(id),
        edge_timestamp: Some(id as isize),
        edge_type,
        source: NodeId::from(source),
        target: NodeId::from(target),
    }
}

fn doc(url: Option<&str>, dom: usize) -> NodeType {
    NodeType::DomRoot { url: url.map(|u| u.to_string()), tag_name: "html".to_string(), is_deleted: false, node_id: dom }
}

fn tag(name: &str, dom: usize) -> NodeType {
    NodeType::HtmlElement { tag_name: name.to_string(), is_deleted: false, node_id: dom }
}

fn code(kind: &str) -> NodeType {
    NodeType::Script { url: None, script_type: kind.to_string(), script_id: 1, source: "".to_string() }
}

fn answer(id: usize) -> EdgeType {
    EdgeType::RequestComplete {
        resource_type: "script".to_string(),
        status: "".to_string(),
        value: None,
        response_hash: None,
        request_id: id,
        headers: "".to_string(),
        size: "1".to_string(),
    }
}

fn insert(parent: usize) -> EdgeType {
    EdgeType::InsertNode { parent, before: None }
}

fn document() -> PageGraph {
    let nodes = vec![
        at(0, doc(Some("http://top"), 1)),
        at(1, NodeType::Parser {}),
        at(2, tag("body", 2)),
        at(3, tag("script", 3)),
        at(4, code("classic")),
        at(5, tag("span", 4)),
        at(6, NodeType::FrameOwner { tag_name: "iframe".to_string(), is_deleted: false, node_id: 5 }),
        at(7, doc(Some("http://inner"), 6)),
        at(8, tag("em", 7)),
        at(9, NodeType::Resource { url: "http://top/r".to_string() }),
        at(10, code("module")),
        at(11, code("classic")),
        at(12, tag("script", 8)),
        at(13, NodeType::TextNode { text: None, is_deleted: false, node_id: 9 }),
    ];
    let edges = vec![
        link(0, 1, 2, insert(1)),
        link(1, 1, 3, insert(2)),
        link(2, 3, 4, EdgeType::Execute {}),
        link(3, 4, 5, EdgeType::CreateNode {}),
        link(4, 1, 6, insert(2)),
        link(5, 6, 7, EdgeType::CrossDom {}),
        link(6, 1, 8, insert(6)),
        link(7, 9, 3, answer(1)),
        link(8, 9, 4, answer(2)),
        link(9, 9, 1, answer(3)),
        link(10, 10, 11, EdgeType::Execute {}),
        link(11, 4, 11, EdgeType::Execute {}),
        link(12, 1, 12, insert(6)),
        link(13, 12, 11, EdgeType::Execute {}),
        link(14, 9, 11, answer(4)),
        link(15, 0, 4, EdgeType::Execute {}),
        link(16, 9, 9, answer(5)),
        link(17, 1, 13, EdgeType::CreateNode {}),
        link(18, 9, 10, answer(6)),
    ];
    PageGraph::new(about("http://top"), edges, nodes).unwrap()
}

fn root_of_node(g: &PageGraph, id: usize) -> Option<usize> {
    g.try_dom_root_for_html_node(g.node(NodeId::from(id)).unwrap()).map(|n| n.id.0.id)
}

fn root_of_edge(g: &PageGraph, id: usize) -> Option<Option<usize>> {
    g.try_dom_root_for_edge(g.edge(EdgeId::from(id)).unwrap()).map(|r| r.map(|n| n.id.0.id))
}

#[test]
fn elements_belong_to_the_document_they_hang_below() {
    let g = document();
    assert_eq!(root_of_node(&g, 0), Some(0));
    assert_eq!(root_of_node(&g, 2), Some(0));
    assert_eq!(root_of_node(&g, 3), Some(0));
    assert_eq!(root_of_node(&g, 6), Some(0));
    assert_eq!(root_of_node(&g, 8), Some(7));
    assert_eq!(root_of_node(&g, 12), Some(7));
    assert_eq!(root_of_node(&g, 5), Some(0));
    assert_eq!(root_of_node(&g, 4), None);
    assert_eq!(root_of_node(&g, 9), None);
    assert_eq!(root_of_node(&g, 13), None);
    let body = g.node(NodeId::from(2)).unwrap();
    assert_eq!(g.dom_root_for_html_node(body).unwrap().id, NodeId::from(0));
}

#[test]
fn edges_are_attributed_to_documents() {
    let g = document();
    assert_eq!(root_of_edge(&g, 2), Some(Some(0)));
    assert_eq!(root_of_edge(&g, 5), Some(Some(0)));
    assert_eq!(root_of_edge(&g, 7), Some(Some(0)));
    assert_eq!(root_of_edge(&g, 8), Some(Some(0)));
    assert_eq!(root_of_edge(&g, 9), Some(None));
    assert_eq!(root_of_edge(&g, 10), Some(Some(0)));
    assert_eq!(root_of_edge(&g, 11), Some(Some(0)));
    assert_eq!(root_of_edge(&g, 13), Some(Some(7)));
    assert_eq!(root_of_edge(&g, 14), Some(Some(7)));
    assert_eq!(root_of_edge(&g, 15), Some(Some(0)));
    assert_eq!(root_of_edge(&g, 16), None);
    assert_eq!(root_of_edge(&g, 0), None);
    assert_eq!(root_of_edge(&g, 3), None);
    assert_eq!(root_of_edge(&g, 18), Some(Some(0)));
    let run = g.edge(EdgeId::from(2)).unwrap();
    assert_eq!(g.dom_root_for_edge(run).unwrap().id, NodeId::from(0));
    let prefetch = g.edge(EdgeId::from(9)).unwrap();
    assert!(g.dom_root_for_edge(prefetch).is_none());
}

#[test]
fn local_context_root_is_the_one_root_nothing_crosses_into() {
    let g = document();
    assert_eq!(g.local_context_root_for_id(NodeId::from(5)).id, NodeId::from(0));
    assert_eq!(g.local_context_root_for_id(EdgeId::from(3)).id, NodeId::from(0));
    let elsewhere = NodeId::from(5).copy_for_frame_id(&FrameId(2));
    assert!(g.try_local_context_root_for_id(elsewhere).is_none());
    let two = PageGraph::new(about("http://x"), vec![], vec![at(0, doc(None, 1)), at(1, doc(None, 2))]).unwrap();
    assert!(two.try_local_context_root_for_id(NodeId::from(0)).is_none());
}

#[test]
fn ways_that_run_in_circles_have_no_end() {
    let nodes = vec![at(0, tag("a", 1)), at(1, tag("b", 2)), at(2, NodeType::Parser {}), at(3, tag("c", 3)), at(4, tag("d", 3))];
    let edges = vec![
        link(0, 2, 0, insert(2)),
        link(1, 2, 1, insert(1)),
        link(2, 2, 3, insert(9)),
        link(3, 2, 4, insert(3)),
    ];
    let g = PageGraph::new(about("http://x"), edges, nodes).unwrap();
    assert_eq!(root_of_node(&g, 0), None);
    assert_eq!(root_of_node(&g, 1), None);
    assert_eq!(root_of_node(&g, 3), None);
    assert_eq!(root_of_node(&g, 4), None);
}

#[test]
fn a_script_run_from_two_documents_belongs_to_the_first_address() {
    let nodes = vec![
        at(0, doc(Some("http://b"), 1)),
        at(1, doc(Some("http://a"), 2)),
        at(2, doc(None, 3)),
        at(3, code("classic")),
        at(4, tag("p", 4)),
        at(5, code("classic")),
        at(6, tag("q", 5)),
    ];
    let edges = vec![
        link(0, 0, 3, EdgeType::Execute {}),
        link(1, 2, 3, EdgeType::Execute {}),
        link(2, 1, 3, EdgeType::Execute {}),
        link(3, 3, 4, EdgeType::CreateNode {}),
        link(4, 2, 5, EdgeType::Execute {}),
        link(5, 5, 6, EdgeType::CreateNode {}),
    ];
    let g = PageGraph::new(about("http://x"), edges, nodes).unwrap();
    assert_eq!(root_of_node(&g, 4), Some(1));
    assert_eq!(root_of_node(&g, 6), None);
}
