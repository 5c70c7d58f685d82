//! Choosing nodes and edges by what they are.

use crate::graph::{edges_behind, nodes_behind, Edge, Node, PageGraph};
use crate::ids::{EdgeId, FrameId, HasFrameId, NodeId};
use crate::text::same_text;
use crate::types::{EdgeType, NodeType};
use vstd::prelude::*;

verus! {

/// Which edges are asked for.
#[derive(Clone, Copy, Debug)]
pub enum EdgeWanted {
    /// Edges that lead into another frame context.
    CrossDom,
    /// Edges that run a script.
    Execute,
    /// Edges that create an element.
    CreateNode,
    /// Edges that put an element into a document.
    InsertNode,
    /// Edges that send a request.
    RequestStart,
    /// The answers to the request `request_id`: its completion or its error.
    Answer { request_id: usize },
    /// What a running script does that this library follows: it sends a
    /// request, runs a script, or sets an attribute.
    ScriptWork,
    /// What the parser `parser` does to build a document: it creates an
    /// element, sets an attribute, or inserts an element.
    ParserWork { parser: NodeId },
    /// Edges of the frame `frame` that lead into another frame context.
    CrossDomIn { frame: Option<FrameId> },
    /// Edges that say what was done to an element: all but those of structure.
    Modification,
    /// Edges that run a script at or after the time `since`.
    RunSince { since: Option<isize> },
    /// Edges other than `but` that set the attribute `src`.
    SourceSetBut { but: EdgeId },
    /// Edges timed at or after `from` and, where there is one, before `until`.
    Within { from: isize, until: Option<isize> },
}

/// Whether the time `a` is at or before the time `b`; an unknown time is
/// before every known one.
pub open spec fn time_le(a: Option<isize>, b: Option<isize>) -> bool {
    match (a, b) {
        (None, _) => true,
        (Some(_), None) => false,
        (Some(x), Some(y)) => x <= y,
    }
}

/// Whether the time `a` is at or before the time `b`.
pub fn time_at_or_before(a: Option<isize>, b: Option<isize>) -> (le: bool)
    ensures
        le == time_le(a, b),
{
    match (a, b) {
        (None, _) => true,
        (Some(_), None) => false,
        (Some(x), Some(y)) => x <= y,
    }
}

/// Which nodes are asked for.
#[derive(Clone, Copy, Debug)]
pub enum NodeWanted {
    /// The element, document root or frame owner of the frame `frame` that
    /// the browser numbered `dom_id`.
    DomParent { frame: Option<FrameId>, dom_id: usize },
    /// The parsers of the frame `frame`.
    ParserIn { frame: Option<FrameId> },
    /// The places of the frame recorded under `frame_id`.
    RemoteFrame { frame_id: FrameId },
    /// The document roots.
    DomRoot,
    /// The parsers.
    Parser,
}

/// The number that the browser gave a node of the DOM.
pub open spec fn dom_id_of(node_type: NodeType) -> Option<usize> {
    match node_type {
        NodeType::DomRoot { node_id, .. } => Some(node_id),
        NodeType::HtmlElement { node_id, .. } => Some(node_id),
        NodeType::TextNode { node_id, .. } => Some(node_id),
        NodeType::FrameOwner { node_id, .. } => Some(node_id),
        _ => None,
    }
}

/// The number that the browser gave a node of the DOM.
pub fn dom_id(node_type: &NodeType) -> (id: Option<usize>)
    ensures
        id == dom_id_of(*node_type),
{
    match node_type {
        NodeType::DomRoot { node_id, .. } => Some(*node_id),
        NodeType::HtmlElement { node_id, .. } => Some(*node_id),
        NodeType::TextNode { node_id, .. } => Some(*node_id),
        NodeType::FrameOwner { node_id, .. } => Some(*node_id),
        _ => None,
    }
}

/// Whether two frames are the same frame, or both none.
pub fn same_frame(a: Option<FrameId>, b: Option<FrameId>) -> (same: bool)
    ensures
        same == (a == b),
{
    match (a, b) {
        (Some(x), Some(y)) => x.0 == y.0,
        (None, None) => true,
        _ => false,
    }
}

impl EdgeWanted {
    /// Whether `edge` is asked for.
    pub open spec fn wanted(self, edge: Edge) -> bool {
        match self {
            EdgeWanted::CrossDom => edge.edge_type is CrossDom,
            EdgeWanted::Execute => edge.edge_type is Execute,
            EdgeWanted::CreateNode => edge.edge_type is CreateNode,
            EdgeWanted::InsertNode => edge.edge_type is InsertNode,
            EdgeWanted::RequestStart => edge.edge_type is RequestStart,
            EdgeWanted::Answer { request_id } => match edge.edge_type {
                EdgeType::RequestComplete { request_id: answered, .. } => answered == request_id,
                EdgeType::RequestError { request_id: answered, .. } => answered == request_id,
                _ => false,
            },
            EdgeWanted::ScriptWork => edge.edge_type is RequestStart || edge.edge_type is Execute
                || edge.edge_type is SetAttribute,
            EdgeWanted::ParserWork { parser } => (edge.edge_type is CreateNode
                || edge.edge_type is SetAttribute || edge.edge_type is InsertNode) && edge.source
                == parser,
            EdgeWanted::CrossDomIn { frame } => edge.edge_type is CrossDom && edge.id.0.frame_id
                == frame,
            EdgeWanted::Modification => !(edge.edge_type is Structure),
            EdgeWanted::RunSince { since } => edge.edge_type is Execute && time_le(
                since,
                edge.edge_timestamp,
            ),
            EdgeWanted::SourceSetBut { but } => edge.id != but && match edge.edge_type {
                EdgeType::SetAttribute { key, .. } => key@ == "src"@,
                _ => false,
            },
            EdgeWanted::Within { from, until } => match edge.edge_timestamp {
                Some(at) => from <= at && match until {
                    Some(end) => at < end,
                    None => true,
                },
                None => false,
            },
        }
    }

    /// Whether `edge` is asked for.
    pub fn wants(&self, edge: &Edge) -> (wanted: bool)
        ensures
            wanted == self.wanted(*edge),
    {
        match self {
            EdgeWanted::CrossDom => match &edge.edge_type {
                EdgeType::CrossDom {  } => true,
                _ => false,
            },
            EdgeWanted::Execute => match &edge.edge_type {
                EdgeType::Execute {  } => true,
                _ => false,
            },
            EdgeWanted::CreateNode => match &edge.edge_type {
                EdgeType::CreateNode {  } => true,
                _ => false,
            },
            EdgeWanted::InsertNode => match &edge.edge_type {
                EdgeType::InsertNode { .. } => true,
                _ => false,
            },
            EdgeWanted::RequestStart => match &edge.edge_type {
                EdgeType::RequestStart { .. } => true,
                _ => false,
            },
            EdgeWanted::Answer { request_id } => match &edge.edge_type {
                EdgeType::RequestComplete { request_id: answered, .. } => *answered == *request_id,
                EdgeType::RequestError { request_id: answered, .. } => *answered == *request_id,
                _ => false,
            },
            EdgeWanted::ScriptWork => match &edge.edge_type {
                EdgeType::RequestStart { .. } => true,
                EdgeType::Execute {  } => true,
                EdgeType::SetAttribute { .. } => true,
                _ => false,
            },
            EdgeWanted::ParserWork { parser } => match &edge.edge_type {
                EdgeType::CreateNode {  } => edge.source == *parser,
                EdgeType::SetAttribute { .. } => edge.source == *parser,
                EdgeType::InsertNode { .. } => edge.source == *parser,
                _ => false,
            },
            EdgeWanted::CrossDomIn { frame } => match &edge.edge_type {
                EdgeType::CrossDom {  } => same_frame(edge.id.get_frame_id(), *frame),
                _ => false,
            },
            EdgeWanted::Modification => match &edge.edge_type {
                EdgeType::Structure {  } => false,
                _ => true,
            },
            EdgeWanted::RunSince { since } => match &edge.edge_type {
                EdgeType::Execute {  } => time_at_or_before(*since, edge.edge_timestamp),
                _ => false,
            },
            EdgeWanted::SourceSetBut { but } => edge.id != *but && match &edge.edge_type {
                EdgeType::SetAttribute { key, .. } => same_text(key.as_str(), "src"),
                _ => false,
            },
            EdgeWanted::Within { from, until } => match edge.edge_timestamp {
                Some(at) => *from <= at && match until {
                    Some(end) => at < *end,
                    None => true,
                },
                None => false,
            },
        }
    }
}

impl NodeWanted {
    /// Whether `node` is asked for.
    pub open spec fn wanted(self, node: Node) -> bool {
        match self {
            NodeWanted::DomParent { frame, dom_id } => node.id.0.frame_id == frame && match node.node_type {
                NodeType::HtmlElement { node_id, .. } => node_id == dom_id,
                NodeType::DomRoot { node_id, .. } => node_id == dom_id,
                NodeType::FrameOwner { node_id, .. } => node_id == dom_id,
                _ => false,
            },
            NodeWanted::ParserIn { frame } => node.node_type is Parser && node.id.0.frame_id
                == frame,
            NodeWanted::RemoteFrame { frame_id } => match node.node_type {
                NodeType::RemoteFrame { frame_id: recorded } => recorded == frame_id,
                _ => false,
            },
            NodeWanted::DomRoot => node.node_type is DomRoot,
            NodeWanted::Parser => node.node_type is Parser,
        }
    }

    /// Whether `node` is asked for.
    pub fn wants(&self, node: &Node) -> (wanted: bool)
        ensures
            wanted == self.wanted(*node),
    {
        match self {
            NodeWanted::DomParent { frame, dom_id } => same_frame(node.id.get_frame_id(), *frame)
                && match &node.node_type {
                NodeType::HtmlElement { node_id, .. } => *node_id == *dom_id,
                NodeType::DomRoot { node_id, .. } => *node_id == *dom_id,
                NodeType::FrameOwner { node_id, .. } => *node_id == *dom_id,
                _ => false,
            },
            NodeWanted::ParserIn { frame } => match &node.node_type {
                NodeType::Parser {  } => same_frame(node.id.get_frame_id(), *frame),
                _ => false,
            },
            NodeWanted::RemoteFrame { frame_id } => match &node.node_type {
                NodeType::RemoteFrame { frame_id: recorded } => recorded.0 == frame_id.0,
                _ => false,
            },
            NodeWanted::DomRoot => match &node.node_type {
                NodeType::DomRoot { .. } => true,
                _ => false,
            },
            NodeWanted::Parser => match &node.node_type {
                NodeType::Parser {  } => true,
                _ => false,
            },
        }
    }
}

/// The edges of `edges` that are asked for, in their order.
pub open spec fn picked(edges: Seq<Edge>, want: EdgeWanted) -> Seq<Edge> {
    edges.filter(|edge: Edge| want.wanted(edge))
}

/// The nodes of `nodes` that are asked for, in their order.
pub open spec fn picked_nodes(nodes: Seq<Node>, want: NodeWanted) -> Seq<Node> {
    nodes.filter(|node: Node| want.wanted(node))
}

/// A picked edge is asked for and is one of the edges picked from.
pub proof fn lemma_picked(edges: Seq<Edge>, want: EdgeWanted, i: int)
    requires
        0 <= i < picked(edges, want).len(),
    ensures
        want.wanted(picked(edges, want)[i]),
        edges.contains(picked(edges, want)[i]),
{
    let pred = |edge: Edge| want.wanted(edge);
    edges.lemma_filter_pred(pred, i);
    assert(edges.filter(pred).contains(picked(edges, want)[i]));
    edges.lemma_filter_contains_rev(pred, picked(edges, want)[i]);
}

/// A picked node is asked for and is one of the nodes picked from.
pub proof fn lemma_picked_node(nodes: Seq<Node>, want: NodeWanted, i: int)
    requires
        0 <= i < picked_nodes(nodes, want).len(),
    ensures
        want.wanted(picked_nodes(nodes, want)[i]),
        nodes.contains(picked_nodes(nodes, want)[i]),
{
    let pred = |node: Node| want.wanted(node);
    nodes.lemma_filter_pred(pred, i);
    assert(nodes.filter(pred).contains(picked_nodes(nodes, want)[i]));
    nodes.lemma_filter_contains_rev(pred, picked_nodes(nodes, want)[i]);
}

/// The edges of `edges` that are asked for, in their order.
pub fn pick_edges<'a>(edges: &Vec<&'a Edge>, want: &EdgeWanted) -> (found: Vec<&'a Edge>)
    ensures
        edges_behind(found@) == picked(edges_behind(edges@), *want),
{
    let ghost all = edges_behind(edges@);
    let ghost pred = |edge: Edge| want.wanted(edge);
    let mut found: Vec<&Edge> = Vec::new();
    let mut i: usize = 0;
    assert(all.take(0).filter(pred) =~= Seq::<Edge>::empty()) by {
        reveal(Seq::filter);
    }
    while i < edges.len()
        invariant
            i <= edges@.len(),
            all == edges_behind(edges@),
            pred == |edge: Edge| want.wanted(edge),
            edges_behind(found@) =~= all.take(i as int).filter(pred),
        decreases edges@.len() - i,
    {
        let edge: &Edge = edges[i];
        proof {
            assert(all.take(i + 1) =~= all.take(i as int).push(*edge));
            all.take(i as int).lemma_filter_push(*edge, pred);
        }
        if want.wants(edge) {
            let ghost before = found@;
            found.push(edge);
            assert(edges_behind(found@) =~= edges_behind(before).push(*edge));
        }
        i = i + 1;
    }
    assert(all.take(i as int) =~= all);
    found
}

impl PageGraph {
    /// The nodes of the graph that are asked for, in the order of the table.
    pub fn pick_nodes(&self, want: &NodeWanted) -> (found: Vec<&Node>)
        ensures
            nodes_behind(found@) == picked_nodes(self.nodes@, *want),
    {
        let ghost all = self.nodes@;
        let ghost pred = |node: Node| want.wanted(node);
        let mut found: Vec<&Node> = Vec::new();
        let mut i: usize = 0;
        assert(all.take(0).filter(pred) =~= Seq::<Node>::empty()) by {
            reveal(Seq::filter);
        }
        while i < self.nodes.len()
            invariant
                i <= self.nodes@.len(),
                all == self.nodes@,
                pred == |node: Node| want.wanted(node),
                nodes_behind(found@) =~= all.take(i as int).filter(pred),
            decreases self.nodes@.len() - i,
        {
            let node: &Node = &self.nodes[i];
            proof {
                assert(all.take(i + 1) =~= all.take(i as int).push(*node));
                all.take(i as int).lemma_filter_push(*node, pred);
            }
            if want.wants(node) {
                let ghost before = found@;
                found.push(node);
                assert(nodes_behind(found@) =~= nodes_behind(before).push(*node));
            }
            i = i + 1;
        }
        assert(all.take(i as int) =~= all);
        found
    }
}

} // verus!
