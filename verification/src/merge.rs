//! Putting the recording of an embedded frame into the graph of the page.
//!
//! Every node and edge of the frame gets the token of the frame into its
//! identifier, so that it cannot be mistaken for an item of the page. The
//! place that the page kept for the frame is then joined to the top document
//! root and to the top parser of the frame, by two new edges whose numbers
//! the graph counts down from the largest number.

use crate::adjacency::{links_of, weights_of};
use crate::graph::{distinct_edges, distinct_nodes, holds_node, nodes_behind, Edge, Node, PageGraph};
use crate::graph_build::{lemma_holds_edge_push, links_noting, links_with, weights_with};
use crate::ids::{EdgeId, FrameId, GraphItemId, NodeId};
use crate::select::{pick_edges, picked, picked_nodes, EdgeWanted, NodeWanted};
use crate::types::{EdgeType, NodeType};
use vstd::prelude::*;

verus! {

/// Why a frame cannot be put into a graph.
#[derive(Debug, PartialEq, Eq, Clone, Copy, Structural)]
pub enum MergeFault {
    /// The graph to merge into is not that of a page.
    NotRoot,
    /// The graph to merge is that of a page, not of a frame.
    FrameIsRoot,
    /// The page does not keep exactly one place for the frame.
    NoPlace,
    /// The frame does not have exactly one top document root and one top
    /// parser.
    NoAnchors,
    /// An identifier of the frame already has a frame, or an identifier that
    /// the merge would make is taken.
    TakenIds,
}

/// The identifier `item` in the frame `frame`.
pub open spec fn framed(item: GraphItemId, frame: FrameId) -> GraphItemId {
    GraphItemId { id: item.id, frame_id: Some(frame) }
}

/// The node `node` as a node of the frame `frame`.
pub open spec fn framed_node(node: Node, frame: FrameId) -> Node {
    Node {
        id: NodeId(framed(node.id.0, frame)),
        node_timestamp: node.node_timestamp,
        node_type: node.node_type,
    }
}

/// The edge `edge` as an edge of the frame `frame`.
pub open spec fn framed_edge(edge: Edge, frame: FrameId) -> Edge {
    Edge {
        id: EdgeId(framed(edge.id.0, frame)),
        edge_timestamp: edge.edge_timestamp,
        edge_type: edge.edge_type,
        source: NodeId(framed(edge.source.0, frame)),
        target: NodeId(framed(edge.target.0, frame)),
    }
}

/// The nodes `nodes` as nodes of the frame `frame`.
pub open spec fn framed_nodes(nodes: Seq<Node>, frame: FrameId) -> Seq<Node> {
    Seq::new(nodes.len(), |i: int| framed_node(nodes[i], frame))
}

/// The edges `edges` as edges of the frame `frame`.
pub open spec fn framed_edges(edges: Seq<Edge>, frame: FrameId) -> Seq<Edge> {
    Seq::new(edges.len(), |i: int| framed_edge(edges[i], frame))
}

/// The edge numbered `number` that crosses from `from` into the frame at
/// `to`. It has no time.
pub open spec fn crossing(number: usize, from: NodeId, to: NodeId) -> Edge {
    Edge {
        id: EdgeId(GraphItemId { id: number, frame_id: None }),
        edge_timestamp: None,
        edge_type: EdgeType::CrossDom {  },
        source: from,
        target: to,
    }
}

/// The frame tokens of the places that the nodes keep for frames, in the
/// order of the nodes.
pub open spec fn remote_frames(nodes: Seq<Node>) -> Seq<FrameId>
    decreases nodes.len(),
{
    if nodes.len() == 0 {
        Seq::empty()
    } else {
        match nodes.last().node_type {
            NodeType::RemoteFrame { frame_id } => remote_frames(nodes.drop_last()).push(frame_id),
            _ => remote_frames(nodes.drop_last()),
        }
    }
}

/// The weights after the edges are filed in turn.
pub open spec fn weights_filed(
    weights: Map<(crate::adjacency::ItemKey, crate::adjacency::ItemKey), Seq<crate::adjacency::ItemKey>>,
    edges: Seq<Edge>,
) -> Map<(crate::adjacency::ItemKey, crate::adjacency::ItemKey), Seq<crate::adjacency::ItemKey>>
    decreases edges.len(),
{
    if edges.len() == 0 {
        weights
    } else {
        weights_with(weights_filed(weights, edges.drop_last()), edges.last())
    }
}

/// The links after the edges are filed in turn.
pub open spec fn links_filed(
    links: Map<crate::adjacency::ItemKey, Seq<(crate::adjacency::ItemKey, bool)>>,
    weights: Map<(crate::adjacency::ItemKey, crate::adjacency::ItemKey), Seq<crate::adjacency::ItemKey>>,
    edges: Seq<Edge>,
) -> Map<crate::adjacency::ItemKey, Seq<(crate::adjacency::ItemKey, bool)>>
    decreases edges.len(),
{
    if edges.len() == 0 {
        links
    } else {
        links_with(
            links_filed(links, weights, edges.drop_last()),
            weights_filed(weights, edges.drop_last()),
            edges.last(),
        )
    }
}

/// The links after the nodes are noted in turn.
pub open spec fn links_noted(
    links: Map<crate::adjacency::ItemKey, Seq<(crate::adjacency::ItemKey, bool)>>,
    nodes: Seq<Node>,
) -> Map<crate::adjacency::ItemKey, Seq<(crate::adjacency::ItemKey, bool)>>
    decreases nodes.len(),
{
    if nodes.len() == 0 {
        links
    } else {
        links_noting(links_noted(links, nodes.drop_last()), crate::graph::node_key(nodes.last().id))
    }
}

impl PageGraph {
    /// Whether a node is asked for and no edge crosses into it.
    pub open spec fn is_top(&self, node: Node, want: NodeWanted) -> bool {
        want.wanted(node) && picked(self.incoming(node.id), EdgeWanted::CrossDom).len() == 0
    }

    /// The nodes asked for that no edge crosses into.
    pub open spec fn top_nodes(&self, want: NodeWanted) -> Seq<Node> {
        self.nodes@.filter(|node: Node| self.is_top(node, want))
    }

    /// No identifier of the graph has a frame.
    pub open spec fn is_unframed(&self) -> bool {
        &&& forall|i: int|
            0 <= i < self.nodes@.len() ==> (#[trigger] self.nodes@[i]).id.0.frame_id is None
        &&& forall|i: int|
            0 <= i < self.edges@.len() ==> (#[trigger] self.edges@[i]).id.0.frame_id is None
    }

    /// No identifier of the graph has the frame `frame`.
    pub open spec fn is_clear_of(&self, frame: FrameId) -> bool {
        &&& forall|i: int|
            0 <= i < self.nodes@.len() ==> (#[trigger] self.nodes@[i]).id.0.frame_id != Some(frame)
        &&& forall|i: int|
            0 <= i < self.edges@.len() ==> (#[trigger] self.edges@[i]).id.0.frame_id != Some(frame)
    }

    /// The next two numbers that the graph would give to edges of its own
    /// making are there to be given.
    pub open spec fn has_fresh_ids(&self) -> bool {
        &&& self.next_edge_id >= 2
        &&& !self.has_edge(EdgeId(GraphItemId { id: self.next_edge_id, frame_id: None }))
        &&& !self.has_edge(
            EdgeId(GraphItemId { id: (self.next_edge_id - 1) as usize, frame_id: None }),
        )
    }

    /// What stands against putting the frame `frame`, recorded as `child`,
    /// into this graph, if anything.
    pub open spec fn merge_fault(&self, child: PageGraph, frame: FrameId) -> Option<MergeFault> {
        if !self.desc.is_root {
            Some(MergeFault::NotRoot)
        } else if child.desc.is_root {
            Some(MergeFault::FrameIsRoot)
        } else if picked_nodes(self.nodes@, NodeWanted::RemoteFrame { frame_id: frame }).len() != 1 {
            Some(MergeFault::NoPlace)
        } else if child.top_nodes(NodeWanted::DomRoot).len() != 1 || child.top_nodes(
            NodeWanted::Parser,
        ).len() != 1 {
            Some(MergeFault::NoAnchors)
        } else if !child.is_unframed() || !self.is_clear_of(frame) || !self.has_fresh_ids() {
            Some(MergeFault::TakenIds)
        } else {
            None
        }
    }

    /// The place that the graph keeps for the frame `frame`.
    pub open spec fn place_of(&self, frame: FrameId) -> NodeId {
        picked_nodes(self.nodes@, NodeWanted::RemoteFrame { frame_id: frame })[0].id
    }

    /// The two edges that join the place of the frame to the top document
    /// root and to the top parser of the frame; the one to the node that
    /// comes first in the frame gets the first number.
    pub open spec fn crossings(&self, child: PageGraph, frame: FrameId) -> Seq<Edge> {
        let root = child.top_nodes(NodeWanted::DomRoot)[0].id;
        let parser = child.top_nodes(NodeWanted::Parser)[0].id;
        let root_first = child.node_index(root) < child.node_index(parser);
        let first = if root_first {
            root
        } else {
            parser
        };
        let second = if root_first {
            parser
        } else {
            root
        };
        seq![
            crossing(self.next_edge_id, self.place_of(frame), NodeId(framed(first.0, frame))),
            crossing(
                (self.next_edge_id - 1) as usize,
                self.place_of(frame),
                NodeId(framed(second.0, frame)),
            ),
        ]
    }

    /// The frame tokens of the places that the graph keeps for frames.
    pub fn all_remote_frame_ids(&self) -> (frames: Vec<FrameId>)
        ensures
            frames@ == remote_frames(self.nodes@),
    {
        let mut frames: Vec<FrameId> = Vec::new();
        let mut i: usize = 0;
        while i < self.nodes.len()
            invariant
                i <= self.nodes@.len(),
                frames@ == remote_frames(self.nodes@.take(i as int)),
            decreases self.nodes@.len() - i,
        {
            proof {
                assert(self.nodes@.take(i + 1).drop_last() =~= self.nodes@.take(i as int));
                assert(self.nodes@.take(i + 1).last() == self.nodes@[i as int]);
            }
            match &self.nodes[i].node_type {
                NodeType::RemoteFrame { frame_id } => {
                    frames.push(*frame_id);
                },
                _ => {},
            }
            i = i + 1;
        }
        assert(self.nodes@.take(i as int) =~= self.nodes@);
        frames
    }

    /// The nodes asked for that no edge crosses into.
    pub fn pick_top_nodes(&self, want: &NodeWanted) -> (found: Vec<&Node>)
        requires
            self.wf(),
        ensures
            nodes_behind(found@) == self.top_nodes(*want),
    {
        let ghost all = self.nodes@;
        let ghost pred = |node: Node| self.is_top(node, *want);
        let mut found: Vec<&Node> = Vec::new();
        let mut i: usize = 0;
        assert(all.take(0).filter(pred) =~= Seq::<Node>::empty()) by {
            reveal(Seq::filter);
        }
        while i < self.nodes.len()
            invariant
                self.wf(),
                i <= self.nodes@.len(),
                all == self.nodes@,
                pred == |node: Node| self.is_top(node, *want),
                nodes_behind(found@) =~= all.take(i as int).filter(pred),
            decreases self.nodes@.len() - i,
        {
            let node: &Node = &self.nodes[i];
            proof {
                assert(all.take(i + 1) =~= all.take(i as int).push(*node));
                all.take(i as int).lemma_filter_push(*node, pred);
            }
            if want.wants(node) {
                let crossings = pick_edges(&self.incoming_edges(node), &EdgeWanted::CrossDom);
                if crossings.len() == 0 {
                    let ghost before = found@;
                    found.push(node);
                    assert(nodes_behind(found@) =~= nodes_behind(before).push(*node));
                }
            }
            i = i + 1;
        }
        assert(all.take(i as int) =~= all);
        found
    }

    /// Whether no identifier of the graph has a frame.
    fn check_unframed(&self) -> (unframed: bool)
        ensures
            unframed == self.is_unframed(),
    {
        let mut i: usize = 0;
        while i < self.nodes.len()
            invariant
                i <= self.nodes@.len(),
                forall|j: int| 0 <= j < i ==> (#[trigger] self.nodes@[j]).id.0.frame_id is None,
            decreases self.nodes@.len() - i,
        {
            match self.nodes[i].id.0.frame_id {
                Some(_) => {
                    return false;
                },
                None => {},
            }
            i = i + 1;
        }
        let mut k: usize = 0;
        while k < self.edges.len()
            invariant
                k <= self.edges@.len(),
                forall|j: int|
                    0 <= j < self.nodes@.len() ==> (#[trigger] self.nodes@[j]).id.0.frame_id is None,
                forall|j: int| 0 <= j < k ==> (#[trigger] self.edges@[j]).id.0.frame_id is None,
            decreases self.edges@.len() - k,
        {
            match self.edges[k].id.0.frame_id {
                Some(_) => {
                    return false;
                },
                None => {},
            }
            k = k + 1;
        }
        true
    }

    /// Whether no identifier of the graph has the frame `frame`.
    fn check_clear_of(&self, frame: FrameId) -> (clear: bool)
        ensures
            clear == self.is_clear_of(frame),
    {
        let mut i: usize = 0;
        while i < self.nodes.len()
            invariant
                i <= self.nodes@.len(),
                forall|j: int|
                    0 <= j < i ==> (#[trigger] self.nodes@[j]).id.0.frame_id != Some(frame),
            decreases self.nodes@.len() - i,
        {
            match self.nodes[i].id.0.frame_id {
                Some(f) => {
                    if f.0 == frame.0 {
                        return false;
                    }
                },
                None => {},
            }
            i = i + 1;
        }
        let mut k: usize = 0;
        while k < self.edges.len()
            invariant
                k <= self.edges@.len(),
                forall|j: int|
                    0 <= j < self.nodes@.len() ==> (#[trigger] self.nodes@[j]).id.0.frame_id
                        != Some(frame),
                forall|j: int|
                    0 <= j < k ==> (#[trigger] self.edges@[j]).id.0.frame_id != Some(frame),
            decreases self.edges@.len() - k,
        {
            match self.edges[k].id.0.frame_id {
                Some(f) => {
                    if f.0 == frame.0 {
                        return false;
                    }
                },
                None => {},
            }
            k = k + 1;
        }
        true
    }

    /// What stands against putting the frame into this graph, if anything.
    pub fn check_merge(&self, child: &PageGraph, frame: &FrameId) -> (fault: Option<MergeFault>)
        requires
            self.wf(),
            child.wf(),
        ensures
            fault == self.merge_fault(*child, *frame),
    {
        if !self.desc.is_root {
            return Some(MergeFault::NotRoot);
        }
        if child.desc.is_root {
            return Some(MergeFault::FrameIsRoot);
        }
        if self.pick_nodes(&NodeWanted::RemoteFrame { frame_id: *frame }).len() != 1 {
            return Some(MergeFault::NoPlace);
        }
        if child.pick_top_nodes(&NodeWanted::DomRoot).len() != 1 || child.pick_top_nodes(
            &NodeWanted::Parser,
        ).len() != 1 {
            return Some(MergeFault::NoAnchors);
        }
        if !child.check_unframed() || !self.check_clear_of(*frame) {
            return Some(MergeFault::TakenIds);
        }
        if self.next_edge_id < 2 {
            return Some(MergeFault::TakenIds);
        }
        if self.find_edge(EdgeId::from(self.next_edge_id)).is_some() || self.find_edge(
            EdgeId::from(self.next_edge_id - 1),
        ).is_some() {
            return Some(MergeFault::TakenIds);
        }
        None
    }

    /// Whether `after` is this graph with the frame `frame`, recorded as
    /// `child`, put into it: after the nodes of this graph come the nodes of
    /// the frame; after its edges come the two crossings into the frame, then
    /// the edges of the frame.
    pub open spec fn is_merged_into(&self, child: PageGraph, frame: FrameId, after: PageGraph) -> bool {
        &&& after.desc == self.desc
        &&& after.next_edge_id == self.next_edge_id - 2
        &&& after.nodes@ == self.nodes@ + framed_nodes(child.nodes@, frame)
        &&& after.edges@ == self.edges@ + self.crossings(child, frame) + framed_edges(
            child.edges@,
            frame,
        )
        &&& weights_of(after.graph) == weights_filed(
            weights_of(self.graph),
            self.crossings(child, frame) + framed_edges(child.edges@, frame),
        )
        &&& links_of(after.graph) == links_filed(
            links_noted(links_of(self.graph), framed_nodes(child.nodes@, frame)),
            weights_of(self.graph),
            self.crossings(child, frame) + framed_edges(child.edges@, frame),
        )
    }

    /// Puts the nodes `nodes` of the frame `frame` into the graph.
    fn take_nodes(&mut self, nodes: Vec<Node>, frame: &FrameId)
        requires
            old(self).wf(),
            distinct_nodes(nodes@),
            forall|i: int| 0 <= i < nodes@.len() ==> (#[trigger] nodes@[i]).id.0.frame_id is None,
            forall|i: int|
                0 <= i < old(self).nodes@.len() ==> (#[trigger] old(self).nodes@[i]).id.0.frame_id
                    != Some(*frame),
        ensures
            final(self).wf(),
            final(self).desc == old(self).desc,
            final(self).next_edge_id == old(self).next_edge_id,
            final(self).edges@ == old(self).edges@,
            final(self).nodes@ == old(self).nodes@ + framed_nodes(nodes@, *frame),
            weights_of(final(self).graph) == weights_of(old(self).graph),
            links_of(final(self).graph) == links_noted(
                links_of(old(self).graph),
                framed_nodes(nodes@, *frame),
            ),
    {
        let ghost all = nodes@;
        let ghost new_nodes = framed_nodes(all, *frame);
        let ghost base = old(self).nodes@;
        let ghost base_links = links_of(old(self).graph);
        assert(base + new_nodes.take(0) =~= base);
        for node in it: nodes
            invariant
                all == it.seq(),
                all == nodes@,
                new_nodes == framed_nodes(all, *frame),
                base == old(self).nodes@,
                base_links == links_of(old(self).graph),
                distinct_nodes(all),
                forall|i: int| 0 <= i < all.len() ==> (#[trigger] all[i]).id.0.frame_id is None,
                forall|i: int|
                    0 <= i < base.len() ==> (#[trigger] base[i]).id.0.frame_id != Some(*frame),
                self.wf(),
                self.desc == old(self).desc,
                self.next_edge_id == old(self).next_edge_id,
                self.edges@ == old(self).edges@,
                self.nodes@ == base + new_nodes.take(it.index() as int),
                weights_of(self.graph) == weights_of(old(self).graph),
                links_of(self.graph) == links_noted(base_links, new_nodes.take(it.index() as int)),
        {
            let ghost i = it.index() as int;
            let new_node = Node {
                id: node.id.copy_for_frame_id(frame),
                node_timestamp: node.node_timestamp,
                node_type: node.node_type,
            };
            proof {
                assert(all[i] == node);
                assert(new_node == new_nodes[i]);
                assert(new_nodes.take(i + 1).drop_last() =~= new_nodes.take(i));
                assert(new_nodes.take(i + 1).last() == new_node);
                if self.has_node(new_node.id) {
                    let k = choose|k: int|
                        0 <= k < self.nodes@.len() && (#[trigger] self.nodes@[k]).id == new_node.id;
                    if k < base.len() {
                        assert(self.nodes@[k] == base[k]);
                    } else {
                        let j = k - base.len();
                        assert(self.nodes@[k] == new_nodes[j]);
                        assert(all[j].id.0.frame_id is None);
                        assert(all[i].id.0.frame_id is None);
                        assert(all[j].id == all[i].id);
                    }
                }
            }
            self.add_node(new_node);
            assert(self.nodes@ =~= base + new_nodes.take(i + 1));
        }
        assert(new_nodes.take(all.len() as int) =~= new_nodes);
    }

    /// Puts the edges `edges` of the frame `frame` into the graph.
    fn take_edges(&mut self, edges: Vec<Edge>, frame: &FrameId, Ghost(child_nodes): Ghost<Seq<Node>>)
        requires
            old(self).wf(),
            distinct_edges(edges@),
            forall|i: int| 0 <= i < edges@.len() ==> (#[trigger] edges@[i]).id.0.frame_id is None,
            forall|i: int|
                0 <= i < old(self).edges@.len() ==> (#[trigger] old(self).edges@[i]).id.0.frame_id
                    != Some(*frame),
            forall|i: int|
                0 <= i < edges@.len() ==> holds_node(child_nodes, (#[trigger] edges@[i]).source)
                    && holds_node(child_nodes, edges@[i].target),
            forall|i: int|
                0 <= i < child_nodes.len() ==> old(self).has_node(
                    NodeId(framed((#[trigger] child_nodes[i]).id.0, *frame)),
                ),
        ensures
            final(self).wf(),
            final(self).desc == old(self).desc,
            final(self).next_edge_id == old(self).next_edge_id,
            final(self).nodes@ == old(self).nodes@,
            final(self).edges@ == old(self).edges@ + framed_edges(edges@, *frame),
            weights_of(final(self).graph) == weights_filed(
                weights_of(old(self).graph),
                framed_edges(edges@, *frame),
            ),
            links_of(final(self).graph) == links_filed(
                links_of(old(self).graph),
                weights_of(old(self).graph),
                framed_edges(edges@, *frame),
            ),
    {
        let ghost all = edges@;
        let ghost new_edges = framed_edges(all, *frame);
        let ghost base = old(self).edges@;
        let ghost base_links = links_of(old(self).graph);
        let ghost base_weights = weights_of(old(self).graph);
        assert(base + new_edges.take(0) =~= base);
        for edge in it: edges
            invariant
                all == it.seq(),
                all == edges@,
                new_edges == framed_edges(all, *frame),
                base == old(self).edges@,
                base_links == links_of(old(self).graph),
                base_weights == weights_of(old(self).graph),
                distinct_edges(all),
                forall|i: int| 0 <= i < all.len() ==> (#[trigger] all[i]).id.0.frame_id is None,
                forall|i: int|
                    0 <= i < base.len() ==> (#[trigger] base[i]).id.0.frame_id != Some(*frame),
                forall|i: int|
                    0 <= i < all.len() ==> holds_node(child_nodes, (#[trigger] all[i]).source)
                        && holds_node(child_nodes, all[i].target),
                forall|i: int|
                    0 <= i < child_nodes.len() ==> self.has_node(
                        NodeId(framed((#[trigger] child_nodes[i]).id.0, *frame)),
                    ),
                self.wf(),
                self.desc == old(self).desc,
                self.next_edge_id == old(self).next_edge_id,
                self.nodes@ == old(self).nodes@,
                self.edges@ == base + new_edges.take(it.index() as int),
                weights_of(self.graph) == weights_filed(
                    base_weights,
                    new_edges.take(it.index() as int),
                ),
                links_of(self.graph) == links_filed(
                    base_links,
                    base_weights,
                    new_edges.take(it.index() as int),
                ),
        {
            let ghost i = it.index() as int;
            let new_edge = Edge {
                id: edge.id.copy_for_frame_id(frame),
                edge_timestamp: edge.edge_timestamp,
                edge_type: edge.edge_type,
                source: edge.source.copy_for_frame_id(frame),
                target: edge.target.copy_for_frame_id(frame),
            };
            proof {
                assert(all[i] == edge);
                assert(new_edge == new_edges[i]);
                assert(new_edges.take(i + 1).drop_last() =~= new_edges.take(i));
                assert(new_edges.take(i + 1).last() == new_edge);
                if self.has_edge(new_edge.id) {
                    let k = choose|k: int|
                        0 <= k < self.edges@.len() && (#[trigger] self.edges@[k]).id == new_edge.id;
                    if k < base.len() {
                        assert(self.edges@[k] == base[k]);
                    } else {
                        let j = k - base.len();
                        assert(self.edges@[k] == new_edges[j]);
                        assert(all[j].id.0.frame_id is None);
                        assert(all[i].id.0.frame_id is None);
                        assert(all[j].id == all[i].id);
                    }
                }
                let a = choose|a: int|
                    0 <= a < child_nodes.len() && (#[trigger] child_nodes[a]).id == edge.source;
                assert(self.has_node(NodeId(framed(child_nodes[a].id.0, *frame))));
                let b = choose|b: int|
                    0 <= b < child_nodes.len() && (#[trigger] child_nodes[b]).id == edge.target;
                assert(self.has_node(NodeId(framed(child_nodes[b].id.0, *frame))));
            }
            self.add_edge(new_edge);
            assert(self.edges@ =~= base + new_edges.take(i + 1));
        }
        assert(new_edges.take(all.len() as int) =~= new_edges);
    }

    /// Puts the frame `frame_id`, recorded as `frame_graph`, into this graph:
    /// its nodes and edges with the frame in their identifiers, and two edges
    /// that cross from the place of the frame to the top document root and to
    /// the top parser of the frame.
    pub fn merge_frame(&mut self, frame_graph: PageGraph, frame_id: &FrameId)
        requires
            old(self).wf(),
            frame_graph.wf(),
            old(self).merge_fault(frame_graph, *frame_id) is None,
        ensures
            final(self).wf(),
            old(self).is_merged_into(frame_graph, *frame_id, *final(self)),
    {
        let ghost before = *old(self);
        let ghost child = frame_graph;
        let ghost frame = *frame_id;
        let place = {
            let places = self.pick_nodes(&NodeWanted::RemoteFrame { frame_id: *frame_id });
            assert(nodes_behind(places@)[0] == *places@[0]);
            places[0].id
        };
        let (root, parser) = {
            let roots = frame_graph.pick_top_nodes(&NodeWanted::DomRoot);
            let parsers = frame_graph.pick_top_nodes(&NodeWanted::Parser);
            assert(nodes_behind(roots@)[0] == *roots@[0]);
            assert(nodes_behind(parsers@)[0] == *parsers@[0]);
            (roots[0].id, parsers[0].id)
        };
        proof {
            let want = NodeWanted::RemoteFrame { frame_id: frame };
            crate::select::lemma_picked_node(before.nodes@, want, 0);
            let pred = |node: Node| child.is_top(node, NodeWanted::DomRoot);
            assert(child.nodes@.filter(pred).contains(child.top_nodes(NodeWanted::DomRoot)[0]));
            child.nodes@.lemma_filter_contains_rev(pred, child.top_nodes(NodeWanted::DomRoot)[0]);
            let pred2 = |node: Node| child.is_top(node, NodeWanted::Parser);
            assert(child.nodes@.filter(pred2).contains(child.top_nodes(NodeWanted::Parser)[0]));
            child.nodes@.lemma_filter_contains_rev(pred2, child.top_nodes(NodeWanted::Parser)[0]);
        }
        let root_at = frame_graph.find_node(root);
        let parser_at = frame_graph.find_node(parser);
        let root_first = root_at.unwrap() < parser_at.unwrap();
        let first = if root_first {
            root
        } else {
            parser
        };
        let second = if root_first {
            parser
        } else {
            root
        };
        let PageGraph { edges, nodes, .. } = frame_graph;
        self.take_nodes(nodes, frame_id);
        let ghost new_nodes = framed_nodes(child.nodes@, frame);
        let ghost crossings = before.crossings(child, frame);
        proof {
            assert forall|i: int| 0 <= i < child.nodes@.len() implies self.has_node(
                NodeId(framed((#[trigger] child.nodes@[i]).id.0, frame)),
            ) by {
                assert(self.nodes@[before.nodes@.len() + i] == new_nodes[i]);
            }
            let k = choose|k: int|
                0 <= k < before.nodes@.len() && before.nodes@[k] == picked_nodes(
                    before.nodes@,
                    NodeWanted::RemoteFrame { frame_id: frame },
                )[0];
            assert(self.nodes@[k].id == place);
            child.lemma_node_found(root);
            child.lemma_node_found(parser);
        }
        let first_crossing = Edge {
            id: EdgeId::from(self.next_edge_id),
            edge_timestamp: None,
            edge_type: EdgeType::CrossDom {  },
            source: place,
            target: first.copy_for_frame_id(frame_id),
        };
        let second_crossing = Edge {
            id: EdgeId::from(self.next_edge_id - 1),
            edge_timestamp: None,
            edge_type: EdgeType::CrossDom {  },
            source: place,
            target: second.copy_for_frame_id(frame_id),
        };
        proof {
            assert(first_crossing == crossings[0]);
            assert(second_crossing == crossings[1]);
        }
        let ghost base_links = links_of(self.graph);
        let ghost base_weights = weights_of(self.graph);
        self.add_edge(first_crossing);
        proof {
            lemma_holds_edge_push(before.edges@, first_crossing, second_crossing.id);
        }
        self.add_edge(second_crossing);
        self.next_edge_id = self.next_edge_id - 2;
        proof {
            assert(self.edges@ =~= before.edges@ + crossings);
            assert(crossings.drop_last() =~= seq![first_crossing]);
            assert(seq![first_crossing].drop_last() =~= Seq::<Edge>::empty());
            assert(crossings.last() == second_crossing);
            assert(seq![first_crossing].last() == first_crossing);
            assert(weights_filed(base_weights, seq![first_crossing]) == weights_with(
                base_weights,
                first_crossing,
            )) by {
                reveal_with_fuel(weights_filed, 3);
            }
            assert(weights_of(self.graph) == weights_filed(base_weights, crossings));
            assert(links_filed(base_links, base_weights, seq![first_crossing]) == links_with(
                base_links,
                base_weights,
                first_crossing,
            )) by {
                reveal_with_fuel(weights_filed, 3);
                reveal_with_fuel(links_filed, 3);
            }
            assert(links_of(self.graph) == links_filed(base_links, base_weights, crossings));
            assert forall|i: int| 0 <= i < self.edges@.len() implies (
            #[trigger] self.edges@[i]).id.0.frame_id != Some(frame) by {
                if i < before.edges@.len() {
                    assert(self.edges@[i] == before.edges@[i]);
                }
            }
            assert forall|i: int| 0 <= i < child.edges@.len() implies holds_node(
                child.nodes@,
                (#[trigger] child.edges@[i]).source,
            ) && holds_node(child.nodes@, child.edges@[i].target) by {
                assert(child.has_node(child.edges@[i].source));
            }
        }
        let ghost mid = *self;
        self.take_edges(edges, frame_id, Ghost(child.nodes@));
        proof {
            let more = framed_edges(child.edges@, frame);
            assert(self.edges@ =~= before.edges@ + crossings + more);
            lemma_filed_on(base_links, base_weights, crossings, more);
        }
    }

    /// Puts the frame into this graph, if nothing stands against it; else the
    /// graph stays as it is.
    pub fn try_merge_frame(&mut self, frame_graph: PageGraph, frame_id: &FrameId) -> (done: Result<
        (),
        MergeFault,
    >)
        requires
            old(self).wf(),
            frame_graph.wf(),
        ensures
            final(self).wf(),
            match done {
                Ok(_) => old(self).merge_fault(frame_graph, *frame_id) is None && old(
                    self,
                ).is_merged_into(frame_graph, *frame_id, *final(self)),
                Err(fault) => old(self).merge_fault(frame_graph, *frame_id) == Some(fault)
                    && *final(self) == *old(self),
            },
    {
        match self.check_merge(&frame_graph, frame_id) {
            Some(fault) => Err(fault),
            None => {
                self.merge_frame(frame_graph, frame_id);
                Ok(())
            },
        }
    }

    /// After a frame is put into a graph, the graph has the nodes that it had
    /// and those of the frame, and just two new edges that cross from the
    /// place of the frame: the crossings to the top document root and to the
    /// top parser of the frame.
    pub proof fn lemma_merge_counts(&self, child: PageGraph, frame: FrameId, after: PageGraph)
        requires
            self.wf(),
            child.wf(),
            self.merge_fault(child, frame) is None,
            self.is_merged_into(child, frame, after),
        ensures
            after.nodes@.len() == self.nodes@.len() + child.nodes@.len(),
            after.edges@.len() == self.edges@.len() + 2 + child.edges@.len(),
            after.edges@.skip(self.edges@.len() as int).filter(
                |edge: Edge| edge.edge_type is CrossDom && edge.source == self.place_of(frame),
            ) == self.crossings(child, frame),
            self.crossings(child, frame).len() == 2,
    {
        let place = self.place_of(frame);
        let pred = |edge: Edge| edge.edge_type is CrossDom && edge.source == place;
        let crossings = self.crossings(child, frame);
        let more = framed_edges(child.edges@, frame);
        let new_edges = after.edges@.skip(self.edges@.len() as int);
        assert(new_edges =~= crossings + more);
        crate::select::lemma_picked_node(
            self.nodes@,
            NodeWanted::RemoteFrame { frame_id: frame },
            0,
        );
        let k = choose|k: int|
            0 <= k < self.nodes@.len() && self.nodes@[k] == picked_nodes(
                self.nodes@,
                NodeWanted::RemoteFrame { frame_id: frame },
            )[0];
        assert(self.nodes@[k].id.0.frame_id != Some(frame));
        assert forall|i: int| 0 <= i < more.len() implies !pred(#[trigger] more[i]) by {
            assert(more[i].source.0.frame_id == Some(frame));
        }
        more.lemma_all_neg_filter_empty(pred);
        Seq::filter_distributes_over_add(crossings, more, pred);
        assert(crossings.filter(pred) =~= crossings) by {
            reveal_with_fuel(Seq::filter, 3);
            assert(crossings.drop_last() =~= seq![crossings[0]]);
            assert(crossings.drop_last().drop_last() =~= Seq::<Edge>::empty());
        }
        assert(crossings + Seq::<Edge>::empty() =~= crossings);
    }
}

/// Filing edges after others is filing all of them in turn.
pub proof fn lemma_filed_on(
    links: Map<crate::adjacency::ItemKey, Seq<(crate::adjacency::ItemKey, bool)>>,
    weights: Map<(crate::adjacency::ItemKey, crate::adjacency::ItemKey), Seq<crate::adjacency::ItemKey>>,
    first: Seq<Edge>,
    more: Seq<Edge>,
)
    ensures
        weights_filed(weights_filed(weights, first), more) == weights_filed(weights, first + more),
        links_filed(links_filed(links, weights, first), weights_filed(weights, first), more)
            == links_filed(links, weights, first + more),
    decreases more.len(),
{
    if more.len() == 0 {
        assert(first + more =~= first);
    } else {
        lemma_filed_on(links, weights, first, more.drop_last());
        assert((first + more).drop_last() =~= first + more.drop_last());
        assert((first + more).last() == more.last());
    }
}

} // verus!
