//! What holds of the direct effects of an edge.

use crate::effects::{as_seq, earliest};
use crate::graph::{Edge, Node, PageGraph};
use crate::ids::NodeId;
use crate::select::{lemma_picked, picked, EdgeWanted};
use crate::types::EdgeType;
use vstd::prelude::*;

verus! {

/// The first of the earliest edges is one of the edges.
pub proof fn lemma_earliest_is_one(edges: Seq<Edge>)
    ensures
        match earliest(edges) {
            Some(e) => edges.contains(e),
            None => edges.len() == 0,
        },
    decreases edges.len(),
{
    if edges.len() > 0 {
        lemma_earliest_is_one(edges.drop_last());
        assert(edges[edges.len() - 1] == edges.last());
        match earliest(edges.drop_last()) {
            Some(best) => {
                let k = choose|k: int|
                    0 <= k < edges.drop_last().len() && edges.drop_last()[k] == best;
                assert(edges[k] == best);
            },
            None => {},
        }
    }
}

/// No edge is timed before the first of the earliest edges.
pub proof fn lemma_earliest_is_least(edges: Seq<Edge>, i: int)
    requires
        0 <= i < edges.len(),
    ensures
        earliest(edges) is Some,
        crate::select::time_le(earliest(edges).unwrap().edge_timestamp, edges[i].edge_timestamp),
    decreases edges.len(),
{
    if i < edges.len() - 1 {
        lemma_earliest_is_least(edges.drop_last(), i);
        assert(edges.drop_last()[i] == edges[i]);
    } else {
        if edges.len() > 1 {
            lemma_earliest_is_least(edges.drop_last(), 0);
        }
    }
}

impl PageGraph {
    /// Whether `edge` is an edge of the graph.
    pub open spec fn holds(&self, edge: Edge) -> bool {
        self.has_edge(edge.id) && self.edge_at(edge.id) == edge
    }

    /// Whether every one of `edges` is an edge of the graph.
    pub open spec fn holds_all(&self, edges: Seq<Edge>) -> bool {
        forall|i: int| 0 <= i < edges.len() ==> self.holds(#[trigger] edges[i])
    }

    /// The edges that leave or enter a node are edges of the graph.
    pub proof fn lemma_edges_of_hold(&self, n: NodeId, outgoing: bool)
        requires
            self.wf(),
        ensures
            self.holds_all(self.edges_of(n, outgoing)),
    {
        assert forall|i: int| 0 <= i < self.edges_of(n, outgoing).len() implies self.holds(
            #[trigger] self.edges_of(n, outgoing)[i],
        ) by {
            self.lemma_edges_of(n, outgoing, i);
        }
    }

    /// Edges picked among edges of the graph are edges of the graph.
    pub proof fn lemma_picked_hold(&self, edges: Seq<Edge>, want: EdgeWanted)
        requires
            self.holds_all(edges),
        ensures
            self.holds_all(picked(edges, want)),
    {
        assert forall|i: int| 0 <= i < picked(edges, want).len() implies self.holds(
            #[trigger] picked(edges, want)[i],
        ) by {
            lemma_picked(edges, want, i);
            let k = choose|k: int| 0 <= k < edges.len() && edges[k] == picked(edges, want)[i];
            assert(self.holds(edges[k]));
        }
    }

    /// The loads into a frame among edges of the graph are edges of the graph.
    pub proof fn lemma_frame_loads_hold(&self, edges: Seq<Edge>)
        requires
            self.holds_all(edges),
        ensures
            self.holds_all(self.frame_loads(edges)),
    {
        let pred = |edge: Edge| self.is_frame_load(edge);
        assert forall|i: int| 0 <= i < self.frame_loads(edges).len() implies self.holds(
            #[trigger] self.frame_loads(edges)[i],
        ) by {
            let e = self.frame_loads(edges)[i];
            assert(edges.filter(pred).contains(e));
            edges.lemma_filter_contains_rev(pred, e);
            let k = choose|k: int| 0 <= k < edges.len() && edges[k] == e;
            assert(self.holds(edges[k]));
        }
    }

    /// The work of a parser is made of edges of the graph that the parser
    /// itself did.
    pub proof fn lemma_parse_work_holds(
        &self,
        nodes: Seq<Node>,
        root: NodeId,
        parser: NodeId,
        upto: nat,
    )
        requires
            self.wf(),
        ensures
            self.holds_all(self.parse_work(nodes, root, parser, upto)),
            forall|i: int|
                0 <= i < self.parse_work(nodes, root, parser, upto).len() ==> (
                EdgeWanted::ParserWork { parser }).wanted(
                    #[trigger] self.parse_work(nodes, root, parser, upto)[i],
                ),
        decreases upto,
    {
        if upto > 0 {
            let rest = self.parse_work(nodes, root, parser, (upto - 1) as nat);
            self.lemma_parse_work_holds(nodes, root, parser, (upto - 1) as nat);
            let node = nodes[upto - 1];
            let work = picked(self.incoming(node.id), EdgeWanted::ParserWork { parser });
            self.lemma_edges_of_hold(node.id, false);
            self.lemma_picked_hold(self.incoming(node.id), EdgeWanted::ParserWork { parser });
            let all = self.parse_work(nodes, root, parser, upto);
            assert forall|i: int| 0 <= i < all.len() implies self.holds(#[trigger] all[i]) && (
            EdgeWanted::ParserWork { parser }).wanted(all[i]) by {
                if i < rest.len() {
                    assert(all[i] == rest[i]);
                } else {
                    assert(all[i] == work[i - rest.len()]);
                    lemma_picked(
                        self.incoming(node.id),
                        EdgeWanted::ParserWork { parser },
                        i - rest.len(),
                    );
                }
            }
        }
    }

    /// The direct effects of an edge are edges of the graph.
    pub proof fn lemma_effects_hold(&self, edge: Edge)
        requires
            self.wf(),
            self.direct_effects(edge) is Some,
        ensures
            self.holds_all(self.direct_effects(edge).unwrap()),
    {
        let out = self.outgoing(edge.target);
        self.lemma_edges_of_hold(edge.target, true);
        self.lemma_edges_of_hold(edge.target, false);
        match edge.edge_type {
            EdgeType::CrossDom {  } => {
                self.lemma_picked_hold(out, EdgeWanted::CrossDom);
                if self.node_at(edge.target).node_type is DomRoot {
                    let frame = edge.target.0.frame_id;
                    let parsers = crate::select::picked_nodes(
                        self.nodes@,
                        crate::select::NodeWanted::ParserIn { frame },
                    );
                    let nodes = crate::dom_tree::by_dom_id(
                        self.parse_candidates(parsers[0].id, frame),
                    );
                    self.lemma_parse_work_holds(nodes, edge.target, parsers[0].id, nodes.len());
                }
            },
            EdgeType::InsertNode { parent, .. } => {
                let parents = crate::select::picked_nodes(
                    self.nodes@,
                    crate::select::NodeWanted::DomParent { frame: edge.id.0.frame_id, dom_id: parent },
                );
                if parents.len() == 1 {
                    let from = self.outgoing(parents[0].id);
                    let want = EdgeWanted::RunSince { since: edge.edge_timestamp };
                    self.lemma_edges_of_hold(parents[0].id, true);
                    self.lemma_picked_hold(from, want);
                    lemma_earliest_is_one(picked(from, want));
                    match earliest(picked(from, want)) {
                        Some(e) => {
                            let k = choose|k: int|
                                0 <= k < picked(from, want).len() && picked(from, want)[k] == e;
                            assert(self.holds(picked(from, want)[k]));
                            assert(as_seq(Some(e))[0] == e);
                        },
                        None => {},
                    }
                }
            },
            EdgeType::RequestComplete { .. } => {
                self.lemma_picked_hold(out, EdgeWanted::Execute);
            },
            EdgeType::RequestStart { request_id, .. } => {
                self.lemma_picked_hold(out, EdgeWanted::Answer { request_id });
            },
            EdgeType::Execute {  } => {
                self.lemma_picked_hold(out, EdgeWanted::ScriptWork);
            },
            EdgeType::SetAttribute { .. } => {
                self.lemma_picked_hold(out, EdgeWanted::RequestStart);
                self.lemma_frame_loads_hold(out);
                match edge.edge_timestamp {
                    Some(from) => {
                        let rivals = picked(
                            self.incoming(edge.target),
                            EdgeWanted::SourceSetBut { but: edge.id },
                        );
                        self.lemma_picked_hold(
                            self.frame_loads(out),
                            EdgeWanted::Within {
                                from,
                                until: crate::effects::least_time_after(rivals, from),
                            },
                        );
                    },
                    None => {},
                }
            },
            _ => {},
        }
    }

    /// Every direct effect of a request that was sent, if it is the answer to
    /// a request or its failure, answers that very request.
    pub proof fn lemma_request_correlation(&self, edge: Edge, i: int)
        requires
            self.wf(),
            edge.edge_type is RequestStart,
            self.direct_effects(edge) is Some,
            0 <= i < self.direct_effects(edge).unwrap().len(),
        ensures
            match self.direct_effects(edge).unwrap()[i].edge_type {
                EdgeType::RequestComplete { request_id, .. } => request_id
                    == edge.edge_type->RequestStart_request_id,
                EdgeType::RequestError { request_id, .. } => request_id
                    == edge.edge_type->RequestStart_request_id,
                _ => true,
            },
    {
        let request_id = edge.edge_type->RequestStart_request_id;
        lemma_picked(self.outgoing(edge.target), EdgeWanted::Answer { request_id }, i);
    }

    /// The edges that leave a node are the edges of the graph that start at
    /// it, and the edges that enter a node are those that end at it.
    pub proof fn lemma_edges_of_a_node(&self, n: NodeId, edge: Edge)
        requires
            self.wf(),
        ensures
            self.outgoing(n).contains(edge) <==> self.holds(edge) && edge.source == n,
            self.incoming(n).contains(edge) <==> self.holds(edge) && edge.target == n,
    {
        if self.outgoing(n).contains(edge) {
            let i = choose|i: int| 0 <= i < self.outgoing(n).len() && self.outgoing(n)[i] == edge;
            self.lemma_edges_of(n, true, i);
        }
        if self.incoming(n).contains(edge) {
            let i = choose|i: int| 0 <= i < self.incoming(n).len() && self.incoming(n)[i] == edge;
            self.lemma_edges_of(n, false, i);
        }
        if self.holds(edge) {
            self.lemma_edge_found(edge.id);
            self.lemma_edge_is_listed(self.edge_index(edge.id));
        }
    }

    /// Whether the rules follow edges of this kind.
    pub open spec fn is_followed_kind(edge: Edge) -> bool {
        edge.edge_type is CrossDom || edge.edge_type is CreateNode || edge.edge_type is InsertNode
            || edge.edge_type is SetAttribute || edge.edge_type is Execute
            || edge.edge_type is RequestStart || edge.edge_type is RequestComplete
            || edge.edge_type is RequestError
    }

    /// The rules have an answer only for edges of the kinds that they
    /// follow, and the direct effects of an edge are of those kinds: what is
    /// downstream of an edge never leads to a kind without a rule.
    pub proof fn lemma_effects_are_followed(&self, edge: Edge, i: int)
        requires
            self.wf(),
            self.direct_effects(edge) is Some,
            0 <= i < self.direct_effects(edge).unwrap().len(),
        ensures
            Self::is_followed_kind(edge),
            Self::is_followed_kind(self.direct_effects(edge).unwrap()[i]),
    {
        let out = self.outgoing(edge.target);
        match edge.edge_type {
            EdgeType::CrossDom {  } => {
                if self.node_at(edge.target).node_type is DomRoot {
                    let frame = edge.target.0.frame_id;
                    let parsers = crate::select::picked_nodes(
                        self.nodes@,
                        crate::select::NodeWanted::ParserIn { frame },
                    );
                    let nodes = crate::dom_tree::by_dom_id(
                        self.parse_candidates(parsers[0].id, frame),
                    );
                    self.lemma_parse_work_holds(nodes, edge.target, parsers[0].id, nodes.len());
                } else {
                    lemma_picked(out, EdgeWanted::CrossDom, i);
                }
            },
            EdgeType::InsertNode { parent, .. } => {
                let parents = crate::select::picked_nodes(
                    self.nodes@,
                    crate::select::NodeWanted::DomParent { frame: edge.id.0.frame_id, dom_id: parent },
                );
                let from = self.outgoing(parents[0].id);
                let want = EdgeWanted::RunSince { since: edge.edge_timestamp };
                lemma_earliest_is_one(picked(from, want));
                let e = earliest(picked(from, want)).unwrap();
                let k = choose|k: int| 0 <= k < picked(from, want).len() && picked(from, want)[k] == e;
                lemma_picked(from, want, k);
            },
            EdgeType::RequestComplete { .. } => {
                lemma_picked(out, EdgeWanted::Execute, i);
            },
            EdgeType::RequestStart { request_id, .. } => {
                lemma_picked(out, EdgeWanted::Answer { request_id }, i);
            },
            EdgeType::Execute {  } => {
                lemma_picked(out, EdgeWanted::ScriptWork, i);
            },
            EdgeType::SetAttribute { .. } => {
                if self.node_at(edge.target).node_type is HtmlElement {
                    lemma_picked(out, EdgeWanted::RequestStart, i);
                } else {
                    let from = edge.edge_timestamp.unwrap();
                    let rivals = picked(
                        self.incoming(edge.target),
                        EdgeWanted::SourceSetBut { but: edge.id },
                    );
                    let loads = self.frame_loads(out);
                    let want = EdgeWanted::Within {
                        from,
                        until: crate::effects::least_time_after(rivals, from),
                    };
                    lemma_picked(loads, want, i);
                    let pred = |e: Edge| self.is_frame_load(e);
                    let k = choose|k: int| 0 <= k < loads.len() && loads[k] == picked(loads, want)[i];
                    out.lemma_filter_pred(pred, k);
                }
            },
            _ => {},
        }
    }
}

} // verus!
