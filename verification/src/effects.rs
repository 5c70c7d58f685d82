//! What an action causes directly: for each kind of edge, the edges that
//! would not be there without it.

use crate::graph::{edges_behind, Edge, Node, PageGraph};
use crate::select::{pick_edges, picked, picked_nodes, time_le, EdgeWanted, NodeWanted};
use crate::graph::nodes_behind;
use crate::text::same_text;
use crate::types::{EdgeType, NodeType};
use vstd::prelude::*;

verus! {

/// Whether an element with the tag `tag` loads what its attribute `src`
/// names.
pub open spec fn can_have_src(tag: Seq<char>) -> bool {
    tag == "audio"@ || tag == "embed"@ || tag == "iframe"@ || tag == "img"@ || tag == "input"@
        || tag == "script"@ || tag == "source"@ || tag == "track"@ || tag == "video"@
}

/// Whether an element with the tag `tag` loads what its attribute `src`
/// names.
pub fn loads_from_src(tag: &str) -> (loads: bool)
    ensures
        loads == can_have_src(tag@),
{
    same_text(tag, "audio") || same_text(tag, "embed") || same_text(tag, "iframe") || same_text(
        tag,
        "img",
    ) || same_text(tag, "input") || same_text(tag, "script") || same_text(tag, "source")
        || same_text(tag, "track") || same_text(tag, "video")
}

/// Whether a node is a `script` element.
pub open spec fn is_script_element(node: Node) -> bool {
    match node.node_type {
        NodeType::HtmlElement { tag_name, .. } => tag_name@ == "script"@,
        _ => false,
    }
}

/// Whether a node is a `script` element.
pub fn script_element(node: &Node) -> (is: bool)
    ensures
        is == is_script_element(*node),
{
    match &node.node_type {
        NodeType::HtmlElement { tag_name, .. } => same_text(tag_name.as_str(), "script"),
        _ => false,
    }
}

/// The first of the edges with the earliest time, if there is any edge.
pub open spec fn earliest(edges: Seq<Edge>) -> Option<Edge>
    decreases edges.len(),
{
    if edges.len() == 0 {
        None
    } else {
        match earliest(edges.drop_last()) {
            Some(best) => if time_le(best.edge_timestamp, edges.last().edge_timestamp) {
                Some(best)
            } else {
                Some(edges.last())
            },
            None => Some(edges.last()),
        }
    }
}

/// An optional edge as a sequence of none or one.
pub open spec fn as_seq(edge: Option<Edge>) -> Seq<Edge> {
    match edge {
        Some(e) => seq![e],
        None => Seq::empty(),
    }
}

/// Every edge has a time.
pub open spec fn all_timed(edges: Seq<Edge>) -> bool {
    forall|i: int| 0 <= i < edges.len() ==> (#[trigger] edges[i]).edge_timestamp is Some
}

/// The earliest time after `after` among the times of the edges.
pub open spec fn least_time_after(edges: Seq<Edge>, after: isize) -> Option<isize>
    decreases edges.len(),
{
    if edges.len() == 0 {
        None
    } else {
        let rest = least_time_after(edges.drop_last(), after);
        match edges.last().edge_timestamp {
            Some(at) => if at > after && (rest is None || at < rest.unwrap()) {
                Some(at)
            } else {
                rest
            },
            None => rest,
        }
    }
}

/// The first of the edges with the earliest time, if there is any edge.
pub fn earliest_edge<'a>(edges: &Vec<&'a Edge>) -> (best: Option<&'a Edge>)
    ensures
        match best {
            Some(e) => earliest(edges_behind(edges@)) == Some(*e),
            None => earliest(edges_behind(edges@)) is None,
        },
{
    let ghost all = edges_behind(edges@);
    let mut best: Option<&Edge> = None;
    let mut i: usize = 0;
    while i < edges.len()
        invariant
            i <= edges@.len(),
            all == edges_behind(edges@),
            match best {
                Some(e) => earliest(all.take(i as int)) == Some(*e),
                None => earliest(all.take(i as int)) is None,
            },
        decreases edges@.len() - i,
    {
        let edge: &Edge = edges[i];
        proof {
            assert(all.take(i + 1).drop_last() =~= all.take(i as int));
            assert(all.take(i + 1).last() == *edge);
        }
        best = match best {
            Some(e) => if crate::select::time_at_or_before(e.edge_timestamp, edge.edge_timestamp) {
                Some(e)
            } else {
                Some(edge)
            },
            None => Some(edge),
        };
        i = i + 1;
    }
    assert(all.take(i as int) =~= all);
    best
}

/// Whether every edge has a time and, if so, the earliest of the times after
/// `after`.
pub fn next_time_after(edges: &Vec<&Edge>, after: isize) -> (next: Option<Option<isize>>)
    ensures
        match next {
            Some(least) => all_timed(edges_behind(edges@)) && least == least_time_after(
                edges_behind(edges@),
                after,
            ),
            None => !all_timed(edges_behind(edges@)),
        },
{
    let ghost all = edges_behind(edges@);
    let mut least: Option<isize> = None;
    let mut i: usize = 0;
    while i < edges.len()
        invariant
            i <= edges@.len(),
            all == edges_behind(edges@),
            all_timed(all.take(i as int)),
            least == least_time_after(all.take(i as int), after),
        decreases edges@.len() - i,
    {
        let edge: &Edge = edges[i];
        proof {
            assert(all.take(i + 1).drop_last() =~= all.take(i as int));
            assert(all.take(i + 1).last() == *edge);
        }
        match edge.edge_timestamp {
            Some(at) => {
                let closer = match least {
                    Some(l) => at < l,
                    None => true,
                };
                if at > after && closer {
                    least = Some(at);
                }
            },
            None => {
                assert(all[i as int].edge_timestamp is None);
                return None;
            },
        }
        proof {
            assert forall|x: int| 0 <= x < i + 1 implies (#[trigger] all.take(
                i + 1,
            )[x]).edge_timestamp is Some by {
                if x < i {
                    assert(all.take(i as int)[x] == all.take(i + 1)[x]);
                }
            }
        }
        i = i + 1;
    }
    assert(all.take(i as int) =~= all);
    Some(least)
}

impl PageGraph {
    /// An edge of the table starts and ends at nodes of the table.
    pub proof fn lemma_edge_ends(&self, id: crate::ids::EdgeId)
        requires
            self.wf(),
            self.has_edge(id),
        ensures
            self.has_node(self.edge_at(id).source),
            self.has_node(self.edge_at(id).target),
    {
        self.lemma_edge_found(id);
    }

    /// Whether an edge loads a document into a frame: it leads into another
    /// frame context, to a document root other than the blank one or to the
    /// place of a frame recorded apart.
    pub open spec fn is_frame_load(&self, edge: Edge) -> bool {
        edge.edge_type is CrossDom && match self.node_at(edge.target).node_type {
            NodeType::DomRoot { url, .. } => match url {
                Some(u) => u@ != "about:blank"@,
                None => true,
            },
            NodeType::RemoteFrame { .. } => true,
            _ => false,
        }
    }

    /// The edges of `edges` that load a document into a frame.
    pub open spec fn frame_loads(&self, edges: Seq<Edge>) -> Seq<Edge> {
        edges.filter(|edge: Edge| self.is_frame_load(edge))
    }

    /// What inserting a node causes. A text put below a `script` element runs
    /// the script: the effect is the first of the earliest runs of that
    /// element at or after the insertion. The element numbered `parent` must
    /// be the only one with that number in the frame of the edge.
    pub open spec fn insertion_effects(&self, edge: Edge, parent: usize) -> Option<Seq<Edge>> {
        if !(self.node_at(edge.target).node_type is TextNode) {
            Some(Seq::empty())
        } else {
            let parents = picked_nodes(
                self.nodes@,
                NodeWanted::DomParent { frame: edge.id.0.frame_id, dom_id: parent },
            );
            if parents.len() != 1 {
                None
            } else if is_script_element(parents[0]) {
                Some(
                    as_seq(
                        earliest(
                            picked(
                                self.outgoing(parents[0].id),
                                EdgeWanted::RunSince { since: edge.edge_timestamp },
                            ),
                        ),
                    ),
                )
            } else {
                Some(Seq::empty())
            }
        }
    }

    /// What setting `src` on a frame owner causes: the loads into the frame
    /// from the time of the edge up to the next time that `src` is set on the
    /// same owner. The edge, the other edges that set `src` and the loads
    /// must all have a time.
    pub open spec fn frame_load_effects(&self, edge: Edge) -> Option<Seq<Edge>> {
        let rivals = picked(
            self.incoming(edge.target),
            EdgeWanted::SourceSetBut { but: edge.id },
        );
        let loads = self.frame_loads(self.outgoing(edge.target));
        match edge.edge_timestamp {
            Some(from) => if all_timed(rivals) && all_timed(loads) {
                Some(
                    picked(
                        loads,
                        EdgeWanted::Within { from, until: least_time_after(rivals, from) },
                    ),
                )
            } else {
                None
            },
            None => None,
        }
    }

    /// What setting the attribute `key` causes: where it is `src` on an
    /// element that loads from it, the requests that the element sends; on a
    /// frame owner, the loads into the frame.
    pub open spec fn attribute_effects(&self, edge: Edge, key: Seq<char>) -> Option<Seq<Edge>> {
        match self.node_at(edge.target).node_type {
            NodeType::HtmlElement { tag_name, .. } => if key == "src"@ && can_have_src(tag_name@) {
                Some(picked(self.outgoing(edge.target), EdgeWanted::RequestStart))
            } else {
                Some(Seq::empty())
            },
            NodeType::FrameOwner { tag_name, .. } => if key == "src"@ && can_have_src(tag_name@) {
                self.frame_load_effects(edge)
            } else {
                Some(Seq::empty())
            },
            _ => Some(Seq::empty()),
        }
    }

    /// What crossing into another frame context causes: at a document root,
    /// the work of the parser on that document; at a parser, nothing; at the
    /// place of a frame recorded apart, the crossings that leave it.
    pub open spec fn crossing_effects(&self, edge: Edge) -> Option<Seq<Edge>> {
        match self.node_at(edge.target).node_type {
            NodeType::DomRoot { .. } => self.parse_effects(edge),
            NodeType::Parser {  } => Some(Seq::empty()),
            NodeType::RemoteFrame { .. } => Some(
                picked(self.outgoing(edge.target), EdgeWanted::CrossDom),
            ),
            _ => None,
        }
    }

    /// What the answer to a request causes: a script that arrives at a
    /// `script` element is run by it.
    pub open spec fn completion_effects(&self, edge: Edge, resource_type: Seq<char>) -> Seq<Edge> {
        if resource_type == "script"@ && is_script_element(self.node_at(edge.target)) {
            picked(self.outgoing(edge.target), EdgeWanted::Execute)
        } else {
            Seq::empty()
        }
    }

    /// The direct effects of an edge, in the order of the adjacency
    /// structure; nothing where the kind of the edge is not followed, where
    /// its target is not a node of the graph, or where the graph is not as
    /// the rule for its kind needs it.
    pub open spec fn direct_effects(&self, edge: Edge) -> Option<Seq<Edge>> {
        match edge.edge_type {
            EdgeType::CreateNode {  } => Some(Seq::empty()),
            EdgeType::RequestError { .. } => Some(Seq::empty()),
            EdgeType::CrossDom {  } => if self.has_node(edge.target) {
                self.crossing_effects(edge)
            } else {
                None
            },
            EdgeType::InsertNode { parent, .. } => if self.has_node(edge.target) {
                self.insertion_effects(edge, parent)
            } else {
                None
            },
            EdgeType::RequestComplete { resource_type, .. } => if self.has_node(edge.target) {
                Some(self.completion_effects(edge, resource_type@))
            } else {
                None
            },
            EdgeType::RequestStart { request_id, .. } => if self.has_node(edge.target) {
                Some(picked(self.outgoing(edge.target), EdgeWanted::Answer { request_id }))
            } else {
                None
            },
            EdgeType::Execute {  } => if self.has_node(edge.target) {
                Some(picked(self.outgoing(edge.target), EdgeWanted::ScriptWork))
            } else {
                None
            },
            EdgeType::SetAttribute { key, .. } => if self.has_node(edge.target) {
                self.attribute_effects(edge, key@)
            } else {
                None
            },
            _ => None,
        }
    }

    /// The edges of `edges` that load a document into a frame.
    fn pick_frame_loads<'a>(&self, edges: &Vec<&'a Edge>) -> (found: Vec<&'a Edge>)
        requires
            self.wf(),
            forall|i: int| 0 <= i < edges@.len() ==> self.has_node((#[trigger] edges@[i]).target),
        ensures
            edges_behind(found@) == self.frame_loads(edges_behind(edges@)),
    {
        let ghost all = edges_behind(edges@);
        let ghost pred = |edge: Edge| self.is_frame_load(edge);
        let mut found: Vec<&Edge> = Vec::new();
        let mut i: usize = 0;
        assert(all.take(0).filter(pred) =~= Seq::<Edge>::empty()) by {
            reveal(Seq::filter);
        }
        while i < edges.len()
            invariant
                self.wf(),
                i <= edges@.len(),
                all == edges_behind(edges@),
                forall|i: int|
                    0 <= i < edges@.len() ==> self.has_node((#[trigger] edges@[i]).target),
                pred == |edge: Edge| self.is_frame_load(edge),
                edges_behind(found@) =~= all.take(i as int).filter(pred),
            decreases edges@.len() - i,
        {
            let edge: &Edge = edges[i];
            proof {
                assert(all.take(i + 1) =~= all.take(i as int).push(*edge));
                all.take(i as int).lemma_filter_push(*edge, pred);
            }
            let crossing = match &edge.edge_type {
                EdgeType::CrossDom {  } => true,
                _ => false,
            };
            if crossing {
                assert(self.has_node(edges@[i as int].target));
                let loads = match &self.target_node(edge).node_type {
                    NodeType::DomRoot { url, .. } => match url {
                        Some(u) => !same_text(u.as_str(), "about:blank"),
                        None => true,
                    },
                    NodeType::RemoteFrame { .. } => true,
                    _ => false,
                };
                if loads {
                    let ghost before = found@;
                    found.push(edge);
                    assert(edges_behind(found@) =~= edges_behind(before).push(*edge));
                }
            }
            i = i + 1;
        }
        assert(all.take(i as int) =~= all);
        found
    }

    /// The edges that leave the target of `edge`, each of which ends at a
    /// node of the graph.
    fn edges_from_target(&self, edge: &Edge) -> (found: Vec<&Edge>)
        requires
            self.wf(),
            self.has_node(edge.target),
        ensures
            edges_behind(found@) == self.outgoing(edge.target),
            forall|i: int| 0 <= i < found@.len() ==> self.has_node((#[trigger] found@[i]).target),
    {
        let target = self.target_node(edge);
        let found = self.outgoing_edges(target);
        proof {
            assert forall|i: int| 0 <= i < found@.len() implies self.has_node(
                (#[trigger] found@[i]).target,
            ) by {
                assert(edges_behind(found@)[i] == *found@[i]);
                self.lemma_edges_of(edge.target, true, i);
                self.lemma_edge_ends(found@[i].id);
            }
        }
        found
    }

    /// What the insertion `edge` below the element numbered `parent` causes.
    fn effects_of_insertion(&self, edge: &Edge, parent: usize) -> (effects: Option<Vec<&Edge>>)
        requires
            self.wf(),
            self.has_node(edge.target),
        ensures
            match effects {
                Some(found) => self.insertion_effects(*edge, parent) == Some(edges_behind(found@)),
                None => self.insertion_effects(*edge, parent) is None,
            },
    {
        let is_text = match &self.target_node(edge).node_type {
            NodeType::TextNode { .. } => true,
            _ => false,
        };
        if !is_text {
            let none: Vec<&Edge> = Vec::new();
            assert(edges_behind(none@) =~= Seq::<Edge>::empty());
            return Some(none);
        }
        let want = NodeWanted::DomParent {
            frame: crate::ids::HasFrameId::get_frame_id(&edge.id),
            dom_id: parent,
        };
        let parents = self.pick_nodes(&want);
        if parents.len() != 1 {
            return None;
        }
        let parent_node: &Node = parents[0];
        assert(nodes_behind(parents@)[0] == *parent_node);
        if script_element(parent_node) {
            let runs = pick_edges(
                &self.outgoing_edges(parent_node),
                &EdgeWanted::RunSince { since: edge.edge_timestamp },
            );
            let mut found: Vec<&Edge> = Vec::new();
            match earliest_edge(&runs) {
                Some(run) => {
                    found.push(run);
                    assert(edges_behind(found@) =~= seq![*run]);
                },
                None => {
                    assert(edges_behind(found@) =~= Seq::<Edge>::empty());
                },
            }
            Some(found)
        } else {
            let none: Vec<&Edge> = Vec::new();
            assert(edges_behind(none@) =~= Seq::<Edge>::empty());
            Some(none)
        }
    }

    /// What setting `src` on the frame owner that `edge` ends at causes.
    fn effects_of_frame_source(&self, edge: &Edge) -> (effects: Option<Vec<&Edge>>)
        requires
            self.wf(),
            self.has_node(edge.target),
        ensures
            match effects {
                Some(found) => self.frame_load_effects(*edge) == Some(edges_behind(found@)),
                None => self.frame_load_effects(*edge) is None,
            },
    {
        let from = match edge.edge_timestamp {
            Some(from) => from,
            None => {
                return None;
            },
        };
        let target = self.target_node(edge);
        let rivals = pick_edges(
            &self.incoming_edges(target),
            &EdgeWanted::SourceSetBut { but: edge.id },
        );
        let until = match next_time_after(&rivals, from) {
            Some(until) => until,
            None => {
                return None;
            },
        };
        let loads = self.pick_frame_loads(&self.edges_from_target(edge));
        match next_time_after(&loads, from) {
            Some(_) => {},
            None => {
                return None;
            },
        }
        Some(pick_edges(&loads, &EdgeWanted::Within { from, until }))
    }

    /// What setting the attribute `key` with `edge` causes.
    fn effects_of_attribute(&self, edge: &Edge, key: &str) -> (effects: Option<Vec<&Edge>>)
        requires
            self.wf(),
            self.has_node(edge.target),
        ensures
            match effects {
                Some(found) => self.attribute_effects(*edge, key@) == Some(edges_behind(found@)),
                None => self.attribute_effects(*edge, key@) is None,
            },
    {
        let target = self.target_node(edge);
        let none: Vec<&Edge> = Vec::new();
        assert(edges_behind(none@) =~= Seq::<Edge>::empty());
        match &target.node_type {
            NodeType::HtmlElement { tag_name, .. } => {
                if same_text(key, "src") && loads_from_src(tag_name.as_str()) {
                    Some(pick_edges(&self.outgoing_edges(target), &EdgeWanted::RequestStart))
                } else {
                    Some(none)
                }
            },
            NodeType::FrameOwner { tag_name, .. } => {
                if same_text(key, "src") && loads_from_src(tag_name.as_str()) {
                    self.effects_of_frame_source(edge)
                } else {
                    Some(none)
                }
            },
            _ => Some(none),
        }
    }

    /// What crossing into another frame context with `edge` causes.
    fn effects_of_crossing(&self, edge: &Edge) -> (effects: Option<Vec<&Edge>>)
        requires
            self.wf(),
            self.has_node(edge.target),
        ensures
            match effects {
                Some(found) => self.crossing_effects(*edge) == Some(edges_behind(found@)),
                None => self.crossing_effects(*edge) is None,
            },
    {
        let target = self.target_node(edge);
        match &target.node_type {
            NodeType::DomRoot { .. } => self.effects_of_parse(edge),
            NodeType::Parser {  } => {
                let none: Vec<&Edge> = Vec::new();
                assert(edges_behind(none@) =~= Seq::<Edge>::empty());
                Some(none)
            },
            NodeType::RemoteFrame { .. } => Some(
                pick_edges(&self.outgoing_edges(target), &EdgeWanted::CrossDom),
            ),
            _ => None,
        }
    }

    /// The direct effects of `edge`, if the rule for its kind gives any
    /// answer on this graph.
    pub fn try_direct_downstream_effects_of(&self, edge: &Edge) -> (effects: Option<Vec<&Edge>>)
        requires
            self.wf(),
        ensures
            match effects {
                Some(found) => self.direct_effects(*edge) == Some(edges_behind(found@)),
                None => self.direct_effects(*edge) is None,
            },
    {
        let none: Vec<&Edge> = Vec::new();
        assert(edges_behind(none@) =~= Seq::<Edge>::empty());
        match &edge.edge_type {
            EdgeType::CreateNode {  } => Some(none),
            EdgeType::RequestError { .. } => Some(none),
            EdgeType::CrossDom {  } => {
                if self.contains_node(edge.target) {
                    self.effects_of_crossing(edge)
                } else {
                    None
                }
            },
            EdgeType::InsertNode { parent, .. } => {
                if self.contains_node(edge.target) {
                    self.effects_of_insertion(edge, *parent)
                } else {
                    None
                }
            },
            EdgeType::RequestComplete { resource_type, .. } => {
                if self.contains_node(edge.target) {
                    let target = self.target_node(edge);
                    if same_text(resource_type.as_str(), "script") && script_element(target) {
                        Some(pick_edges(&self.outgoing_edges(target), &EdgeWanted::Execute))
                    } else {
                        Some(none)
                    }
                } else {
                    None
                }
            },
            EdgeType::RequestStart { request_id, .. } => {
                if self.contains_node(edge.target) {
                    let target = self.target_node(edge);
                    Some(
                        pick_edges(
                            &self.outgoing_edges(target),
                            &EdgeWanted::Answer { request_id: *request_id },
                        ),
                    )
                } else {
                    None
                }
            },
            EdgeType::Execute {  } => {
                if self.contains_node(edge.target) {
                    let target = self.target_node(edge);
                    Some(pick_edges(&self.outgoing_edges(target), &EdgeWanted::ScriptWork))
                } else {
                    None
                }
            },
            EdgeType::SetAttribute { key, .. } => {
                if self.contains_node(edge.target) {
                    self.effects_of_attribute(edge, key.as_str())
                } else {
                    None
                }
            },
            _ => None,
        }
    }

    /// The direct effects of `edge`: the edges that would not be there
    /// without it, by the rule for its kind.
    pub fn direct_downstream_effects_of(&self, edge: &Edge) -> (effects: Vec<&Edge>)
        requires
            self.wf(),
            self.direct_effects(*edge) is Some,
        ensures
            self.direct_effects(*edge) == Some(edges_behind(effects@)),
    {
        self.try_direct_downstream_effects_of(edge).unwrap()
    }
}

} // verus!
