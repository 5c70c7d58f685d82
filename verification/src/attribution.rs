//! To which document an element, a script or an action belongs: the document
//! root that it hangs below, that ran it, or that it came from.
//!
//! The ways from a node to its root lead through the graph and may run in a
//! circle. They are followed for as many steps as the graph has nodes and
//! edges; a way that is longer has no end.

use crate::graph::{edges_behind, nodes_behind, Edge, Node, PageGraph};
use crate::ids::{FrameId, HasFrameId};
use crate::select::{pick_edges, picked, picked_nodes, same_frame, EdgeWanted, NodeWanted};
use crate::text::{same_text, text_before, text_lt};
use crate::types::{EdgeType, NodeType};
use vstd::prelude::*;

verus! {

/// The address of a document root that has one.
pub open spec fn root_url_of(node: Node) -> Option<Seq<char>> {
    match node.node_type {
        NodeType::DomRoot { url, .. } => match url {
            Some(u) => Some(u@),
            None => None,
        },
        _ => None,
    }
}

/// The first of the document roots with the address that comes first in the
/// order of texts; none where no root has an address.
pub open spec fn first_by_url(roots: Seq<Node>) -> Option<Node>
    decreases roots.len(),
{
    if roots.len() == 0 {
        None
    } else {
        match first_by_url(roots.drop_last()) {
            Some(best) => if root_url_of(roots.last()) is Some && text_lt(
                root_url_of(roots.last()).unwrap(),
                root_url_of(best).unwrap(),
            ) {
                Some(roots.last())
            } else {
                Some(best)
            },
            None => if root_url_of(roots.last()) is Some {
                Some(roots.last())
            } else {
                None
            },
        }
    }
}

/// The first of the document roots that has an address is a root with an
/// address.
pub proof fn lemma_first_by_url(roots: Seq<Node>)
    ensures
        match first_by_url(roots) {
            Some(best) => root_url_of(best) is Some && roots.contains(best),
            None => forall|i: int| 0 <= i < roots.len() ==> root_url_of(#[trigger] roots[i]) is None,
        },
    decreases roots.len(),
{
    if roots.len() > 0 {
        lemma_first_by_url(roots.drop_last());
        assert(roots[roots.len() - 1] == roots.last());
        match first_by_url(roots.drop_last()) {
            Some(best) => {
                let k = choose|k: int|
                    0 <= k < roots.drop_last().len() && roots.drop_last()[k] == best;
                assert(roots[k] == best);
            },
            None => {
                assert forall|i: int| 0 <= i < roots.len() - 1 implies root_url_of(
                    #[trigger] roots[i],
                ) is None by {
                    assert(roots.drop_last()[i] == roots[i]);
                }
            },
        }
    }
}

/// The address of a document root that has one.
fn url_of(node: &Node) -> (url: Option<&str>)
    ensures
        match url {
            Some(u) => root_url_of(*node) == Some(u@),
            None => root_url_of(*node) is None,
        },
{
    match &node.node_type {
        NodeType::DomRoot { url, .. } => match url {
            Some(u) => Some(u.as_str()),
            None => None,
        },
        _ => None,
    }
}

/// The first of the document roots with the address that comes first in the
/// order of texts.
pub fn pick_first_by_url<'a>(roots: &Vec<&'a Node>) -> (best: Option<&'a Node>)
    ensures
        match best {
            Some(node) => first_by_url(nodes_behind(roots@)) == Some(*node),
            None => first_by_url(nodes_behind(roots@)) is None,
        },
{
    let ghost all = nodes_behind(roots@);
    let mut best: Option<&'a Node> = None;
    let mut i: usize = 0;
    while i < roots.len()
        invariant
            i <= roots@.len(),
            all == nodes_behind(roots@),
            match best {
                Some(node) => first_by_url(all.take(i as int)) == Some(*node),
                None => first_by_url(all.take(i as int)) is None,
            },
        decreases roots@.len() - i,
    {
        let node: &'a Node = roots[i];
        proof {
            assert(all.take(i + 1).drop_last() =~= all.take(i as int));
            assert(all.take(i + 1).last() == *node);
            lemma_first_by_url(all.take(i as int));
        }
        match url_of(node) {
            Some(url) => {
                best = match best {
                    Some(held) => {
                        let held_url = url_of(held).unwrap();
                        if text_before(url, held_url) {
                            Some(node)
                        } else {
                            Some(held)
                        }
                    },
                    None => Some(node),
                };
            },
            None => {},
        }
        i = i + 1;
    }
    assert(all.take(i as int) =~= all);
    best
}

/// The number of the element below which an insertion puts its node.
pub open spec fn parent_of(edge: Edge) -> usize {
    match edge.edge_type {
        EdgeType::InsertNode { parent, .. } => parent,
        _ => 0,
    }
}

/// An answer that there is, wrapped as the answer of a question that may
/// have none.
pub open spec fn found(root: Option<Node>) -> Option<Option<Node>> {
    match root {
        Some(node) => Some(Some(node)),
        None => None,
    }
}

impl PageGraph {
    /// For how many steps a way through the graph is followed: as many as the
    /// graph has nodes and edges.
    pub open spec fn way_limit(&self) -> nat {
        if self.nodes@.len() + self.edges@.len() > usize::MAX {
            usize::MAX as nat
        } else {
            (self.nodes@.len() + self.edges@.len()) as nat
        }
    }

    /// Whether a node is a document root of the frame `frame` that no edge of
    /// that frame crosses into.
    pub open spec fn is_local_root(&self, node: Node, frame: Option<FrameId>) -> bool {
        node.node_type is DomRoot && node.id.0.frame_id == frame && picked(
            self.incoming(node.id),
            EdgeWanted::CrossDomIn { frame },
        ).len() == 0
    }

    /// The document roots of the frame `frame` that no edge of that frame
    /// crosses into.
    pub open spec fn local_roots(&self, frame: Option<FrameId>) -> Seq<Node> {
        self.nodes@.filter(|node: Node| self.is_local_root(node, frame))
    }

    /// The top document root of the frame `frame`, where it has exactly one.
    pub open spec fn local_root(&self, frame: Option<FrameId>) -> Option<Node> {
        if self.local_roots(frame).len() == 1 {
            Some(self.local_roots(frame)[0])
        } else {
            None
        }
    }

    /// The document roots of the runs `runs`, each of which must have one.
    pub open spec fn roots_of_runs(&self, runs: Seq<Edge>, fuel: nat) -> Option<Seq<Node>>
        decreases fuel, 4nat, runs.len(),
    {
        if runs.len() == 0 {
            Some(Seq::empty())
        } else {
            match self.roots_of_runs(runs.drop_last(), fuel) {
                Some(roots) => match self.root_of_edge(runs.last(), fuel) {
                    Some(Some(root)) => Some(roots.push(root)),
                    _ => None,
                },
                None => None,
            }
        }
    }

    /// The document root of a script: of the roots of its runs, the first
    /// with the address that comes first. A script that never ran belongs to
    /// the top document root of the frame `fallback`, if one is given.
    pub open spec fn root_of_script(
        &self,
        script: Node,
        fallback: Option<Option<FrameId>>,
        fuel: nat,
    ) -> Option<Node>
        decreases fuel, 1nat, 0nat,
    {
        let runs = picked(self.incoming(script.id), EdgeWanted::Execute);
        if fuel == 0 {
            None
        } else {
            match self.roots_of_runs(runs, (fuel - 1) as nat) {
                Some(roots) => if roots.len() == 0 {
                    match fallback {
                        Some(frame) => self.local_root(frame),
                        None => None,
                    }
                } else {
                    first_by_url(roots)
                },
                None => None,
            }
        }
    }

    /// The document root that a node of the DOM hangs below, found within
    /// `fuel` steps: a document root is its own; an inserted node has the
    /// root of the parent that its first insertion names, which must be the
    /// only node with that number in its frame; a node that was never
    /// inserted has the root of the script that created it.
    pub open spec fn root_of_node(&self, node: Node, fuel: nat) -> Option<Node>
        decreases fuel, 2nat, 0nat,
    {
        match node.node_type {
            NodeType::DomRoot { .. } => Some(node),
            NodeType::HtmlElement { .. } | NodeType::TextNode { .. } | NodeType::FrameOwner {
                ..
            } => {
                let inserts = picked(self.incoming(node.id), EdgeWanted::InsertNode);
                if inserts.len() > 0 {
                    let parents = picked_nodes(
                        self.nodes@,
                        NodeWanted::DomParent {
                            frame: node.id.0.frame_id,
                            dom_id: parent_of(inserts[0]),
                        },
                    );
                    if parents.len() != 1 || fuel == 0 {
                        None
                    } else {
                        self.root_of_node(parents[0], (fuel - 1) as nat)
                    }
                } else {
                    let makers = picked(self.incoming(node.id), EdgeWanted::CreateNode);
                    if makers.len() != 1 {
                        None
                    } else {
                        let creator = self.node_at(makers[0].source);
                        if creator.node_type is Script {
                            self.root_of_script(creator, Some(creator.id.0.frame_id), fuel)
                        } else {
                            None
                        }
                    }
                }
            },
            _ => None,
        }
    }

    /// The document root that an edge is attributed to, found within `fuel`
    /// steps. The outer answer is nothing where the rules have none; the
    /// inner answer is nothing for a request that the parser made, which
    /// belongs to no document.
    pub open spec fn root_of_edge(&self, edge: Edge, fuel: nat) -> Option<Option<Node>>
        decreases fuel, 3nat, 0nat,
    {
        match edge.edge_type {
            EdgeType::RequestComplete { .. } => if !self.has_node(edge.target) {
                None
            } else {
                let target = self.node_at(edge.target);
                match target.node_type {
                    NodeType::HtmlElement { .. } | NodeType::FrameOwner { .. } => found(
                        self.root_of_node(target, fuel),
                    ),
                    NodeType::Script { .. } => found(
                        self.root_of_script(target, Some(edge.id.0.frame_id), fuel),
                    ),
                    NodeType::Parser {  } => Some(None),
                    _ => None,
                }
            },
            EdgeType::Execute {  } => if !self.has_node(edge.source) {
                None
            } else {
                let source = self.node_at(edge.source);
                match source.node_type {
                    NodeType::HtmlElement { tag_name, .. } => if tag_name@ == "script"@ {
                        found(self.root_of_node(source, fuel))
                    } else {
                        None
                    },
                    NodeType::Script { script_type, .. } => if script_type@ == "module"@ {
                        found(self.local_root(edge.id.0.frame_id))
                    } else {
                        found(self.root_of_script(source, None, fuel))
                    },
                    NodeType::DomRoot { .. } => Some(Some(source)),
                    _ => None,
                }
            },
            EdgeType::CrossDom {  } => if !self.has_node(edge.source) {
                None
            } else {
                let source = self.node_at(edge.source);
                match source.node_type {
                    NodeType::RemoteFrame { .. } => {
                        let before = picked(self.incoming(source.id), EdgeWanted::CrossDom);
                        if before.len() != 1 || fuel == 0 {
                            None
                        } else {
                            self.root_of_edge(before[0], (fuel - 1) as nat)
                        }
                    },
                    NodeType::FrameOwner { .. } => found(self.root_of_node(source, fuel)),
                    NodeType::DomRoot { .. } => Some(Some(source)),
                    _ => None,
                }
            },
            _ => None,
        }
    }

    /// For how many steps a way through the graph is followed.
    fn way_steps(&self) -> (steps: usize)
        ensures
            steps == self.way_limit(),
    {
        let n: usize = self.nodes.len();
        let e: usize = self.edges.len();
        if n > usize::MAX - e {
            usize::MAX
        } else {
            n + e
        }
    }

    /// The top document root of the frame `frame`, where it has exactly one.
    fn find_local_root(&self, frame: Option<FrameId>) -> (root: Option<&Node>)
        requires
            self.wf(),
        ensures
            match root {
                Some(node) => self.local_root(frame) == Some(*node),
                None => self.local_root(frame) is None,
            },
    {
        let ghost all = self.nodes@;
        let ghost pred = |node: Node| self.is_local_root(node, frame);
        let mut found: Vec<&Node> = Vec::new();
        let mut i: usize = 0;
        assert(all.take(0).filter(pred) =~= Seq::<Node>::empty()) by {
            reveal(Seq::filter);
        }
        while i < self.nodes.len()
            invariant
                self.wf(),
                i <= self.nodes@.len(),
                all == self.nodes@,
                pred == |node: Node| self.is_local_root(node, frame),
                nodes_behind(found@) =~= all.take(i as int).filter(pred),
            decreases self.nodes@.len() - i,
        {
            let node: &Node = &self.nodes[i];
            proof {
                assert(all.take(i + 1) =~= all.take(i as int).push(*node));
                all.take(i as int).lemma_filter_push(*node, pred);
            }
            let is_root = match &node.node_type {
                NodeType::DomRoot { .. } => same_frame(node.id.get_frame_id(), frame),
                _ => false,
            };
            if is_root {
                let crossings = pick_edges(
                    &self.incoming_edges(node),
                    &EdgeWanted::CrossDomIn { frame },
                );
                if crossings.len() == 0 {
                    let ghost before = found@;
                    found.push(node);
                    assert(nodes_behind(found@) =~= nodes_behind(before).push(*node));
                }
            }
            i = i + 1;
        }
        assert(all.take(i as int) =~= all);
        if found.len() == 1 {
            assert(nodes_behind(found@)[0] == *found@[0]);
            Some(found[0])
        } else {
            None
        }
    }

    /// The document roots of the runs `runs`, each of which must have one.
    fn find_roots_of_runs<'a>(&'a self, runs: &Vec<&'a Edge>, fuel: usize) -> (found: Option<
        Vec<&'a Node>,
    >)
        requires
            self.wf(),
        ensures
            match found {
                Some(roots) => self.roots_of_runs(edges_behind(runs@), fuel as nat) == Some(
                    nodes_behind(roots@),
                ),
                None => self.roots_of_runs(edges_behind(runs@), fuel as nat) is None,
            },
        decreases fuel, 4nat, 0nat,
    {
        let ghost all = edges_behind(runs@);
        let mut roots: Vec<&'a Node> = Vec::new();
        let mut i: usize = 0;
        assert(nodes_behind(roots@) =~= Seq::<Node>::empty());
        while i < runs.len()
            invariant
                self.wf(),
                i <= runs@.len(),
                all == edges_behind(runs@),
                self.roots_of_runs(all.take(i as int), fuel as nat) == Some(nodes_behind(roots@)),
            decreases runs@.len() - i,
        {
            let run: &'a Edge = runs[i];
            proof {
                assert(all.take(i + 1).drop_last() =~= all.take(i as int));
                assert(all.take(i + 1).last() == *run);
            }
            match self.find_root_of_edge(run, fuel) {
                Some(Some(root)) => {
                    let ghost before = roots@;
                    roots.push(root);
                    assert(nodes_behind(roots@) =~= nodes_behind(before).push(*root));
                },
                _ => {
                    proof {
                        self.lemma_runs_fail(all, i + 1, fuel as nat);
                    }
                    return None;
                },
            }
            i = i + 1;
        }
        assert(all.take(i as int) =~= all);
        Some(roots)
    }

    /// Where some of the runs have no roots, all of them have none.
    proof fn lemma_runs_fail(&self, runs: Seq<Edge>, upto: int, fuel: nat)
        requires
            0 <= upto <= runs.len(),
            self.roots_of_runs(runs.take(upto), fuel) is None,
        ensures
            self.roots_of_runs(runs, fuel) is None,
        decreases runs.len() - upto,
    {
        if upto == runs.len() {
            assert(runs.take(upto) =~= runs);
        } else {
            assert(runs.take(upto + 1).drop_last() =~= runs.take(upto));
            self.lemma_runs_fail(runs, upto + 1, fuel);
        }
    }

    /// The document root of a script.
    fn find_root_of_script<'a>(
        &'a self,
        script: &'a Node,
        fallback: Option<Option<FrameId>>,
        fuel: usize,
    ) -> (root: Option<&'a Node>)
        requires
            self.wf(),
        ensures
            match root {
                Some(node) => self.root_of_script(*script, fallback, fuel as nat) == Some(*node),
                None => self.root_of_script(*script, fallback, fuel as nat) is None,
            },
        decreases fuel, 1nat, 0nat,
    {
        if fuel == 0 {
            return None;
        }
        let runs = pick_edges(&self.incoming_edges(script), &EdgeWanted::Execute);
        let roots = match self.find_roots_of_runs(&runs, fuel - 1) {
            Some(roots) => roots,
            None => {
                return None;
            },
        };
        if roots.len() == 0 {
            match fallback {
                Some(frame) => self.find_local_root(frame),
                None => None,
            }
        } else {
            pick_first_by_url(&roots)
        }
    }

    /// The document root that a node of the DOM hangs below.
    fn find_root_of_node<'a>(&'a self, node: &'a Node, fuel: usize) -> (root: Option<&'a Node>)
        requires
            self.wf(),
        ensures
            match root {
                Some(found) => self.root_of_node(*node, fuel as nat) == Some(*found),
                None => self.root_of_node(*node, fuel as nat) is None,
            },
        decreases fuel, 2nat, 0nat,
    {
        match &node.node_type {
            NodeType::DomRoot { .. } => Some(node),
            NodeType::HtmlElement { .. } | NodeType::TextNode { .. } | NodeType::FrameOwner {
                ..
            } => {
                let incoming = self.incoming_edges(node);
                let inserts = pick_edges(&incoming, &EdgeWanted::InsertNode);
                if inserts.len() > 0 {
                    let first: &Edge = inserts[0];
                    assert(edges_behind(inserts@)[0] == *first);
                    let parent = match &first.edge_type {
                        EdgeType::InsertNode { parent, .. } => *parent,
                        _ => 0,
                    };
                    let parents = self.pick_nodes(
                        &NodeWanted::DomParent { frame: node.id.get_frame_id(), dom_id: parent },
                    );
                    if parents.len() != 1 || fuel == 0 {
                        None
                    } else {
                        assert(nodes_behind(parents@)[0] == *parents@[0]);
                        self.find_root_of_node(parents[0], fuel - 1)
                    }
                } else {
                    let makers = pick_edges(&incoming, &EdgeWanted::CreateNode);
                    if makers.len() != 1 {
                        None
                    } else {
                        let maker: &Edge = makers[0];
                        proof {
                            let all = self.incoming(node.id);
                            assert(edges_behind(makers@)[0] == *maker);
                            crate::select::lemma_picked(all, EdgeWanted::CreateNode, 0);
                            let k = choose|k: int| 0 <= k < all.len() && all[k] == *maker;
                            self.lemma_edges_of(node.id, false, k);
                            self.lemma_edge_ends(maker.id);
                        }
                        let creator = self.source_node(maker);
                        let is_script = match &creator.node_type {
                            NodeType::Script { .. } => true,
                            _ => false,
                        };
                        if is_script {
                            self.find_root_of_script(
                                creator,
                                Some(creator.id.get_frame_id()),
                                fuel,
                            )
                        } else {
                            None
                        }
                    }
                }
            },
            _ => None,
        }
    }

    /// The document root that an edge is attributed to.
    fn find_root_of_edge<'a>(&'a self, edge: &'a Edge, fuel: usize) -> (root: Option<
        Option<&'a Node>,
    >)
        requires
            self.wf(),
        ensures
            match root {
                Some(Some(found)) => self.root_of_edge(*edge, fuel as nat) == Some(Some(*found)),
                Some(None) => self.root_of_edge(*edge, fuel as nat) == Some(None::<Node>),
                None => self.root_of_edge(*edge, fuel as nat) is None,
            },
        decreases fuel, 3nat, 0nat,
    {
        match &edge.edge_type {
            EdgeType::RequestComplete { .. } => {
                if !self.contains_node(edge.target) {
                    return None;
                }
                let target = self.target_node(edge);
                match &target.node_type {
                    NodeType::HtmlElement { .. } | NodeType::FrameOwner { .. } => {
                        match self.find_root_of_node(target, fuel) {
                            Some(root) => Some(Some(root)),
                            None => None,
                        }
                    },
                    NodeType::Script { .. } => {
                        match self.find_root_of_script(
                            target,
                            Some(edge.id.get_frame_id()),
                            fuel,
                        ) {
                            Some(root) => Some(Some(root)),
                            None => None,
                        }
                    },
                    NodeType::Parser {  } => Some(None),
                    _ => None,
                }
            },
            EdgeType::Execute {  } => {
                if !self.contains_node(edge.source) {
                    return None;
                }
                let source = self.source_node(edge);
                match &source.node_type {
                    NodeType::HtmlElement { tag_name, .. } => {
                        if same_text(tag_name.as_str(), "script") {
                            match self.find_root_of_node(source, fuel) {
                                Some(root) => Some(Some(root)),
                                None => None,
                            }
                        } else {
                            None
                        }
                    },
                    NodeType::Script { script_type, .. } => {
                        if same_text(script_type.as_str(), "module") {
                            match self.find_local_root(edge.id.get_frame_id()) {
                                Some(root) => Some(Some(root)),
                                None => None,
                            }
                        } else {
                            match self.find_root_of_script(source, None, fuel) {
                                Some(root) => Some(Some(root)),
                                None => None,
                            }
                        }
                    },
                    NodeType::DomRoot { .. } => Some(Some(source)),
                    _ => None,
                }
            },
            EdgeType::CrossDom {  } => {
                if !self.contains_node(edge.source) {
                    return None;
                }
                let source = self.source_node(edge);
                match &source.node_type {
                    NodeType::RemoteFrame { .. } => {
                        let before = pick_edges(
                            &self.incoming_edges(source),
                            &EdgeWanted::CrossDom,
                        );
                        if before.len() != 1 || fuel == 0 {
                            None
                        } else {
                            assert(edges_behind(before@)[0] == *before@[0]);
                            self.find_root_of_edge(before[0], fuel - 1)
                        }
                    },
                    NodeType::FrameOwner { .. } => {
                        match self.find_root_of_node(source, fuel) {
                            Some(root) => Some(Some(root)),
                            None => None,
                        }
                    },
                    NodeType::DomRoot { .. } => Some(Some(source)),
                    _ => None,
                }
            },
            _ => None,
        }
    }

    /// The top document root of the frame that `item` belongs to, if that
    /// frame has exactly one: the only document root of the frame that no
    /// edge of the frame crosses into.
    pub fn try_local_context_root_for_id<I: HasFrameId + Copy>(&self, item: I) -> (root: Option<
        &Node,
    >)
        requires
            self.wf(),
        ensures
            match root {
                Some(node) => self.local_root(item.frame()) == Some(*node),
                None => self.local_root(item.frame()) is None,
            },
    {
        self.find_local_root(item.get_frame_id())
    }

    /// The top document root of the frame that `item` belongs to.
    pub fn local_context_root_for_id<I: HasFrameId + Copy>(&self, item: I) -> (root: &Node)
        requires
            self.wf(),
            self.local_root(item.frame()) is Some,
        ensures
            self.local_root(item.frame()) == Some(*root),
    {
        self.find_local_root(item.get_frame_id()).unwrap()
    }

    /// The document root that the node `node` of the DOM hangs below, if the
    /// way up leads to one.
    pub fn try_dom_root_for_html_node<'a>(&'a self, node: &'a Node) -> (root: Option<&'a Node>)
        requires
            self.wf(),
        ensures
            match root {
                Some(found) => self.root_of_node(*node, self.way_limit()) == Some(*found),
                None => self.root_of_node(*node, self.way_limit()) is None,
            },
    {
        self.find_root_of_node(node, self.way_steps())
    }

    /// The document root that the node `node` of the DOM hangs below.
    pub fn dom_root_for_html_node<'a>(&'a self, node: &'a Node) -> (root: Option<&'a Node>)
        requires
            self.wf(),
            self.root_of_node(*node, self.way_limit()) is Some,
        ensures
            root is Some,
            self.root_of_node(*node, self.way_limit()) == Some(*root.unwrap()),
    {
        self.find_root_of_node(node, self.way_steps())
    }

    /// The document root that `edge` is attributed to, if the rules have an
    /// answer: the outer answer is nothing where they have none, the inner
    /// answer is nothing where the edge belongs to no document.
    pub fn try_dom_root_for_edge<'a>(&'a self, edge: &'a Edge) -> (root: Option<Option<&'a Node>>)
        requires
            self.wf(),
        ensures
            match root {
                Some(Some(found)) => self.root_of_edge(*edge, self.way_limit()) == Some(
                    Some(*found),
                ),
                Some(None) => self.root_of_edge(*edge, self.way_limit()) == Some(None::<Node>),
                None => self.root_of_edge(*edge, self.way_limit()) is None,
            },
    {
        self.find_root_of_edge(edge, self.way_steps())
    }

    /// The document root that `edge` is attributed to; nothing for a request
    /// that the parser made.
    pub fn dom_root_for_edge<'a>(&'a self, edge: &'a Edge) -> (root: Option<&'a Node>)
        requires
            self.wf(),
            self.root_of_edge(*edge, self.way_limit()) is Some,
        ensures
            match root {
                Some(found) => self.root_of_edge(*edge, self.way_limit()) == Some(Some(*found)),
                None => self.root_of_edge(*edge, self.way_limit()) == Some(None::<Node>),
            },
    {
        self.find_root_of_edge(edge, self.way_steps()).unwrap()
    }
}

} // verus!
