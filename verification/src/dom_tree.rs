//! The document that a parser built below a document root: which of the
//! nodes that the parser of a frame made hang below that root, and the work
//! of the parser on them.

use crate::graph::{edges_behind, nodes_behind, Edge, Node, PageGraph};
use crate::ids::{FrameId, HasFrameId, NodeId};
use crate::order::{
    has_repeats, keys_along, lemma_order_of, lemma_order_rises, lemma_repeats_are_neighbours,
    order_of, sort_order,
};
use crate::select::{
    dom_id, dom_id_of, pick_edges, picked, picked_nodes, same_frame, EdgeWanted, NodeWanted,
};
use crate::types::{EdgeType, NodeType};
use vstd::prelude::*;

verus! {

/// The number that the browser gave a node of the DOM, as a key to order by;
/// zero for a node that has none.
pub open spec fn dom_key(node: Node) -> int {
    match dom_id_of(node.node_type) {
        Some(id) => id as int,
        None => 0,
    }
}

/// The keys of the nodes.
pub open spec fn dom_keys(nodes: Seq<Node>) -> Seq<int> {
    Seq::new(nodes.len(), |i: int| dom_key(nodes[i]))
}

/// Every node has a number of the DOM.
pub open spec fn all_numbered(nodes: Seq<Node>) -> bool {
    forall|i: int| 0 <= i < nodes.len() ==> dom_id_of((#[trigger] nodes[i]).node_type) is Some
}

/// The nodes in the order `order` of their places.
pub open spec fn arranged(nodes: Seq<Node>, order: Seq<int>) -> Seq<Node> {
    Seq::new(order.len(), |i: int| nodes[order[i]])
}

/// The nodes in the order of their numbers of the DOM.
pub open spec fn by_dom_id(nodes: Seq<Node>) -> Seq<Node> {
    arranged(nodes, order_of(dom_keys(nodes)))
}

/// The numbers of the DOM rise strictly along the nodes.
pub open spec fn rising_dom_ids(nodes: Seq<Node>) -> bool {
    forall|i: int, j: int|
        0 <= i < j < nodes.len() ==> dom_key(#[trigger] nodes[i]) < dom_key(#[trigger] nodes[j])
}

/// The place among `nodes` of the node numbered `dom`.
pub open spec fn place_of_dom_id(nodes: Seq<Node>, dom: usize) -> Option<int> {
    if exists|j: int| 0 <= j < nodes.len() && dom_key(#[trigger] nodes[j]) == dom {
        Some(choose|j: int| 0 <= j < nodes.len() && dom_key(#[trigger] nodes[j]) == dom)
    } else {
        None
    }
}

/// The place among `nodes` of the first parent that the insertions name and
/// that is one of them.
pub open spec fn first_known_parent(nodes: Seq<Node>, inserts: Seq<Edge>) -> Option<int>
    decreases inserts.len(),
{
    if inserts.len() == 0 {
        None
    } else {
        match first_known_parent(nodes, inserts.drop_last()) {
            Some(j) => Some(j),
            None => match inserts.last().edge_type {
                EdgeType::InsertNode { parent, .. } => place_of_dom_id(nodes, parent),
                _ => None,
            },
        }
    }
}

/// The place among `nodes` of the node numbered `dom`, by halving.
pub fn find_dom_id(nodes: &Vec<&Node>, dom: usize) -> (place: Option<usize>)
    requires
        rising_dom_ids(nodes_behind(nodes@)),
        all_numbered(nodes_behind(nodes@)),
    ensures
        match place {
            Some(j) => place_of_dom_id(nodes_behind(nodes@), dom) == Some(j as int) && j
                < nodes@.len(),
            None => place_of_dom_id(nodes_behind(nodes@), dom) is None,
        },
{
    let ghost all = nodes_behind(nodes@);
    let mut lo: usize = 0;
    let mut hi: usize = nodes.len();
    while lo < hi
        invariant
            lo <= hi <= nodes@.len(),
            all == nodes_behind(nodes@),
            rising_dom_ids(all),
            all_numbered(all),
            forall|j: int| 0 <= j < lo ==> dom_key(#[trigger] all[j]) < dom,
            forall|j: int| hi <= j < all.len() ==> dom_key(#[trigger] all[j]) > dom,
        decreases hi - lo,
    {
        let mid: usize = lo + (hi - lo) / 2;
        let node: &Node = nodes[mid];
        assert(all[mid as int] == *node);
        let key = match dom_id(&node.node_type) {
            Some(key) => key,
            None => 0,
        };
        if key == dom {
            proof {
                assert forall|j: int| 0 <= j < all.len() && dom_key(#[trigger] all[j])
                    == dom implies j == mid by {
                    if j < mid {
                        assert(dom_key(all[j]) < dom_key(all[mid as int]));
                    } else if j > mid {
                        assert(dom_key(all[mid as int]) < dom_key(all[j]));
                    }
                }
            }
            return Some(mid);
        } else if key < dom {
            proof {
                assert forall|j: int| 0 <= j < mid + 1 implies dom_key(#[trigger] all[j])
                    < dom by {
                    if j < mid {
                        assert(dom_key(all[j]) < dom_key(all[mid as int]));
                    }
                }
            }
            lo = mid + 1;
        } else {
            proof {
                assert forall|j: int| mid <= j < all.len() implies dom_key(#[trigger] all[j])
                    > dom by {
                    if j > mid {
                        assert(dom_key(all[mid as int]) < dom_key(all[j]));
                    }
                }
            }
            hi = mid;
        }
    }
    None
}

/// The place among `nodes` of the first parent that the insertions name and
/// that is one of them.
pub fn find_known_parent(nodes: &Vec<&Node>, inserts: &Vec<&Edge>) -> (place: Option<usize>)
    requires
        rising_dom_ids(nodes_behind(nodes@)),
        all_numbered(nodes_behind(nodes@)),
    ensures
        match place {
            Some(j) => first_known_parent(nodes_behind(nodes@), edges_behind(inserts@)) == Some(
                j as int,
            ) && j < nodes@.len(),
            None => first_known_parent(nodes_behind(nodes@), edges_behind(inserts@)) is None,
        },
{
    let ghost all = edges_behind(inserts@);
    let mut i: usize = 0;
    while i < inserts.len()
        invariant
            i <= inserts@.len(),
            all == edges_behind(inserts@),
            rising_dom_ids(nodes_behind(nodes@)),
            all_numbered(nodes_behind(nodes@)),
            first_known_parent(nodes_behind(nodes@), all.take(i as int)) is None,
        decreases inserts@.len() - i,
    {
        let edge: &Edge = inserts[i];
        proof {
            assert(all.take(i + 1).drop_last() =~= all.take(i as int));
            assert(all.take(i + 1).last() == *edge);
        }
        let found = match &edge.edge_type {
            EdgeType::InsertNode { parent, .. } => find_dom_id(nodes, *parent),
            _ => None,
        };
        match found {
            Some(j) => {
                proof {
                    lemma_known_parent_stays(nodes_behind(nodes@), all, i + 1);
                }
                return Some(j);
            },
            None => {},
        }
        i = i + 1;
    }
    assert(all.take(i as int) =~= all);
    None
}

/// A parent that is known after some of the insertions is the one known
/// after all of them.
pub proof fn lemma_known_parent_stays(nodes: Seq<Node>, inserts: Seq<Edge>, upto: int)
    requires
        0 <= upto <= inserts.len(),
        first_known_parent(nodes, inserts.take(upto)) is Some,
    ensures
        first_known_parent(nodes, inserts) == first_known_parent(nodes, inserts.take(upto)),
    decreases inserts.len() - upto,
{
    if upto == inserts.len() {
        assert(inserts.take(upto) =~= inserts);
    } else {
        assert(inserts.take(upto + 1).drop_last() =~= inserts.take(upto));
        lemma_known_parent_stays(nodes, inserts, upto + 1);
    }
}

impl PageGraph {
    /// The nodes at which the edges end.
    pub open spec fn targets_of(&self, edges: Seq<Edge>) -> Seq<Node> {
        Seq::new(edges.len(), |i: int| self.node_at(edges[i].target))
    }

    /// Whether a node is a document root of the frame `frame` that no edge
    /// created.
    pub open spec fn is_unmade_root(&self, node: Node, frame: Option<FrameId>) -> bool {
        node.node_type is DomRoot && node.id.0.frame_id == frame && picked(
            self.incoming(node.id),
            EdgeWanted::CreateNode,
        ).len() == 0
    }

    /// The document roots of the frame `frame` that no edge created.
    pub open spec fn unmade_roots(&self, frame: Option<FrameId>) -> Seq<Node> {
        self.nodes@.filter(|node: Node| self.is_unmade_root(node, frame))
    }

    /// The nodes of a frame whose place below a document root is in
    /// question: those that the parser created, and the document roots that
    /// no edge created.
    pub open spec fn parse_candidates(&self, parser: NodeId, frame: Option<FrameId>) -> Seq<Node> {
        self.targets_of(picked(self.outgoing(parser), EdgeWanted::CreateNode)) + self.unmade_roots(
            frame,
        )
    }

    /// Whether the node at the place `i` hangs below the document root
    /// `root`: a document root does if it is that root; another node does if
    /// the first parent that its insertions name among `nodes` does. Nothing
    /// where the way up takes more than `fuel` steps.
    pub open spec fn belongs(&self, nodes: Seq<Node>, i: int, root: NodeId, fuel: nat) -> Option<
        bool,
    >
        decreases fuel,
    {
        if nodes[i].node_type is DomRoot {
            Some(nodes[i].id == root)
        } else {
            match first_known_parent(
                nodes,
                picked(self.incoming(nodes[i].id), EdgeWanted::InsertNode),
            ) {
                Some(j) => if fuel == 0 {
                    None
                } else {
                    self.belongs(nodes, j, root, (fuel - 1) as nat)
                },
                None => Some(false),
            }
        }
    }

    /// Whether each of the nodes has a way up no longer than the number of
    /// nodes: the ways up do not run in circles.
    pub open spec fn all_placed(&self, nodes: Seq<Node>, root: NodeId) -> bool {
        forall|i: int|
            0 <= i < nodes.len() ==> (#[trigger] self.belongs(nodes, i, root, nodes.len())) is Some
    }

    /// The work of the parser `parser` on the first `upto` of the nodes: for
    /// each node below the root `root` that is no document root, the edges
    /// by which the parser created it, set its attributes and inserted it.
    pub open spec fn parse_work(
        &self,
        nodes: Seq<Node>,
        root: NodeId,
        parser: NodeId,
        upto: nat,
    ) -> Seq<Edge>
        decreases upto,
    {
        if upto == 0 {
            Seq::empty()
        } else {
            let rest = self.parse_work(nodes, root, parser, (upto - 1) as nat);
            let node = nodes[upto - 1];
            if self.belongs(nodes, upto - 1, root, nodes.len()) == Some(true) && !(node.node_type is DomRoot) {
                rest + picked(self.incoming(node.id), EdgeWanted::ParserWork { parser })
            } else {
                rest
            }
        }
    }

    /// The work of the parser on the document whose root `edge` ends at. The
    /// frame of that root must have one parser. The nodes in question must
    /// each have a number of the DOM, no two the same, and their ways up must
    /// not run in circles. The work comes in the order of those numbers.
    pub open spec fn parse_effects(&self, edge: Edge) -> Option<Seq<Edge>> {
        let frame = edge.target.0.frame_id;
        let parsers = picked_nodes(self.nodes@, NodeWanted::ParserIn { frame });
        if parsers.len() != 1 {
            None
        } else {
            self.parse_effects_among(
                edge.target,
                parsers[0].id,
                self.parse_candidates(parsers[0].id, frame),
            )
        }
    }

    /// The work of the parser `parser` on those of `candidates` that hang
    /// below the document root `root`.
    pub open spec fn parse_effects_among(
        &self,
        root: NodeId,
        parser: NodeId,
        candidates: Seq<Node>,
    ) -> Option<Seq<Edge>> {
        if !all_numbered(candidates) || has_repeats(dom_keys(candidates)) {
            None
        } else {
            let nodes = by_dom_id(candidates);
            if self.all_placed(nodes, root) {
                Some(self.parse_work(nodes, root, parser, nodes.len()))
            } else {
                None
            }
        }
    }

    /// The document roots of the frame `frame` that no edge created.
    fn pick_unmade_roots(&self, frame: Option<FrameId>) -> (found: Vec<&Node>)
        requires
            self.wf(),
        ensures
            nodes_behind(found@) == self.unmade_roots(frame),
    {
        let ghost all = self.nodes@;
        let ghost pred = |node: Node| self.is_unmade_root(node, frame);
        let mut found: Vec<&Node> = Vec::new();
        let mut i: usize = 0;
        assert(all.take(0).filter(pred) =~= Seq::<Node>::empty()) by {
            reveal(Seq::filter);
        }
        while i < self.nodes.len()
            invariant
                self.wf(),
                i <= self.nodes@.len(),
                all == self.nodes@,
                pred == |node: Node| self.is_unmade_root(node, frame),
                nodes_behind(found@) =~= all.take(i as int).filter(pred),
            decreases self.nodes@.len() - i,
        {
            let node: &Node = &self.nodes[i];
            proof {
                assert(all.take(i + 1) =~= all.take(i as int).push(*node));
                all.take(i as int).lemma_filter_push(*node, pred);
            }
            let is_root = match &node.node_type {
                NodeType::DomRoot { .. } => same_frame(node.id.get_frame_id(), frame),
                _ => false,
            };
            if is_root {
                let made = pick_edges(&self.incoming_edges(node), &EdgeWanted::CreateNode);
                if made.len() == 0 {
                    let ghost before = found@;
                    found.push(node);
                    assert(nodes_behind(found@) =~= nodes_behind(before).push(*node));
                }
            }
            i = i + 1;
        }
        assert(all.take(i as int) =~= all);
        found
    }

    /// The nodes at which the edges end.
    fn target_nodes(&self, edges: &Vec<&Edge>) -> (found: Vec<&Node>)
        requires
            self.wf(),
            forall|i: int| 0 <= i < edges@.len() ==> self.has_node((#[trigger] edges@[i]).target),
        ensures
            nodes_behind(found@) == self.targets_of(edges_behind(edges@)),
    {
        let mut found: Vec<&Node> = Vec::new();
        let mut i: usize = 0;
        while i < edges.len()
            invariant
                self.wf(),
                i <= edges@.len(),
                forall|i: int|
                    0 <= i < edges@.len() ==> self.has_node((#[trigger] edges@[i]).target),
                found@.len() == i,
                forall|x: int| 0 <= x < i ==> *(#[trigger] found@[x]) == self.node_at(edges@[x].target),
            decreases edges@.len() - i,
        {
            assert(self.has_node(edges@[i as int].target));
            found.push(self.target_node(edges[i]));
            i = i + 1;
        }
        assert(nodes_behind(found@) =~= self.targets_of(edges_behind(edges@)));
        found
    }

    /// Whether the node at the place `i` hangs below the document root
    /// `root`, if its way up does not run in circles.
    fn find_belonging(&self, nodes: &Vec<&Node>, i: usize, root: NodeId) -> (below: Option<bool>)
        requires
            self.wf(),
            i < nodes@.len(),
            rising_dom_ids(nodes_behind(nodes@)),
            all_numbered(nodes_behind(nodes@)),
        ensures
            below == self.belongs(nodes_behind(nodes@), i as int, root, nodes@.len() as nat),
    {
        let ghost all = nodes_behind(nodes@);
        let mut at: usize = i;
        let mut fuel: usize = nodes.len();
        loop
            invariant
                self.wf(),
                at < nodes@.len(),
                fuel <= nodes@.len(),
                all == nodes_behind(nodes@),
                rising_dom_ids(all),
                all_numbered(all),
                self.belongs(all, i as int, root, nodes@.len() as nat) == self.belongs(
                    all,
                    at as int,
                    root,
                    fuel as nat,
                ),
            decreases fuel,
        {
            let node: &Node = nodes[at];
            assert(all[at as int] == *node);
            let is_root = match &node.node_type {
                NodeType::DomRoot { .. } => true,
                _ => false,
            };
            if is_root {
                return Some(node.id == root);
            }
            let inserts = pick_edges(&self.incoming_edges(node), &EdgeWanted::InsertNode);
            match find_known_parent(nodes, &inserts) {
                Some(j) => {
                    if fuel == 0 {
                        return None;
                    }
                    at = j;
                    fuel = fuel - 1;
                },
                None => {
                    return Some(false);
                },
            }
        }
    }

    /// The work of the parser on the document whose root `edge` ends at.
    pub(crate) fn effects_of_parse(&self, edge: &Edge) -> (effects: Option<Vec<&Edge>>)
        requires
            self.wf(),
            self.has_node(edge.target),
        ensures
            match effects {
                Some(found) => self.parse_effects(*edge) == Some(edges_behind(found@)),
                None => self.parse_effects(*edge) is None,
            },
    {
        let frame = edge.target.get_frame_id();
        let parsers = self.pick_nodes(&NodeWanted::ParserIn { frame });
        if parsers.len() != 1 {
            return None;
        }
        let parser: &Node = parsers[0];
        assert(nodes_behind(parsers@)[0] == *parser);
        let made_edges = pick_edges(&self.outgoing_edges(parser), &EdgeWanted::CreateNode);
        proof {
            assert forall|i: int| 0 <= i < made_edges@.len() implies self.has_node(
                (#[trigger] made_edges@[i]).target,
            ) by {
                let all = self.outgoing(parser.id);
                assert(edges_behind(made_edges@)[i] == *made_edges@[i]);
                crate::select::lemma_picked(all, EdgeWanted::CreateNode, i);
                let k = choose|k: int| 0 <= k < all.len() && all[k] == *made_edges@[i];
                self.lemma_edges_of(parser.id, true, k);
                self.lemma_edge_ends(made_edges@[i].id);
            }
        }
        let mut candidates = self.target_nodes(&made_edges);
        let mut unmade = self.pick_unmade_roots(frame);
        let ghost made = nodes_behind(candidates@);
        let ghost roots = nodes_behind(unmade@);
        candidates.append(&mut unmade);
        let ghost all = self.parse_candidates(parser.id, frame);
        assert(nodes_behind(candidates@) =~= all) by {
            assert(candidates@.len() == made.len() + roots.len());
            assert forall|x: int| 0 <= x < candidates@.len() implies nodes_behind(candidates@)[x]
                == all[x] by {
                if x < made.len() {
                    assert(made[x] == *candidates@[x]);
                } else {
                    assert(roots[x - made.len()] == *candidates@[x]);
                }
            }
        }
        let ghost answer = self.parse_effects_among(edge.target, parser.id, all);
        assert(self.parse_effects(*edge) == answer);
        let mut keys: Vec<i128> = Vec::new();
        let mut i: usize = 0;
        while i < candidates.len()
            invariant
                i <= candidates@.len(),
                self.parse_effects(*edge) == answer,
                answer == self.parse_effects_among(edge.target, parser.id, all),
                all == nodes_behind(candidates@),
                keys@.len() == i,
                all_numbered(all.take(i as int)),
                forall|x: int| 0 <= x < i ==> (#[trigger] keys@[x]) as int == dom_key(all[x]),
            decreases candidates@.len() - i,
        {
            let node: &Node = candidates[i];
            assert(all[i as int] == *node);
            match dom_id(&node.node_type) {
                Some(key) => {
                    keys.push(key as i128);
                },
                None => {
                    return None;
                },
            }
            proof {
                assert forall|x: int| 0 <= x < i + 1 implies dom_id_of(
                    (#[trigger] all.take(i + 1)[x]).node_type,
                ) is Some by {
                    if x < i {
                        assert(all.take(i as int)[x] == all.take(i + 1)[x]);
                    }
                }
            }
            i = i + 1;
        }
        assert(all.take(i as int) =~= all);
        let ghost int_keys = keys@.map_values(|k: i128| k as int);
        assert(int_keys =~= dom_keys(all));
        let order = sort_order(&keys);
        let ghost int_order = order@.map_values(|x: usize| x as int);
        proof {
            lemma_order_of(int_keys);
            lemma_repeats_are_neighbours(int_keys);
        }
        let mut nodes: Vec<&Node> = Vec::new();
        let mut k: usize = 0;
        let mut repeated = false;
        while k < order.len()
            invariant
                k <= order@.len(),
                order@.len() == candidates@.len(),
                keys@.len() == candidates@.len(),
                all == nodes_behind(candidates@),
                int_keys == dom_keys(all),
                int_order == order@.map_values(|x: usize| x as int),
                int_order == order_of(int_keys),
                forall|i: int| 0 <= i < order@.len() ==> (#[trigger] order@[i]) < keys@.len(),
                forall|x: int| 0 <= x < keys@.len() ==> (#[trigger] keys@[x]) as int == dom_key(all[x]),
                nodes@.len() == k,
                forall|x: int| 0 <= x < k ==> *(#[trigger] nodes@[x]) == all[int_order[x]],
                repeated == exists|x: int|
                    0 <= x < k - 1 && int_keys[#[trigger] int_order[x]] == int_keys[int_order[x
                        + 1]],
            decreases order@.len() - k,
        {
            let place = order[k];
            assert(int_order[k as int] == place);
            if k > 0 {
                let last = order[k - 1];
                assert(int_order[k - 1] == last);
                assert(int_keys[last as int] == keys@[last as int]);
                assert(int_keys[place as int] == keys@[place as int]);
                if keys[last] == keys[place] {
                    repeated = true;
                }
            }
            let node: &Node = candidates[place];
            assert(all[place as int] == *node);
            nodes.push(node);
            k = k + 1;
        }
        if repeated {
            return None;
        }
        assert(!has_repeats(dom_keys(all)));
        let ghost sorted = by_dom_id(all);
        proof {
            assert(nodes_behind(nodes@) =~= sorted);
            lemma_order_rises(int_keys);
            assert forall|i: int, j: int| 0 <= i < j < sorted.len() implies dom_key(
                #[trigger] sorted[i],
            ) < dom_key(#[trigger] sorted[j]) by {
                assert(keys_along(int_order, int_keys)[i] < keys_along(int_order, int_keys)[j]);
            }
            assert forall|i: int| 0 <= i < sorted.len() implies dom_id_of(
                (#[trigger] sorted[i]).node_type,
            ) is Some by {
                assert(sorted[i] == all[int_order[i]]);
            }
        }
        let mut found: Vec<&Edge> = Vec::new();
        let mut n: usize = 0;
        assert(edges_behind(found@) =~= Seq::<Edge>::empty());
        while n < nodes.len()
            invariant
                self.wf(),
                n <= nodes@.len(),
                self.parse_effects(*edge) == answer,
                answer == self.parse_effects_among(edge.target, parser.id, all),
                all_numbered(all),
                !has_repeats(dom_keys(all)),
                sorted == by_dom_id(all),
                sorted == nodes_behind(nodes@),
                rising_dom_ids(sorted),
                all_numbered(sorted),
                forall|x: int|
                    0 <= x < n ==> (#[trigger] self.belongs(sorted, x, edge.target, sorted.len())) is Some,
                edges_behind(found@) == self.parse_work(sorted, edge.target, parser.id, n as nat),
            decreases nodes@.len() - n,
        {
            let node: &Node = nodes[n];
            assert(sorted[n as int] == *node);
            let below = match self.find_belonging(&nodes, n, edge.target) {
                Some(below) => below,
                None => {
                    return None;
                },
            };
            let is_root = match &node.node_type {
                NodeType::DomRoot { .. } => true,
                _ => false,
            };
            if below && !is_root {
                let mut work = pick_edges(
                    &self.incoming_edges(node),
                    &EdgeWanted::ParserWork { parser: parser.id },
                );
                let ghost before = edges_behind(found@);
                let ghost added = edges_behind(work@);
                let ghost old_found = found@;
                let ghost old_work = work@;
                found.append(&mut work);
                assert(edges_behind(found@) =~= before + added) by {
                    assert forall|x: int| 0 <= x < found@.len() implies edges_behind(found@)[x] == (
                    before + added)[x] by {
                        if x < old_found.len() {
                            assert(before[x] == *old_found[x]);
                        } else {
                            assert(added[x - old_found.len()] == *old_work[x - old_found.len()]);
                        }
                    }
                }
            }
            n = n + 1;
        }
        assert(self.all_placed(sorted, edge.target));
        Some(found)
    }
}

} // verus!
