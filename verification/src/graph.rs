//! The page graph: its descriptor, its table of nodes, its table of edges and
//! the adjacency structure that files each edge under its two ends.

use crate::adjacency::{
    graph_contains_node, graph_edge_weight, graph_neighbors, lemma_counted_is_neighbor, links_at,
    links_of, neighbors_among, weights_of, ItemKey, LinkGraph,
};
pub use crate::ids::{
    is_same_frame_context, EdgeId, FrameId, GraphItemId, HasFrameId, NodeId, ParseIdError,
};
use crate::types::{EdgeType, NodeType, RequestType};
use crate::places::{indexed, places_of};
use petgraph::Direction;
use std::collections::HashMap;
use vstd::prelude::*;

verus! {

/// What a recording says of itself.
#[derive(Debug, Clone)]
pub struct PageGraphDescriptor {
    pub version: String,
    pub about: String,
    pub url: String,
    pub is_root: bool,
    pub frame_id: FrameId,
    pub time: PageGraphTime,
}

/// When a recording started and ended.
#[derive(Debug, Clone, Copy)]
pub struct PageGraphTime {
    pub start: u64,
    pub end: u64,
}

/// A node, representing a side effect of a page load.
#[derive(Debug, Clone)]
pub struct Node {
    pub id: NodeId,
    pub node_timestamp: isize,
    pub node_type: NodeType,
}

/// An edge, representing an action taken during page load.
#[derive(Debug, Clone)]
pub struct Edge {
    pub id: EdgeId,
    pub edge_timestamp: Option<isize>,
    pub edge_type: EdgeType,
    pub source: NodeId,
    pub target: NodeId,
}

/// A request and, below it, the requests that it caused.
#[derive(Debug)]
pub struct DownstreamRequests {
    pub request_id: usize,
    pub url: String,
    pub request_type: RequestType,
    pub node_id: NodeId,
    pub children: Vec<DownstreamRequests>,
}

/// Why a set of nodes and edges is no page graph.
#[derive(Debug, PartialEq, Eq, Clone, Copy, Structural)]
pub enum GraphFault {
    /// Two nodes share an identifier.
    RepeatedNode,
    /// Two edges share an identifier.
    RepeatedEdge,
    /// An edge starts or ends at a node that the graph does not have.
    DanglingEdge,
}

/// The main PageGraph data structure.
#[derive(Debug)]
pub struct PageGraph {
    pub desc: PageGraphDescriptor,
    pub edges: Vec<Edge>,
    pub nodes: Vec<Node>,
    pub graph: LinkGraph,
    /// The number of the next edge that the graph makes itself. It counts
    /// down from the largest number, away from the recorded ones.
    pub next_edge_id: usize,
    /// For each number, the places of the nodes with that number.
    pub node_places: HashMap<usize, Vec<usize>>,
    /// For each number, the places of the edges with that number.
    pub edge_places: HashMap<usize, Vec<usize>>,
}

/// The numbers of the nodes, place by place.
pub open spec fn node_numbers(nodes: Seq<Node>) -> Seq<usize> {
    Seq::new(nodes.len(), |i: int| nodes[i].id.0.id)
}

/// The numbers of the edges, place by place.
pub open spec fn edge_numbers(edges: Seq<Edge>) -> Seq<usize> {
    Seq::new(edges.len(), |i: int| edges[i].id.0.id)
}

/// The key of an identifier.
pub open spec fn item_key(item: GraphItemId) -> ItemKey {
    (
        item.id,
        match item.frame_id {
            Some(frame) => Some(frame.0),
            None => None,
        },
    )
}

/// The identifier that has the key `key`.
pub open spec fn key_item(key: ItemKey) -> GraphItemId {
    GraphItemId {
        id: key.0,
        frame_id: match key.1 {
            Some(token) => Some(FrameId(token)),
            None => None,
        },
    }
}

/// The key of a node identifier.
pub open spec fn node_key(id: NodeId) -> ItemKey {
    item_key(id.0)
}

/// The key of an edge identifier.
pub open spec fn edge_key(id: EdgeId) -> ItemKey {
    item_key(id.0)
}

/// The pair under which the edges between `n` and `m` are filed: those that
/// leave `n`, or those that enter it.
pub open spec fn ends_pair(n: ItemKey, m: ItemKey, outgoing: bool) -> (ItemKey, ItemKey) {
    if outgoing {
        (n, m)
    } else {
        (m, n)
    }
}

/// The pair under which an edge is filed: the keys of its two ends.
pub open spec fn edge_pair(edge: Edge) -> (ItemKey, ItemKey) {
    (node_key(edge.source), node_key(edge.target))
}

/// The edges that a sequence of references points at.
pub open spec fn edges_behind(refs: Seq<&Edge>) -> Seq<Edge> {
    refs.map_values(|r: &Edge| *r)
}

/// The nodes that a sequence of references points at.
pub open spec fn nodes_behind(refs: Seq<&Node>) -> Seq<Node> {
    refs.map_values(|r: &Node| *r)
}

/// Whether a node of `nodes` has the identifier `id`.
pub open spec fn holds_node(nodes: Seq<Node>, id: NodeId) -> bool {
    exists|i: int| 0 <= i < nodes.len() && (#[trigger] nodes[i]).id == id
}

/// Whether an edge of `edges` has the identifier `id`.
pub open spec fn holds_edge(edges: Seq<Edge>, id: EdgeId) -> bool {
    exists|i: int| 0 <= i < edges.len() && (#[trigger] edges[i]).id == id
}

/// No two nodes of `nodes` share an identifier.
pub open spec fn distinct_nodes(nodes: Seq<Node>) -> bool {
    forall|i: int, j: int|
        0 <= i < j < nodes.len() ==> (#[trigger] nodes[i]).id != (#[trigger] nodes[j]).id
}

/// No two edges of `edges` share an identifier.
pub open spec fn distinct_edges(edges: Seq<Edge>) -> bool {
    forall|i: int, j: int|
        0 <= i < j < edges.len() ==> (#[trigger] edges[i]).id != (#[trigger] edges[j]).id
}

/// The key of an identifier.
pub fn key_of(item: GraphItemId) -> (key: ItemKey)
    ensures
        key == item_key(item),
{
    (
        item.id,
        match item.frame_id {
            Some(frame) => Some(frame.0),
            None => None,
        },
    )
}

/// The identifier that has the key `key`.
pub fn item_of(key: ItemKey) -> (item: GraphItemId)
    ensures
        item == key_item(key),
        item_key(item) == key,
{
    GraphItemId {
        id: key.0,
        frame_id: match key.1 {
            Some(token) => Some(FrameId(token)),
            None => None,
        },
    }
}

impl PageGraph {
    /// Whether the graph has a node with the identifier `id`.
    pub open spec fn has_node(&self, id: NodeId) -> bool {
        holds_node(self.nodes@, id)
    }

    /// Whether the graph has an edge with the identifier `id`.
    pub open spec fn has_edge(&self, id: EdgeId) -> bool {
        holds_edge(self.edges@, id)
    }

    /// The place in the table of a node that has the identifier `id`.
    pub open spec fn node_index(&self, id: NodeId) -> int {
        choose|i: int| 0 <= i < self.nodes@.len() && (#[trigger] self.nodes@[i]).id == id
    }

    /// The place in the table of an edge that has the identifier `id`.
    pub open spec fn edge_index(&self, id: EdgeId) -> int {
        choose|i: int| 0 <= i < self.edges@.len() && (#[trigger] self.edges@[i]).id == id
    }

    /// The node with the identifier `id`.
    pub open spec fn node_at(&self, id: NodeId) -> Node
        recommends
            self.has_node(id),
    {
        self.nodes@[self.node_index(id)]
    }

    /// The edge with the identifier `id`.
    pub open spec fn edge_at(&self, id: EdgeId) -> Edge
        recommends
            self.has_edge(id),
    {
        self.edges@[self.edge_index(id)]
    }

    /// The edge that the key `key` stands for.
    pub open spec fn edge_for(&self, key: ItemKey) -> Edge {
        self.edge_at(EdgeId(key_item(key)))
    }

    /// The node that the key `key` stands for.
    pub open spec fn node_for(&self, key: ItemKey) -> Node {
        self.node_at(NodeId(key_item(key)))
    }

    /// Every edge starts and ends at a node of the graph.
    pub open spec fn ends_resolve(&self) -> bool {
        forall|i: int|
            0 <= i < self.edges@.len() ==> self.has_node((#[trigger] self.edges@[i]).source)
                && self.has_node(self.edges@[i].target)
    }

    /// The adjacency structure files only edges of the table, each under the
    /// pair of its own ends.
    pub open spec fn weights_resolve(&self) -> bool {
        forall|pair: (ItemKey, ItemKey), k: int|
            #![trigger weights_of(self.graph)[pair][k]]
            weights_of(self.graph).contains_key(pair) && 0 <= k < weights_of(self.graph)[pair].len()
                ==> {
                let key = weights_of(self.graph)[pair][k];
                &&& self.has_edge(EdgeId(key_item(key)))
                &&& node_key(self.edge_for(key).source) == pair.0
                &&& node_key(self.edge_for(key).target) == pair.1
            }
    }

    /// The adjacency structure links only nodes of the table.
    pub open spec fn links_resolve(&self) -> bool {
        forall|a: ItemKey, k: int|
            #![trigger links_of(self.graph)[a][k]]
            links_of(self.graph).contains_key(a) && 0 <= k < links_of(self.graph)[a].len()
                ==> self.has_node(NodeId(key_item(links_of(self.graph)[a][k].0)))
    }

    /// The adjacency structure knows exactly the nodes of the table.
    pub open spec fn nodes_known(&self) -> bool {
        forall|a: ItemKey| #[trigger]
            links_of(self.graph).contains_key(a) <==> self.has_node(NodeId(key_item(a)))
    }

    /// Every edge of the table is filed under the pair of its ends.
    pub open spec fn edges_filed(&self) -> bool {
        forall|i: int|
            0 <= i < self.edges@.len() ==> weights_of(self.graph).contains_key(
                edge_pair(#[trigger] self.edges@[i]),
            ) && weights_of(self.graph)[edge_pair(self.edges@[i])].contains(
                edge_key(self.edges@[i].id),
            )
    }

    /// Where edges are filed under a pair, the two nodes are linked: the
    /// first has a link that leaves it for the second and, unless the two are
    /// one, the second has a link that enters it from the first.
    pub open spec fn pairs_linked(&self) -> bool {
        forall|a: ItemKey, b: ItemKey| #[trigger]
            weights_of(self.graph).contains_key((a, b)) ==> {
                &&& links_of(self.graph).contains_key(a)
                &&& links_of(self.graph)[a].contains((b, true))
                &&& a != b ==> links_of(self.graph).contains_key(b) && links_of(
                    self.graph,
                )[b].contains((a, false))
            }
    }

    /// What holds of every page graph: identifiers are not shared, every edge
    /// starts and ends at a node of the graph, and the adjacency structure
    /// speaks of the nodes and edges of the tables, of all of them and of no
    /// others.
    pub open spec fn wf(&self) -> bool {
        &&& distinct_nodes(self.nodes@)
        &&& distinct_edges(self.edges@)
        &&& self.ends_resolve()
        &&& self.weights_resolve()
        &&& self.links_resolve()
        &&& self.nodes_known()
        &&& self.edges_filed()
        &&& self.pairs_linked()
        &&& indexed(self.node_places@, node_numbers(self.nodes@))
        &&& indexed(self.edge_places@, edge_numbers(self.edges@))
    }

    /// In a table without shared identifiers, the node at a place is the node
    /// with its identifier.
    pub proof fn lemma_node_at(&self, i: int)
        requires
            distinct_nodes(self.nodes@),
            0 <= i < self.nodes@.len(),
        ensures
            self.has_node(self.nodes@[i].id),
            self.node_index(self.nodes@[i].id) == i,
            self.node_at(self.nodes@[i].id) == self.nodes@[i],
    {
        let id = self.nodes@[i].id;
        let j = self.node_index(id);
        assert(0 <= j < self.nodes@.len() && self.nodes@[j].id == id);
        if i < j {
            assert(self.nodes@[i].id != self.nodes@[j].id);
        } else if j < i {
            assert(self.nodes@[j].id != self.nodes@[i].id);
        }
    }

    /// In a table without shared identifiers, the edge at a place is the edge
    /// with its identifier.
    pub proof fn lemma_edge_at(&self, i: int)
        requires
            distinct_edges(self.edges@),
            0 <= i < self.edges@.len(),
        ensures
            self.has_edge(self.edges@[i].id),
            self.edge_index(self.edges@[i].id) == i,
            self.edge_at(self.edges@[i].id) == self.edges@[i],
    {
        let id = self.edges@[i].id;
        let j = self.edge_index(id);
        assert(0 <= j < self.edges@.len() && self.edges@[j].id == id);
        if i < j {
            assert(self.edges@[i].id != self.edges@[j].id);
        } else if j < i {
            assert(self.edges@[j].id != self.edges@[i].id);
        }
    }

    /// A node with an identifier of the table is at some place of it.
    pub proof fn lemma_node_found(&self, id: NodeId)
        requires
            self.has_node(id),
        ensures
            0 <= self.node_index(id) < self.nodes@.len(),
            self.node_at(id).id == id,
    {
    }

    /// An edge with an identifier of the table is at some place of it.
    pub proof fn lemma_edge_found(&self, id: EdgeId)
        requires
            self.has_edge(id),
        ensures
            0 <= self.edge_index(id) < self.edges@.len(),
            self.edge_at(id).id == id,
    {
    }

    /// The place of the node with the identifier `id`, if the graph has it.
    pub fn find_node(&self, id: NodeId) -> (place: Option<usize>)
        requires
            self.wf(),
        ensures
            place is Some == self.has_node(id),
            place is Some ==> place.unwrap() < self.nodes@.len() && self.nodes@[place.unwrap() as int].id
                == id && place.unwrap() == self.node_index(id),
    {
        let ghost numbers = node_numbers(self.nodes@);
        let total: usize = self.nodes.len();
        match places_of(&self.node_places, id.0.id) {
            Some(list) => {
                let mut j: usize = 0;
                while j < list.len()
                    invariant
                        self.wf(),
                        j <= list@.len(),
                        numbers == node_numbers(self.nodes@),
                        self.node_places@.contains_key(id.0.id),
                        *list == self.node_places@[id.0.id],
                        forall|x: int|
                            0 <= x < j ==> self.nodes@[(#[trigger] list@[x]) as int].id != id,
                    decreases list@.len() - j,
                {
                    let place = list[j];
                    assert(self.node_places@[id.0.id]@[j as int] < numbers.len());
                    if self.nodes[place].id == id {
                        proof {
                            self.lemma_node_at(place as int);
                        }
                        return Some(place);
                    }
                    j = j + 1;
                }
                proof {
                    if self.has_node(id) {
                        self.lemma_node_found(id);
                        let i = self.node_index(id);
                        assert(numbers[i] == id.0.id);
                        assert(self.node_places@[numbers[i]]@.contains(i as usize));
                        let x = choose|x: int| 0 <= x < list@.len() && list@[x] == i as usize;
                        assert(self.nodes@[list@[x] as int].id != id);
                    }
                }
                None
            },
            None => {
                proof {
                    if self.has_node(id) {
                        self.lemma_node_found(id);
                        let i = self.node_index(id);
                        assert(numbers[i] == id.0.id);
                        assert(self.node_places@.contains_key(numbers[i]));
                    }
                }
                None
            },
        }
    }

    /// The place of the edge with the identifier `id`, if the graph has it.
    pub fn find_edge(&self, id: EdgeId) -> (place: Option<usize>)
        requires
            self.wf(),
        ensures
            place is Some == self.has_edge(id),
            place is Some ==> place.unwrap() < self.edges@.len() && self.edges@[place.unwrap() as int].id
                == id && place.unwrap() == self.edge_index(id),
    {
        let ghost numbers = edge_numbers(self.edges@);
        let total: usize = self.edges.len();
        match places_of(&self.edge_places, id.0.id) {
            Some(list) => {
                let mut j: usize = 0;
                while j < list.len()
                    invariant
                        self.wf(),
                        j <= list@.len(),
                        numbers == edge_numbers(self.edges@),
                        self.edge_places@.contains_key(id.0.id),
                        *list == self.edge_places@[id.0.id],
                        forall|x: int|
                            0 <= x < j ==> self.edges@[(#[trigger] list@[x]) as int].id != id,
                    decreases list@.len() - j,
                {
                    let place = list[j];
                    assert(self.edge_places@[id.0.id]@[j as int] < numbers.len());
                    if self.edges[place].id == id {
                        proof {
                            self.lemma_edge_at(place as int);
                        }
                        return Some(place);
                    }
                    j = j + 1;
                }
                proof {
                    if self.has_edge(id) {
                        self.lemma_edge_found(id);
                        let i = self.edge_index(id);
                        assert(numbers[i] == id.0.id);
                        assert(self.edge_places@[numbers[i]]@.contains(i as usize));
                        let x = choose|x: int| 0 <= x < list@.len() && list@[x] == i as usize;
                        assert(self.edges@[list@[x] as int].id != id);
                    }
                }
                None
            },
            None => {
                proof {
                    if self.has_edge(id) {
                        self.lemma_edge_found(id);
                        let i = self.edge_index(id);
                        assert(numbers[i] == id.0.id);
                        assert(self.edge_places@.contains_key(numbers[i]));
                    }
                }
                None
            },
        }
    }

    /// The edges that the keys `keys` stand for.
    pub open spec fn edges_for(&self, keys: Seq<ItemKey>) -> Seq<Edge> {
        Seq::new(keys.len(), |i: int| self.edge_for(keys[i]))
    }

    /// The nodes that the keys `keys` stand for.
    pub open spec fn nodes_for(&self, keys: Seq<ItemKey>) -> Seq<Node> {
        Seq::new(keys.len(), |i: int| self.node_for(keys[i]))
    }

    /// The keys of the edges filed under the pair that leads from `a` to `b`.
    pub open spec fn edge_keys_between(&self, a: ItemKey, b: ItemKey) -> Seq<ItemKey> {
        if weights_of(self.graph).contains_key((a, b)) {
            weights_of(self.graph)[(a, b)]
        } else {
            Seq::empty()
        }
    }

    /// The keys of the edges between `n` and each of `neighbors` in turn:
    /// those that leave `n`, or those that enter it.
    pub open spec fn edge_keys_along(
        &self,
        n: ItemKey,
        neighbors: Seq<ItemKey>,
        outgoing: bool,
    ) -> Seq<ItemKey>
        decreases neighbors.len(),
    {
        if neighbors.len() == 0 {
            Seq::empty()
        } else {
            self.edge_keys_along(n, neighbors.drop_last(), outgoing) + if outgoing {
                self.edge_keys_between(n, neighbors.last())
            } else {
                self.edge_keys_between(neighbors.last(), n)
            }
        }
    }

    /// The keys of the nodes next to `n` in a direction, in the order of the
    /// adjacency structure.
    pub open spec fn neighbor_keys(&self, n: NodeId, outgoing: bool) -> Seq<ItemKey> {
        neighbors_among(links_at(links_of(self.graph), node_key(n)), node_key(n), outgoing)
    }

    /// The keys of the edges that leave `n`, or of those that enter it, in the
    /// order of the adjacency structure.
    pub open spec fn edge_keys_of(&self, n: NodeId, outgoing: bool) -> Seq<ItemKey> {
        self.edge_keys_along(node_key(n), self.neighbor_keys(n, outgoing), outgoing)
    }

    /// The edges that leave `n`, or those that enter it, in the order of the
    /// adjacency structure.
    pub open spec fn edges_of(&self, n: NodeId, outgoing: bool) -> Seq<Edge> {
        self.edges_for(self.edge_keys_of(n, outgoing))
    }

    /// The edges that leave the node `n`.
    pub open spec fn outgoing(&self, n: NodeId) -> Seq<Edge> {
        self.edges_of(n, true)
    }

    /// The edges that enter the node `n`.
    pub open spec fn incoming(&self, n: NodeId) -> Seq<Edge> {
        self.edges_of(n, false)
    }

    /// The nodes next to `n` in a direction.
    pub open spec fn neighbors_of(&self, n: NodeId, outgoing: bool) -> Seq<Node> {
        self.nodes_for(self.neighbor_keys(n, outgoing))
    }

    /// Each key among the edges between a node and its neighbours is filed
    /// under one of those pairs.
    pub proof fn lemma_keys_along(&self, n: ItemKey, neighbors: Seq<ItemKey>, outgoing: bool, i: int)
        requires
            0 <= i < self.edge_keys_along(n, neighbors, outgoing).len(),
        ensures
            exists|m: ItemKey, k: int|
                {
                    &&& weights_of(self.graph).contains_key(ends_pair(n, m, outgoing))
                    &&& 0 <= k < weights_of(self.graph)[ends_pair(n, m, outgoing)].len()
                    &&& (#[trigger] weights_of(self.graph)[ends_pair(n, m, outgoing)][k])
                        == self.edge_keys_along(n, neighbors, outgoing)[i]
                },
        decreases neighbors.len(),
    {
        let before = self.edge_keys_along(n, neighbors.drop_last(), outgoing);
        if i < before.len() {
            self.lemma_keys_along(n, neighbors.drop_last(), outgoing, i);
        } else {
            let m = neighbors.last();
            let k = i - before.len();
            assert(weights_of(self.graph)[ends_pair(n, m, outgoing)][k] == self.edge_keys_along(
                n,
                neighbors,
                outgoing,
            )[i]);
        }
    }

    /// The keys filed between a node and one of its neighbours are among the
    /// keys of the edges between the node and all its neighbours.
    pub proof fn lemma_keys_along_hold(
        &self,
        n: ItemKey,
        neighbors: Seq<ItemKey>,
        outgoing: bool,
        x: int,
        key: ItemKey,
    )
        requires
            0 <= x < neighbors.len(),
            weights_of(self.graph).contains_key(ends_pair(n, neighbors[x], outgoing)),
            weights_of(self.graph)[ends_pair(n, neighbors[x], outgoing)].contains(key),
        ensures
            self.edge_keys_along(n, neighbors, outgoing).contains(key),
        decreases neighbors.len(),
    {
        let before = self.edge_keys_along(n, neighbors.drop_last(), outgoing);
        let all = self.edge_keys_along(n, neighbors, outgoing);
        if x == neighbors.len() - 1 {
            let list = weights_of(self.graph)[ends_pair(n, neighbors[x], outgoing)];
            let j = choose|j: int| 0 <= j < list.len() && list[j] == key;
            assert(all[before.len() + j] == key);
        } else {
            assert(neighbors.drop_last()[x] == neighbors[x]);
            self.lemma_keys_along_hold(n, neighbors.drop_last(), outgoing, x, key);
            let j = choose|j: int| 0 <= j < before.len() && before[j] == key;
            assert(all[j] == key);
        }
    }

    /// Every edge of the graph is among the edges that leave its source and
    /// among the edges that enter its target.
    pub proof fn lemma_edge_is_listed(&self, i: int)
        requires
            self.wf(),
            0 <= i < self.edges@.len(),
        ensures
            self.outgoing(self.edges@[i].source).contains(self.edges@[i]),
            self.incoming(self.edges@[i].target).contains(self.edges@[i]),
    {
        let edge = self.edges@[i];
        let a = node_key(edge.source);
        let b = node_key(edge.target);
        let key = edge_key(edge.id);
        assert(edge_pair(self.edges@[i]) == (a, b));
        assert(weights_of(self.graph).contains_key((a, b)));
        self.lemma_edge_at(i);
        assert(key_item(key) == edge.id.0);
        {
            let links = links_at(links_of(self.graph), a);
            let k = choose|k: int| 0 <= k < links.len() && links[k] == (b, true);
            lemma_counted_is_neighbor(links, a, true, k);
            let near = self.neighbor_keys(edge.source, true);
            let x = choose|x: int| 0 <= x < near.len() && near[x] == b;
            self.lemma_keys_along_hold(a, near, true, x, key);
            let keys = self.edge_keys_of(edge.source, true);
            let j = choose|j: int| 0 <= j < keys.len() && keys[j] == key;
            assert(self.outgoing(edge.source)[j] == edge);
        }
        {
            let links = links_at(links_of(self.graph), b);
            let k = if a == b {
                choose|k: int| 0 <= k < links.len() && links[k] == (b, true)
            } else {
                choose|k: int| 0 <= k < links.len() && links[k] == (a, false)
            };
            lemma_counted_is_neighbor(links, b, false, k);
            let near = self.neighbor_keys(edge.target, false);
            let x = choose|x: int| 0 <= x < near.len() && near[x] == a;
            self.lemma_keys_along_hold(b, near, false, x, key);
            let keys = self.edge_keys_of(edge.target, false);
            let j = choose|j: int| 0 <= j < keys.len() && keys[j] == key;
            assert(self.incoming(edge.target)[j] == edge);
        }
    }

    /// An edge that leaves a node is an edge of the table that starts there;
    /// one that enters a node is an edge of the table that ends there.
    pub proof fn lemma_edges_of(&self, n: NodeId, outgoing: bool, i: int)
        requires
            self.wf(),
            0 <= i < self.edges_of(n, outgoing).len(),
        ensures
            self.has_edge(self.edges_of(n, outgoing)[i].id),
            self.edge_at(self.edges_of(n, outgoing)[i].id) == self.edges_of(n, outgoing)[i],
            self.edges_of(n, outgoing)[i].id == EdgeId(key_item(self.edge_keys_of(n, outgoing)[i])),
            outgoing ==> self.edges_of(n, outgoing)[i].source == n,
            !outgoing ==> self.edges_of(n, outgoing)[i].target == n,
    {
        let key = self.edge_keys_of(n, outgoing)[i];
        self.lemma_keys_along(node_key(n), self.neighbor_keys(n, outgoing), outgoing, i);
        let (m, k) = choose|m: ItemKey, k: int|
            {
                &&& weights_of(self.graph).contains_key(ends_pair(node_key(n), m, outgoing))
                &&& 0 <= k < weights_of(self.graph)[ends_pair(node_key(n), m, outgoing)].len()
                &&& (#[trigger] weights_of(self.graph)[ends_pair(node_key(n), m, outgoing)][k])
                    == key
            };
        let id = EdgeId(key_item(key));
        self.lemma_edge_found(id);
        let e = self.edge_for(key);
        if outgoing {
            assert(node_key(e.source) == node_key(n));
            assert(key_item(node_key(e.source)) == e.source.0);
            assert(key_item(node_key(n)) == n.0);
        } else {
            assert(node_key(e.target) == node_key(n));
            assert(key_item(node_key(e.target)) == e.target.0);
            assert(key_item(node_key(n)) == n.0);
        }
    }

    /// The node that an edge starts at.
    pub fn source_node(&self, edge: &Edge) -> (node: &Node)
        requires
            self.wf(),
            self.has_node(edge.source),
        ensures
            *node == self.node_at(edge.source),
            node.id == edge.source,
    {
        let place = self.find_node(edge.source);
        &self.nodes[place.unwrap()]
    }

    /// The node that an edge ends at.
    pub fn target_node(&self, edge: &Edge) -> (node: &Node)
        requires
            self.wf(),
            self.has_node(edge.target),
        ensures
            *node == self.node_at(edge.target),
            node.id == edge.target,
    {
        let place = self.find_node(edge.target);
        &self.nodes[place.unwrap()]
    }

    /// The edges between `node` and its neighbours in a direction.
    fn edges_directed(&self, node: &Node, direction: Direction) -> (found: Vec<&Edge>)
        requires
            self.wf(),
        ensures
            edges_behind(found@) == self.edges_of(node.id, direction == Direction::Outgoing),
    {
        let outgoing = match direction {
            Direction::Outgoing => true,
            Direction::Incoming => false,
        };
        let n = key_of(node.id.0);
        let neighbors = graph_neighbors(&self.graph, n, direction);
        let mut found: Vec<&Edge> = Vec::new();
        let mut i: usize = 0;
        while i < neighbors.len()
            invariant
                self.wf(),
                i <= neighbors@.len(),
                n == node_key(node.id),
                neighbors@ == self.neighbor_keys(node.id, outgoing),
                edges_behind(found@) == self.edges_for(
                    self.edge_keys_along(n, neighbors@.take(i as int), outgoing),
                ),
            decreases neighbors@.len() - i,
        {
            let m = neighbors[i];
            let weight = if outgoing {
                graph_edge_weight(&self.graph, n, m)
            } else {
                graph_edge_weight(&self.graph, m, n)
            };
            let ghost before = self.edge_keys_along(n, neighbors@.take(i as int), outgoing);
            let ghost pair = if outgoing {
                (n, m)
            } else {
                (m, n)
            };
            proof {
                assert(neighbors@.take(i + 1).drop_last() =~= neighbors@.take(i as int));
                assert(neighbors@.take(i + 1).last() == m);
            }
            match weight {
                Some(keys) => {
                    let mut j: usize = 0;
                    while j < keys.len()
                        invariant
                            self.wf(),
                            j <= keys@.len(),
                            weights_of(self.graph).contains_key(pair),
                            keys@ == weights_of(self.graph)[pair],
                            edges_behind(found@) == self.edges_for(before + keys@.take(j as int)),
                        decreases keys@.len() - j,
                    {
                        let id = EdgeId(item_of(keys[j]));
                        assert(weights_of(self.graph)[pair][j as int] == keys@[j as int]);
                        let place = self.find_edge(id);
                        let ghost old_found = found@;
                        found.push(&self.edges[place.unwrap()]);
                        proof {
                            let grown = before + keys@.take(j + 1);
                            assert(grown =~= (before + keys@.take(j as int)).push(keys@[j as int]));
                            let shorter = before + keys@.take(j as int);
                            assert(edges_behind(old_found).len() == old_found.len());
                            assert(self.edges_for(shorter).len() == shorter.len());
                            assert(self.edges_for(grown).len() == grown.len());
                            assert forall|x: int| 0 <= x < found@.len() implies edges_behind(
                                found@,
                            )[x] == self.edges_for(grown)[x] by {
                                if x < old_found.len() {
                                    assert(edges_behind(old_found)[x] == *old_found[x]);
                                    assert(self.edges_for(shorter)[x] == self.edge_for(shorter[x]));
                                    assert(grown[x] == shorter[x]);
                                } else {
                                    assert(grown[x] == keys@[j as int]);
                                }
                            }
                            assert(edges_behind(found@) =~= self.edges_for(grown));
                        }
                        j = j + 1;
                    }
                    assert(keys@.take(j as int) =~= keys@);
                },
                None => {
                    assert(before + Seq::<ItemKey>::empty() =~= before);
                },
            }
            i = i + 1;
        }
        assert(neighbors@.take(i as int) =~= neighbors@);
        found
    }

    /// The edges that leave `node`, in the order of the adjacency structure.
    pub fn outgoing_edges(&self, node: &Node) -> (found: Vec<&Edge>)
        requires
            self.wf(),
        ensures
            edges_behind(found@) == self.outgoing(node.id),
    {
        self.edges_directed(node, Direction::Outgoing)
    }

    /// The edges that enter `node`, in the order of the adjacency structure.
    pub fn incoming_edges(&self, node: &Node) -> (found: Vec<&Edge>)
        requires
            self.wf(),
        ensures
            edges_behind(found@) == self.incoming(node.id),
    {
        self.edges_directed(node, Direction::Incoming)
    }

    /// The nodes next to `node` in a direction.
    fn nodes_directed(&self, node: &Node, direction: Direction) -> (found: Vec<&Node>)
        requires
            self.wf(),
        ensures
            nodes_behind(found@) == self.neighbors_of(node.id, direction == Direction::Outgoing),
    {
        let ghost outgoing = direction == Direction::Outgoing;
        let n = key_of(node.id.0);
        let neighbors = graph_neighbors(&self.graph, n, direction);
        let mut found: Vec<&Node> = Vec::new();
        let mut i: usize = 0;
        while i < neighbors.len()
            invariant
                self.wf(),
                i <= neighbors@.len(),
                neighbors@ == self.neighbor_keys(node.id, outgoing),
                nodes_behind(found@) == self.nodes_for(neighbors@.take(i as int)),
            decreases neighbors@.len() - i,
        {
            let id = NodeId(item_of(neighbors[i]));
            proof {
                self.lemma_neighbor_keys(node.id, outgoing, i as int);
            }
            let place = self.find_node(id);
            let ghost old_found = found@;
            found.push(&self.nodes[place.unwrap()]);
            proof {
                let grown = neighbors@.take(i + 1);
                let shorter = neighbors@.take(i as int);
                assert(nodes_behind(old_found).len() == old_found.len());
                assert(self.nodes_for(shorter).len() == shorter.len());
                assert(self.nodes_for(grown).len() == grown.len());
                assert forall|x: int| 0 <= x < found@.len() implies nodes_behind(found@)[x]
                    == self.nodes_for(grown)[x] by {
                    if x < old_found.len() {
                        assert(nodes_behind(old_found)[x] == *old_found[x]);
                        assert(self.nodes_for(shorter)[x] == self.node_for(shorter[x]));
                        assert(grown[x] == shorter[x]);
                    } else {
                        assert(grown[x] == neighbors@[i as int]);
                    }
                }
                assert(nodes_behind(found@) =~= self.nodes_for(grown));
            }
            i = i + 1;
        }
        assert(neighbors@.take(i as int) =~= neighbors@);
        found
    }

    /// Each neighbour among the links of a node is the far end of one of them.
    pub proof fn lemma_neighbors_among(
        links: Seq<(ItemKey, bool)>,
        a: ItemKey,
        outgoing: bool,
        i: int,
    )
        requires
            0 <= i < neighbors_among(links, a, outgoing).len(),
        ensures
            exists|k: int|
                0 <= k < links.len() && (#[trigger] links[k]).0 == neighbors_among(
                    links,
                    a,
                    outgoing,
                )[i],
        decreases links.len(),
    {
        let before = neighbors_among(links.drop_last(), a, outgoing);
        if i < before.len() {
            Self::lemma_neighbors_among(links.drop_last(), a, outgoing, i);
            let k = choose|k: int|
                0 <= k < links.drop_last().len() && (#[trigger] links.drop_last()[k]).0
                    == before[i];
            assert(links[k].0 == before[i]);
        } else {
            assert(links[links.len() - 1].0 == neighbors_among(links, a, outgoing)[i]);
        }
    }

    /// A neighbour of a node is a node of the table.
    pub proof fn lemma_neighbor_keys(&self, n: NodeId, outgoing: bool, i: int)
        requires
            self.wf(),
            0 <= i < self.neighbor_keys(n, outgoing).len(),
        ensures
            self.has_node(NodeId(key_item(self.neighbor_keys(n, outgoing)[i]))),
    {
        let links = links_at(links_of(self.graph), node_key(n));
        Self::lemma_neighbors_among(links, node_key(n), outgoing, i);
        let k = choose|k: int|
            0 <= k < links.len() && (#[trigger] links[k]).0 == self.neighbor_keys(n, outgoing)[i];
        assert(links_of(self.graph)[node_key(n)][k].0 == self.neighbor_keys(n, outgoing)[i]);
    }

    /// The nodes at the far end of the edges that leave `node`.
    pub fn outgoing_neighbors(&self, node: &Node) -> (found: Vec<&Node>)
        requires
            self.wf(),
        ensures
            nodes_behind(found@) == self.neighbors_of(node.id, true),
    {
        self.nodes_directed(node, Direction::Outgoing)
    }

    /// The nodes at the near end of the edges that enter `node`.
    pub fn incoming_neighbors(&self, node: &Node) -> (found: Vec<&Node>)
        requires
            self.wf(),
        ensures
            nodes_behind(found@) == self.neighbors_of(node.id, false),
    {
        self.nodes_directed(node, Direction::Incoming)
    }

    /// Whether the graph has a node with the identifier `id`.
    pub fn contains_node(&self, id: NodeId) -> (known: bool)
        requires
            self.wf(),
        ensures
            known == self.has_node(id),
    {
        let key = key_of(id.0);
        assert(key_item(key) == id.0);
        graph_contains_node(&self.graph, key)
    }

    /// The node with the identifier `id`, if the graph has it.
    pub fn node(&self, id: NodeId) -> (found: Option<&Node>)
        requires
            self.wf(),
        ensures
            found is Some == self.has_node(id),
            found is Some ==> *found.unwrap() == self.node_at(id),
    {
        match self.find_node(id) {
            Some(i) => Some(&self.nodes[i]),
            None => None,
        }
    }

    /// The edge with the identifier `id`, if the graph has it.
    pub fn edge(&self, id: EdgeId) -> (found: Option<&Edge>)
        requires
            self.wf(),
        ensures
            found is Some == self.has_edge(id),
            found is Some ==> *found.unwrap() == self.edge_at(id),
    {
        match self.find_edge(id) {
            Some(i) => Some(&self.edges[i]),
            None => None,
        }
    }
}

} // verus!
