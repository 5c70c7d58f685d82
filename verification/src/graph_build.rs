//! How a page graph is put together: from nothing, node by node and edge by
//! edge, or at once from its tables.

use crate::adjacency::{
    graph_add_node, graph_file, graph_new, lemma_push_has, lemma_push_keeps, links_at,
    links_joined, links_of, no_links, no_weights, weight_at, weights_of, ItemKey,
};
use crate::graph::{
    distinct_edges, distinct_nodes, edge_key, edge_numbers, edge_pair, holds_edge, holds_node,
    key_item,
    key_of, node_key, node_numbers, Edge, GraphFault, Node, PageGraph, PageGraphDescriptor,
};
use crate::places::{indexed, no_places, note_place, places_of};
use crate::ids::{EdgeId, NodeId};
use vstd::prelude::*;

verus! {

/// The weights after `edge` is filed: its key comes last under its pair.
pub open spec fn weights_with(weights: Map<(ItemKey, ItemKey), Seq<ItemKey>>, edge: Edge) -> Map<
    (ItemKey, ItemKey),
    Seq<ItemKey>,
> {
    weights.insert(
        edge_pair(edge),
        weight_at(weights, edge_pair(edge).0, edge_pair(edge).1).push(edge_key(edge.id)),
    )
}

/// The links after `edge` is filed: its ends are joined, unless they were.
pub open spec fn links_with(
    links: Map<ItemKey, Seq<(ItemKey, bool)>>,
    weights: Map<(ItemKey, ItemKey), Seq<ItemKey>>,
    edge: Edge,
) -> Map<ItemKey, Seq<(ItemKey, bool)>> {
    if weights.contains_key(edge_pair(edge)) {
        links
    } else {
        links_joined(links, edge_pair(edge).0, edge_pair(edge).1)
    }
}

/// The links after the node `n` is noted: it has none yet.
pub open spec fn links_noting(links: Map<ItemKey, Seq<(ItemKey, bool)>>, n: ItemKey) -> Map<
    ItemKey,
    Seq<(ItemKey, bool)>,
> {
    if links.contains_key(n) {
        links
    } else {
        links.insert(n, Seq::empty())
    }
}

/// The links of a graph of the nodes `nodes` without edges.
pub open spec fn node_links(nodes: Seq<Node>) -> Map<ItemKey, Seq<(ItemKey, bool)>>
    decreases nodes.len(),
{
    if nodes.len() == 0 {
        no_links()
    } else {
        links_noting(node_links(nodes.drop_last()), node_key(nodes.last().id))
    }
}

/// The weights of a graph in which the edges `edges` were filed in turn.
pub open spec fn built_weights(edges: Seq<Edge>) -> Map<(ItemKey, ItemKey), Seq<ItemKey>>
    decreases edges.len(),
{
    if edges.len() == 0 {
        no_weights()
    } else {
        weights_with(built_weights(edges.drop_last()), edges.last())
    }
}

/// The links of a graph of the nodes `nodes` in which the edges `edges` were
/// filed in turn.
pub open spec fn built_links(nodes: Seq<Node>, edges: Seq<Edge>) -> Map<
    ItemKey,
    Seq<(ItemKey, bool)>,
>
    decreases edges.len(),
{
    if edges.len() == 0 {
        node_links(nodes)
    } else {
        links_with(
            built_links(nodes, edges.drop_last()),
            built_weights(edges.drop_last()),
            edges.last(),
        )
    }
}

/// Every edge of `edges` starts and ends at a node of `nodes`.
pub open spec fn ends_within(nodes: Seq<Node>, edges: Seq<Edge>) -> bool {
    forall|i: int|
        0 <= i < edges.len() ==> holds_node(nodes, (#[trigger] edges[i]).source) && holds_node(
            nodes,
            edges[i].target,
        )
}

/// What is wrong with the tables, if anything: the first of a repeated node,
/// a repeated edge and a dangling edge.
pub open spec fn tables_fault(nodes: Seq<Node>, edges: Seq<Edge>) -> Option<GraphFault> {
    if !distinct_nodes(nodes) {
        Some(GraphFault::RepeatedNode)
    } else if !distinct_edges(edges) {
        Some(GraphFault::RepeatedEdge)
    } else if !ends_within(nodes, edges) {
        Some(GraphFault::DanglingEdge)
    } else {
        None
    }
}

/// A table with one more node holds the nodes it held, and that one.
pub proof fn lemma_holds_node_push(nodes: Seq<Node>, node: Node, id: NodeId)
    ensures
        holds_node(nodes.push(node), id) <==> holds_node(nodes, id) || node.id == id,
{
    let grown = nodes.push(node);
    if holds_node(nodes, id) {
        let i = choose|i: int| 0 <= i < nodes.len() && (#[trigger] nodes[i]).id == id;
        assert(grown[i].id == id);
    }
    if node.id == id {
        assert(grown[nodes.len() as int].id == id);
    }
    if holds_node(grown, id) {
        let i = choose|i: int| 0 <= i < grown.len() && (#[trigger] grown[i]).id == id;
        if i < nodes.len() {
            assert(nodes[i].id == id);
        }
    }
}

/// A table with one more edge holds the edges it held, and that one.
pub proof fn lemma_holds_edge_push(edges: Seq<Edge>, edge: Edge, id: EdgeId)
    ensures
        holds_edge(edges.push(edge), id) <==> holds_edge(edges, id) || edge.id == id,
{
    let grown = edges.push(edge);
    if holds_edge(edges, id) {
        let i = choose|i: int| 0 <= i < edges.len() && (#[trigger] edges[i]).id == id;
        assert(grown[i].id == id);
    }
    if edge.id == id {
        assert(grown[edges.len() as int].id == id);
    }
    if holds_edge(grown, id) {
        let i = choose|i: int| 0 <= i < grown.len() && (#[trigger] grown[i]).id == id;
        if i < edges.len() {
            assert(edges[i].id == id);
        }
    }
}

impl PageGraph {
    /// A graph without nodes or edges.
    pub fn empty(desc: PageGraphDescriptor) -> (g: PageGraph)
        ensures
            g.wf(),
            g.desc == desc,
            g.nodes@ == Seq::<Node>::empty(),
            g.edges@ == Seq::<Edge>::empty(),
            g.next_edge_id == usize::MAX,
            links_of(g.graph) == no_links(),
            weights_of(g.graph) == no_weights(),
    {
        PageGraph {
            desc,
            edges: Vec::new(),
            nodes: Vec::new(),
            graph: graph_new(),
            next_edge_id: usize::MAX,
            node_places: no_places(),
            edge_places: no_places(),
        }
    }

    /// Adds a node that the graph does not have yet.
    pub fn add_node(&mut self, node: Node)
        requires
            old(self).wf(),
            !old(self).has_node(node.id),
        ensures
            final(self).wf(),
            final(self).nodes@ == old(self).nodes@.push(node),
            final(self).edges@ == old(self).edges@,
            final(self).desc == old(self).desc,
            final(self).next_edge_id == old(self).next_edge_id,
            links_of(final(self).graph) == links_noting(links_of(old(self).graph), node_key(node.id)),
            weights_of(final(self).graph) == weights_of(old(self).graph),
    {
        let key = key_of(node.id.0);
        graph_add_node(&mut self.graph, key);
        note_place(
            &mut self.node_places,
            node.id.0.id,
            self.nodes.len(),
            Ghost(node_numbers(self.nodes@)),
        );
        self.nodes.push(node);
        proof {
            let before = *old(self);
            let after = *self;
            assert(node_numbers(after.nodes@) =~= node_numbers(before.nodes@).push(node.id.0.id));
            assert(key_item(key) == node.id.0);
            assert forall|id: NodeId| after.has_node(id) <==> (before.has_node(id) || node.id
                == id) by {
                lemma_holds_node_push(before.nodes@, node, id);
            }
            assert(distinct_nodes(after.nodes@)) by {
                assert forall|i: int, j: int| 0 <= i < j < after.nodes@.len() implies (
                #[trigger] after.nodes@[i]).id != (#[trigger] after.nodes@[j]).id by {
                    if j == before.nodes@.len() {
                        assert(before.nodes@[i].id == after.nodes@[i].id);
                    } else {
                        assert(before.nodes@[i].id != before.nodes@[j].id);
                    }
                }
            }
            assert(after.ends_resolve()) by {
                assert forall|i: int| 0 <= i < after.edges@.len() implies after.has_node(
                    (#[trigger] after.edges@[i]).source,
                ) && after.has_node(after.edges@[i].target) by {
                    assert(before.has_node(before.edges@[i].source));
                }
            }
            assert(after.weights_resolve()) by {
                assert forall|pair: (ItemKey, ItemKey), k: int|
                    #![trigger weights_of(after.graph)[pair][k]]
                    weights_of(after.graph).contains_key(pair) && 0 <= k < weights_of(
                        after.graph,
                    )[pair].len() implies {
                    let key = weights_of(after.graph)[pair][k];
                    &&& after.has_edge(EdgeId(key_item(key)))
                    &&& node_key(after.edge_for(key).source) == pair.0
                    &&& node_key(after.edge_for(key).target) == pair.1
                } by {
                    let key = weights_of(before.graph)[pair][k];
                    assert(before.has_edge(EdgeId(key_item(key))));
                    assert(after.edge_for(key) == before.edge_for(key));
                }
            }
            assert(after.links_resolve()) by {
                assert forall|a: ItemKey, k: int|
                    #![trigger links_of(after.graph)[a][k]]
                    links_of(after.graph).contains_key(a) && 0 <= k < links_of(
                        after.graph,
                    )[a].len() implies after.has_node(
                    NodeId(key_item(links_of(after.graph)[a][k].0)),
                ) by {
                    assert(links_of(before.graph).contains_key(a));
                    assert(before.has_node(NodeId(key_item(links_of(before.graph)[a][k].0))));
                }
            }
            assert(after.nodes_known()) by {
                assert forall|a: ItemKey| #[trigger]
                    links_of(after.graph).contains_key(a) <==> after.has_node(
                        NodeId(key_item(a)),
                    ) by {
                    assert(links_of(before.graph).contains_key(a) <==> before.has_node(
                        NodeId(key_item(a)),
                    ));
                    assert(crate::graph::item_key(key_item(a)) == a);
                }
            }
            assert(after.edges_filed()) by {
                assert forall|i: int| 0 <= i < after.edges@.len() implies weights_of(
                    after.graph,
                ).contains_key(edge_pair(#[trigger] after.edges@[i])) && weights_of(
                    after.graph,
                )[edge_pair(after.edges@[i])].contains(edge_key(after.edges@[i].id)) by {
                    assert(weights_of(before.graph).contains_key(edge_pair(before.edges@[i])));
                }
            }
            assert(after.pairs_linked()) by {
                assert forall|a: ItemKey, b: ItemKey| #[trigger]
                    weights_of(after.graph).contains_key((a, b)) implies {
                    &&& links_of(after.graph).contains_key(a)
                    &&& links_of(after.graph)[a].contains((b, true))
                    &&& a != b ==> links_of(after.graph).contains_key(b) && links_of(
                        after.graph,
                    )[b].contains((a, false))
                } by {
                    assert(weights_of(before.graph).contains_key((a, b)));
                }
            }
        }
    }

    /// Adds an edge that the graph does not have yet, between two of its
    /// nodes. The adjacency structure files it last under its pair.
    pub fn add_edge(&mut self, edge: Edge)
        requires
            old(self).wf(),
            !old(self).has_edge(edge.id),
            old(self).has_node(edge.source),
            old(self).has_node(edge.target),
        ensures
            final(self).wf(),
            final(self).edges@ == old(self).edges@.push(edge),
            final(self).nodes@ == old(self).nodes@,
            final(self).desc == old(self).desc,
            final(self).next_edge_id == old(self).next_edge_id,
            weights_of(final(self).graph) == weights_with(weights_of(old(self).graph), edge),
            links_of(final(self).graph) == links_with(
                links_of(old(self).graph),
                weights_of(old(self).graph),
                edge,
            ),
    {
        let a = key_of(edge.source.0);
        let b = key_of(edge.target.0);
        let key = key_of(edge.id.0);
        graph_file(&mut self.graph, a, b, key);
        note_place(
            &mut self.edge_places,
            edge.id.0.id,
            self.edges.len(),
            Ghost(edge_numbers(self.edges@)),
        );
        self.edges.push(edge);
        proof {
            let before = *old(self);
            let after = *self;
            assert(edge_numbers(after.edges@) =~= edge_numbers(before.edges@).push(edge.id.0.id));
            let at = before.edges@.len() as int;
            assert(key_item(key) == edge.id.0);
            assert(key_item(a) == edge.source.0);
            assert(key_item(b) == edge.target.0);
            assert forall|id: EdgeId| after.has_edge(id) <==> (before.has_edge(id) || edge.id
                == id) by {
                lemma_holds_edge_push(before.edges@, edge, id);
            }
            assert(distinct_edges(after.edges@)) by {
                assert forall|i: int, j: int| 0 <= i < j < after.edges@.len() implies (
                #[trigger] after.edges@[i]).id != (#[trigger] after.edges@[j]).id by {
                    if j == at {
                        assert(before.edges@[i].id == after.edges@[i].id);
                    } else {
                        assert(before.edges@[i].id != before.edges@[j].id);
                    }
                }
            }
            assert(after.ends_resolve()) by {
                assert forall|i: int| 0 <= i < after.edges@.len() implies after.has_node(
                    (#[trigger] after.edges@[i]).source,
                ) && after.has_node(after.edges@[i].target) by {
                    if i < at {
                        assert(before.has_node(before.edges@[i].source));
                    }
                }
            }
            assert forall|id: EdgeId| before.has_edge(id) implies after.edge_at(id)
                == before.edge_at(id) by {
                before.lemma_edge_found(id);
                let i = before.edge_index(id);
                assert(after.edges@[i].id == id);
                after.lemma_edge_at(i);
            }
            assert(after.edge_at(edge.id) == edge) by {
                assert(after.edges@[at] == edge);
                after.lemma_edge_at(at);
            }
            assert(after.weights_resolve()) by {
                assert forall|pair: (ItemKey, ItemKey), k: int|
                    #![trigger weights_of(after.graph)[pair][k]]
                    weights_of(after.graph).contains_key(pair) && 0 <= k < weights_of(
                        after.graph,
                    )[pair].len() implies {
                    let key = weights_of(after.graph)[pair][k];
                    &&& after.has_edge(EdgeId(key_item(key)))
                    &&& node_key(after.edge_for(key).source) == pair.0
                    &&& node_key(after.edge_for(key).target) == pair.1
                } by {
                    let found = weights_of(after.graph)[pair][k];
                    if pair == (a, b) && k == weight_at(weights_of(before.graph), a, b).len() {
                        assert(found == key);
                    } else {
                        assert(weights_of(before.graph).contains_key(pair));
                        assert(found == weights_of(before.graph)[pair][k]);
                        assert(before.has_edge(EdgeId(key_item(found))));
                    }
                }
            }
            assert(after.links_resolve()) by {
                assert forall|x: ItemKey, k: int|
                    #![trigger links_of(after.graph)[x][k]]
                    links_of(after.graph).contains_key(x) && 0 <= k < links_of(
                        after.graph,
                    )[x].len() implies after.has_node(
                    NodeId(key_item(links_of(after.graph)[x][k].0)),
                ) by {
                    let link = links_of(after.graph)[x][k];
                    if links_of(before.graph).contains_key(x) && k < links_of(
                        before.graph,
                    )[x].len() {
                        assert(link == links_of(before.graph)[x][k]);
                        assert(before.has_node(NodeId(key_item(link.0))));
                    } else {
                        assert(link.0 == a || link.0 == b);
                    }
                }
            }
            assert(after.nodes_known()) by {
                assert forall|x: ItemKey| #[trigger]
                    links_of(after.graph).contains_key(x) <==> after.has_node(
                        NodeId(key_item(x)),
                    ) by {
                    assert(links_of(before.graph).contains_key(x) <==> before.has_node(
                        NodeId(key_item(x)),
                    ));
                    assert(links_of(before.graph).contains_key(a));
                    assert(links_of(before.graph).contains_key(b));
                }
            }
            let held = weight_at(weights_of(before.graph), a, b);
            assert(after.edges_filed()) by {
                assert forall|i: int| 0 <= i < after.edges@.len() implies weights_of(
                    after.graph,
                ).contains_key(edge_pair(#[trigger] after.edges@[i])) && weights_of(
                    after.graph,
                )[edge_pair(after.edges@[i])].contains(edge_key(after.edges@[i].id)) by {
                    if i < at {
                        let old_edge = before.edges@[i];
                        assert(after.edges@[i] == old_edge);
                        assert(weights_of(before.graph).contains_key(edge_pair(old_edge)));
                        if edge_pair(old_edge) == (a, b) {
                            lemma_push_keeps(held, key, edge_key(old_edge.id));
                        }
                    } else {
                        lemma_push_has(held, key);
                    }
                }
            }
            assert(after.pairs_linked()) by {
                let old_links = links_of(before.graph);
                let new_links = links_of(after.graph);
                assert(old_links.contains_key(a));
                assert(old_links.contains_key(b));
                assert forall|c: ItemKey, d: ItemKey| #[trigger]
                    weights_of(after.graph).contains_key((c, d)) implies {
                    &&& new_links.contains_key(c)
                    &&& new_links[c].contains((d, true))
                    &&& c != d ==> new_links.contains_key(d) && new_links[d].contains((c, false))
                } by {
                    if weights_of(before.graph).contains_key((c, d)) {
                        if !weights_of(before.graph).contains_key((a, b)) {
                            let left = old_links.insert(a, links_at(old_links, a).push((b, true)));
                            if c == a {
                                lemma_push_keeps(links_at(old_links, a), (b, true), (d, true));
                            } else if c == b {
                                lemma_push_keeps(links_at(left, b), (a, false), (d, true));
                            }
                            if c != d {
                                if d == a {
                                    lemma_push_keeps(links_at(old_links, a), (b, true), (c, false));
                                } else if d == b {
                                    lemma_push_keeps(links_at(left, b), (a, false), (c, false));
                                }
                            }
                        }
                    } else {
                        assert(c == a && d == b);
                        let left = old_links.insert(a, links_at(old_links, a).push((b, true)));
                        lemma_push_has(links_at(old_links, a), (b, true));
                        if a != b {
                            lemma_push_has(links_at(left, b), (a, false));
                        }
                    }
                }
            }
        }
    }

    /// The page graph of the given nodes and edges, in their order, if they
    /// make one: no identifier is shared, and every edge starts and ends at
    /// one of the nodes. The adjacency structure notes the nodes, then files
    /// the edges, each in turn.
    pub fn new(desc: PageGraphDescriptor, edges: Vec<Edge>, nodes: Vec<Node>) -> (made: Result<
        PageGraph,
        GraphFault,
    >)
        ensures
            match made {
                Ok(g) => {
                    &&& tables_fault(nodes@, edges@) is None
                    &&& g.wf()
                    &&& g.desc == desc
                    &&& g.nodes@ == nodes@
                    &&& g.edges@ == edges@
                    &&& g.next_edge_id == usize::MAX
                    &&& links_of(g.graph) == built_links(nodes@, edges@)
                    &&& weights_of(g.graph) == built_weights(edges@)
                },
                Err(fault) => tables_fault(nodes@, edges@) == Some(fault),
            },
    {
        let mut g = PageGraph::empty(desc);
        let ghost all_nodes = nodes@;
        let ghost all_edges = edges@;
        for node in it: nodes
            invariant
                all_nodes == it.seq(),
                g.wf(),
                g.desc == desc,
                g.next_edge_id == usize::MAX,
                g.nodes@ == all_nodes.take(it.index() as int),
                g.edges@ == Seq::<Edge>::empty(),
                links_of(g.graph) == node_links(all_nodes.take(it.index() as int)),
                weights_of(g.graph) == no_weights(),
        {
            let ghost i = it.index() as int;
            proof {
                assert(all_nodes.take(i + 1).drop_last() =~= all_nodes.take(i));
                assert(all_nodes.take(i + 1).last() == node);
            }
            if g.contains_node(node.id) {
                proof {
                    let j = choose|j: int|
                        0 <= j < g.nodes@.len() && (#[trigger] g.nodes@[j]).id == node.id;
                    assert(all_nodes[j].id == all_nodes[i].id);
                }
                return Err(GraphFault::RepeatedNode);
            }
            g.add_node(node);
            assert(g.nodes@ =~= all_nodes.take(i + 1));
        }
        assert(all_nodes.take(all_nodes.len() as int) =~= all_nodes);
        if !all_edges_distinct(&edges) {
            return Err(GraphFault::RepeatedEdge);
        }
        for edge in it: edges
            invariant
                all_edges == it.seq(),
                all_nodes == nodes@,
                all_edges == edges@,
                distinct_nodes(all_nodes),
                distinct_edges(all_edges),
                g.wf(),
                g.desc == desc,
                g.next_edge_id == usize::MAX,
                g.nodes@ == all_nodes,
                g.edges@ == all_edges.take(it.index() as int),
                ends_within(all_nodes, all_edges.take(it.index() as int)),
                links_of(g.graph) == built_links(all_nodes, all_edges.take(it.index() as int)),
                weights_of(g.graph) == built_weights(all_edges.take(it.index() as int)),
        {
            let ghost j = it.index() as int;
            proof {
                assert(all_edges.take(j + 1).drop_last() =~= all_edges.take(j));
                assert(all_edges.take(j + 1).last() == edge);
            }
            if !g.contains_node(edge.source) || !g.contains_node(edge.target) {
                assert(all_edges[j] == edge);
                return Err(GraphFault::DanglingEdge);
            }
            proof {
                if g.has_edge(edge.id) {
                    let k = choose|k: int|
                        0 <= k < g.edges@.len() && (#[trigger] g.edges@[k]).id == edge.id;
                    assert(all_edges[k].id == all_edges[j].id);
                }
            }
            g.add_edge(edge);
            proof {
                assert(g.edges@ =~= all_edges.take(j + 1));
                assert forall|x: int| 0 <= x < j + 1 implies holds_node(
                    all_nodes,
                    (#[trigger] all_edges.take(j + 1)[x]).source,
                ) && holds_node(all_nodes, all_edges.take(j + 1)[x].target) by {
                    if x < j {
                        assert(all_edges.take(j)[x] == all_edges.take(j + 1)[x]);
                    }
                }
            }
        }
        assert(all_edges.take(all_edges.len() as int) =~= all_edges);
        Ok(g)
    }
}

/// Whether no two edges of `edges` share an identifier.
pub fn all_edges_distinct(edges: &Vec<Edge>) -> (distinct: bool)
    ensures
        distinct == distinct_edges(edges@),
{
    let mut places = no_places();
    let ghost all = edge_numbers(edges@);
    let mut j: usize = 0;
    assert(all.take(0) =~= Seq::<usize>::empty());
    while j < edges.len()
        invariant
            j <= edges@.len(),
            all == edge_numbers(edges@),
            indexed(places@, all.take(j as int)),
            distinct_edges(edges@.take(j as int)),
        decreases edges@.len() - j,
    {
        let id = edges[j].id;
        match places_of(&places, id.0.id) {
            Some(list) => {
                let mut x: usize = 0;
                while x < list.len()
                    invariant
                        x <= list@.len(),
                        j < edges@.len(),
                        id == edges@[j as int].id,
                        all == edge_numbers(edges@),
                        indexed(places@, all.take(j as int)),
                        places@.contains_key(id.0.id),
                        *list == places@[id.0.id],
                        forall|y: int|
                            0 <= y < x ==> edges@[(#[trigger] list@[y]) as int].id != id,
                    decreases list@.len() - x,
                {
                    let place = list[x];
                    assert(places@[id.0.id]@[x as int] < all.take(j as int).len());
                    if edges[place].id == id {
                        return false;
                    }
                    x = x + 1;
                }
                proof {
                    assert forall|i: int| 0 <= i < j implies edges@[i].id != id by {
                        if edges@[i].id == id {
                            assert(all.take(j as int)[i] == id.0.id);
                            let y = choose|y: int| 0 <= y < list@.len() && list@[y] == i as usize;
                            assert(edges@[list@[y] as int].id != id);
                        }
                    }
                }
            },
            None => {
                proof {
                    assert forall|i: int| 0 <= i < j implies edges@[i].id != id by {
                        if edges@[i].id == id {
                            assert(all.take(j as int)[i] == id.0.id);
                        }
                    }
                }
            },
        }
        proof {
            assert forall|x: int, y: int| 0 <= x < y < j + 1 implies (#[trigger] edges@.take(
                j + 1,
            )[x]).id != (#[trigger] edges@.take(j + 1)[y]).id by {
                if y < j {
                    assert(edges@.take(j as int)[x].id != edges@.take(j as int)[y].id);
                }
            }
            assert(all.take(j + 1) =~= all.take(j as int).push(id.0.id));
        }
        note_place(&mut places, id.0.id, j, Ghost(all.take(j as int)));
        j = j + 1;
    }
    assert(edges@.take(j as int) =~= edges@);
    true
}

} // verus!
