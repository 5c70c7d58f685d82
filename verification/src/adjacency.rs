//! The adjacency structure of a page graph: a directed graph map whose nodes
//! are identifier keys and whose link from one node to another carries the
//! list of the edges that run between the two, in the order they were added.

use petgraph::graphmap::{DiGraphMap, GraphMap};
use petgraph::{Directed, Direction};
use vstd::prelude::*;

verus! {

/// An identifier as plain values: the local number and the frame token.
pub type ItemKey = (usize, Option<u128>);

/// The adjacency structure of a page graph.
pub type LinkGraph = DiGraphMap<ItemKey, Vec<ItemKey>>;

/// `petgraph::graphmap::GraphMap`, a graph whose nodes are values that can
/// be hashed; what it holds is known through `links_of` and `weights_of`.
#[verifier::external_type_specification]
#[verifier::external_body]
#[verifier::reject_recursive_types(N)]
#[verifier::reject_recursive_types(E)]
#[verifier::reject_recursive_types(Ty)]
#[verifier::reject_recursive_types(S)]
pub struct ExGraphMap<N, E, Ty, S: core::hash::BuildHasher>(GraphMap<N, E, Ty, S>);

/// `petgraph::Directed`, the mark of a graph whose links have a direction.
#[verifier::external_type_specification]
#[verifier::external_body]
pub struct ExDirected(Directed);

/// `petgraph::Direction`: `Outgoing` or `Incoming`.
#[verifier::external_type_specification]
pub struct ExDirection(Direction);

/// For each node of the graph map, its list of links in the order they were
/// made: the node at the other end, and whether the link leaves this node.
pub uninterp spec fn links_of(g: LinkGraph) -> Map<ItemKey, Seq<(ItemKey, bool)>>;

/// For each linked pair of nodes of the graph map, source first, the weight
/// of the link.
pub uninterp spec fn weights_of(g: LinkGraph) -> Map<(ItemKey, ItemKey), Seq<ItemKey>>;

/// Lists of links for no node at all.
pub open spec fn no_links() -> Map<ItemKey, Seq<(ItemKey, bool)>> {
    Map::empty()
}

/// Weights for no pair at all.
pub open spec fn no_weights() -> Map<(ItemKey, ItemKey), Seq<ItemKey>> {
    Map::empty()
}

/// The weight of the link from `a` to `b`; empty where the two are not
/// linked.
pub open spec fn weight_at(weights: Map<(ItemKey, ItemKey), Seq<ItemKey>>, a: ItemKey, b: ItemKey) -> Seq<
    ItemKey,
> {
    if weights.contains_key((a, b)) {
        weights[(a, b)]
    } else {
        Seq::empty()
    }
}

/// The links of node `n`; none where the node is unknown.
pub open spec fn links_at(links: Map<ItemKey, Seq<(ItemKey, bool)>>, n: ItemKey) -> Seq<
    (ItemKey, bool),
> {
    if links.contains_key(n) {
        links[n]
    } else {
        Seq::empty()
    }
}

/// The links after a first link from `a` to `b` is made: `a` gains a link
/// that leaves it for `b` and, unless the two are one node, `b` gains a link
/// that enters it from `a`.
pub open spec fn links_joined(
    links: Map<ItemKey, Seq<(ItemKey, bool)>>,
    a: ItemKey,
    b: ItemKey,
) -> Map<ItemKey, Seq<(ItemKey, bool)>> {
    let left = links.insert(a, links_at(links, a).push((b, true)));
    if a == b {
        left
    } else {
        left.insert(b, links_at(left, b).push((a, false)))
    }
}

/// Whether a link of node `a` counts in the direction asked for: it has that
/// direction, or it is the link of the node to itself.
pub open spec fn link_counts(a: ItemKey, link: (ItemKey, bool), outgoing: bool) -> bool {
    link.1 == outgoing || link.0 == a
}

/// The nodes at the other end of the links of `a` that count in a direction.
pub open spec fn neighbors_among(links: Seq<(ItemKey, bool)>, a: ItemKey, outgoing: bool) -> Seq<
    ItemKey,
>
    decreases links.len(),
{
    if links.len() == 0 {
        Seq::empty()
    } else if link_counts(a, links.last(), outgoing) {
        neighbors_among(links.drop_last(), a, outgoing).push(links.last().0)
    } else {
        neighbors_among(links.drop_last(), a, outgoing)
    }
}

/// A sequence with one more element holds what it held.
pub proof fn lemma_push_keeps<T>(s: Seq<T>, x: T, y: T)
    requires
        s.contains(y),
    ensures
        s.push(x).contains(y),
{
    let i = choose|i: int| 0 <= i < s.len() && s[i] == y;
    assert(s.push(x)[i] == y);
}

/// A sequence with one more element holds that element.
pub proof fn lemma_push_has<T>(s: Seq<T>, x: T)
    ensures
        s.push(x).contains(x),
{
    assert(s.push(x)[s.len() as int] == x);
}

/// The far end of a link that counts in a direction is among the neighbours
/// in that direction.
pub proof fn lemma_counted_is_neighbor(links: Seq<(ItemKey, bool)>, a: ItemKey, outgoing: bool, k: int)
    requires
        0 <= k < links.len(),
        link_counts(a, links[k], outgoing),
    ensures
        neighbors_among(links, a, outgoing).contains(links[k].0),
    decreases links.len(),
{
    let rest = neighbors_among(links.drop_last(), a, outgoing);
    if k == links.len() - 1 {
        lemma_push_has(rest, links.last().0);
    } else {
        lemma_counted_is_neighbor(links.drop_last(), a, outgoing, k);
        assert(links.drop_last()[k] == links[k]);
        if link_counts(a, links.last(), outgoing) {
            lemma_push_keeps(rest, links.last().0, links[k].0);
        }
    }
}

/// `GraphMap::new` makes a graph map without nodes or links.
#[verifier::external_body]
pub(crate) fn graph_new() -> (g: LinkGraph)
    ensures
        links_of(g) == no_links(),
        weights_of(g) == no_weights(),
{
    DiGraphMap::new()
}

/// `GraphMap::add_node` adds the node, without links, unless the graph map
/// has it already.
#[verifier::external_body]
pub(crate) fn graph_add_node(g: &mut LinkGraph, n: ItemKey)
    ensures
        links_of(*final(g)) == if links_of(*old(g)).contains_key(n) {
            links_of(*old(g))
        } else {
            links_of(*old(g)).insert(n, Seq::empty())
        },
        weights_of(*final(g)) == weights_of(*old(g)),
{
    g.add_node(n);
}

/// `GraphMap::add_edge` sets the weight of the link from `a` to `b`. Where the
/// two were linked before, it returns the former weight and leaves the lists
/// of links alone; else it returns nothing and joins the two.
#[verifier::external_body]
pub(crate) fn graph_add_edge(g: &mut LinkGraph, a: ItemKey, b: ItemKey, weight: Vec<ItemKey>) -> (former:
    Option<Vec<ItemKey>>)
    ensures
        weights_of(*final(g)) == weights_of(*old(g)).insert((a, b), weight@),
        match former {
            Some(w) => weights_of(*old(g)).contains_key((a, b)) && w@ == weights_of(*old(g))[(a, b)]
                && links_of(*final(g)) == links_of(*old(g)),
            None => !weights_of(*old(g)).contains_key((a, b)) && links_of(*final(g))
                == links_joined(links_of(*old(g)), a, b),
        },
{
    g.add_edge(a, b, weight)
}

/// `GraphMap::edge_weight` gives the weight of the link from `a` to `b`, if
/// the two are linked.
#[verifier::external_body]
pub(crate) fn graph_edge_weight(g: &LinkGraph, a: ItemKey, b: ItemKey) -> (weight: Option<
    &Vec<ItemKey>,
>)
    ensures
        match weight {
            Some(w) => weights_of(*g).contains_key((a, b)) && w@ == weights_of(*g)[(a, b)],
            None => !weights_of(*g).contains_key((a, b)),
        },
{
    g.edge_weight(a, b)
}

/// `GraphMap::edge_weight_mut` lends the weight of the link from `a` to `b`, if
/// the two are linked; what is written to it becomes the weight of that link.
#[verifier::external_body]
pub(crate) fn graph_edge_weight_mut(g: &mut LinkGraph, a: ItemKey, b: ItemKey) -> (weight: Option<
    &mut Vec<ItemKey>,
>)
    ensures
        match weight {
            Some(w) => weights_of(*old(g)).contains_key((a, b)) && w@ == weights_of(*old(g))[(a, b)]
                && weights_of(*final(g)) == weights_of(*old(g)).insert((a, b), final(w)@)
                && links_of(*final(g)) == links_of(*old(g)),
            None => !weights_of(*old(g)).contains_key((a, b)) && weights_of(*final(g))
                == weights_of(*old(g)) && links_of(*final(g)) == links_of(*old(g)),
        },
{
    g.edge_weight_mut(a, b)
}

/// `GraphMap::contains_node` tells whether the graph map has the node.
#[verifier::external_body]
pub(crate) fn graph_contains_node(g: &LinkGraph, n: ItemKey) -> (known: bool)
    ensures
        known == links_of(*g).contains_key(n),
{
    g.contains_node(n)
}

/// Files the edge `key` under the pair that leads from `a` to `b`.
pub(crate) fn graph_file(g: &mut LinkGraph, a: ItemKey, b: ItemKey, key: ItemKey)
    ensures
        weights_of(*final(g)) == weights_of(*old(g)).insert(
            (a, b),
            weight_at(weights_of(*old(g)), a, b).push(key),
        ),
        links_of(*final(g)) == if weights_of(*old(g)).contains_key((a, b)) {
            links_of(*old(g))
        } else {
            links_joined(links_of(*old(g)), a, b)
        },
{
    let linked = match graph_edge_weight_mut(g, a, b) {
        Some(w) => {
            w.push(key);
            true
        },
        None => false,
    };
    if !linked {
        let mut weight: Vec<ItemKey> = Vec::new();
        weight.push(key);
        graph_add_edge(g, a, b, weight);
    }
}

/// `GraphMap::neighbors_directed` walks the links of `a` in their order and
/// gives the node at the other end of each that counts in the direction.
#[verifier::external_body]
pub(crate) fn graph_neighbors(g: &LinkGraph, a: ItemKey, direction: Direction) -> (neighbors: Vec<
    ItemKey,
>)
    ensures
        neighbors@ == neighbors_among(
            links_at(links_of(*g), a),
            a,
            direction == Direction::Outgoing,
        ),
{
    g.neighbors_directed(a, direction).collect()
}

} // verus!
