//! The nodes and the edges of a graph whose kind passes a test.

use crate::graph::{edges_behind, nodes_behind, Edge, Node, PageGraph};
use crate::types::{EdgeType, NodeType};
use vstd::prelude::*;

verus! {

/// The nodes that are kept, in their order.
pub open spec fn kept_nodes(nodes: Seq<Node>, kept: Seq<bool>) -> Seq<Node>
    decreases nodes.len(),
{
    if nodes.len() == 0 || kept.len() != nodes.len() {
        Seq::empty()
    } else if kept.last() {
        kept_nodes(nodes.drop_last(), kept.drop_last()).push(nodes.last())
    } else {
        kept_nodes(nodes.drop_last(), kept.drop_last())
    }
}

/// The edges that are kept, in their order.
pub open spec fn kept_edges(edges: Seq<Edge>, kept: Seq<bool>) -> Seq<Edge>
    decreases edges.len(),
{
    if edges.len() == 0 || kept.len() != edges.len() {
        Seq::empty()
    } else if kept.last() {
        kept_edges(edges.drop_last(), kept.drop_last()).push(edges.last())
    } else {
        kept_edges(edges.drop_last(), kept.drop_last())
    }
}

impl PageGraph {
    /// The nodes whose kind passes the test `f`, in the order of the table:
    /// a node is kept exactly when the test said yes to its kind.
    pub fn filter_nodes<F: Fn(&NodeType) -> bool>(&self, f: F) -> (found: Vec<&Node>)
        requires
            forall|i: int|
                0 <= i < self.nodes@.len() ==> f.requires((&(#[trigger] self.nodes@[i]).node_type,)),
        ensures
            exists|kept: Seq<bool>|
                {
                    &&& kept.len() == self.nodes@.len()
                    &&& forall|i: int|
                        0 <= i < kept.len() ==> f.ensures(
                            (&self.nodes@[i].node_type,),
                            #[trigger] kept[i],
                        )
                    &&& #[trigger] kept_nodes(self.nodes@, kept) == nodes_behind(found@)
                },
    {
        let mut found: Vec<&Node> = Vec::new();
        let ghost mut kept: Seq<bool> = Seq::empty();
        let mut i: usize = 0;
        assert(nodes_behind(found@) =~= kept_nodes(self.nodes@.take(0), kept));
        while i < self.nodes.len()
            invariant
                i <= self.nodes@.len(),
                kept.len() == i,
                forall|k: int|
                    0 <= k < self.nodes@.len() ==> f.requires(
                        (&(#[trigger] self.nodes@[k]).node_type,),
                    ),
                forall|k: int|
                    0 <= k < i ==> f.ensures((&self.nodes@[k].node_type,), #[trigger] kept[k]),
                nodes_behind(found@) == kept_nodes(self.nodes@.take(i as int), kept),
            decreases self.nodes@.len() - i,
        {
            let node: &Node = &self.nodes[i];
            let keep = f(&node.node_type);
            proof {
                let grown = kept.push(keep);
                assert(self.nodes@.take(i + 1).drop_last() =~= self.nodes@.take(i as int));
                assert(grown.drop_last() =~= kept);
                assert(self.nodes@.take(i + 1).last() == *node);
                kept = grown;
            }
            if keep {
                let ghost before = found@;
                found.push(node);
                assert(nodes_behind(found@) =~= nodes_behind(before).push(*node));
            }
            i = i + 1;
        }
        assert(self.nodes@.take(i as int) =~= self.nodes@);
        found
    }

    /// The edges whose kind passes the test `f`, in the order of the table:
    /// an edge is kept exactly when the test said yes to its kind.
    pub fn filter_edges<F: Fn(&EdgeType) -> bool>(&self, f: F) -> (found: Vec<&Edge>)
        requires
            forall|i: int|
                0 <= i < self.edges@.len() ==> f.requires((&(#[trigger] self.edges@[i]).edge_type,)),
        ensures
            exists|kept: Seq<bool>|
                {
                    &&& kept.len() == self.edges@.len()
                    &&& forall|i: int|
                        0 <= i < kept.len() ==> f.ensures(
                            (&self.edges@[i].edge_type,),
                            #[trigger] kept[i],
                        )
                    &&& #[trigger] kept_edges(self.edges@, kept) == edges_behind(found@)
                },
    {
        let mut found: Vec<&Edge> = Vec::new();
        let ghost mut kept: Seq<bool> = Seq::empty();
        let mut i: usize = 0;
        assert(edges_behind(found@) =~= kept_edges(self.edges@.take(0), kept));
        while i < self.edges.len()
            invariant
                i <= self.edges@.len(),
                kept.len() == i,
                forall|k: int|
                    0 <= k < self.edges@.len() ==> f.requires(
                        (&(#[trigger] self.edges@[k]).edge_type,),
                    ),
                forall|k: int|
                    0 <= k < i ==> f.ensures((&self.edges@[k].edge_type,), #[trigger] kept[k]),
                edges_behind(found@) == kept_edges(self.edges@.take(i as int), kept),
            decreases self.edges@.len() - i,
        {
            let edge: &Edge = &self.edges[i];
            let keep = f(&edge.edge_type);
            proof {
                let grown = kept.push(keep);
                assert(self.edges@.take(i + 1).drop_last() =~= self.edges@.take(i as int));
                assert(grown.drop_last() =~= kept);
                assert(self.edges@.take(i + 1).last() == *edge);
                kept = grown;
            }
            if keep {
                let ghost before = found@;
                found.push(edge);
                assert(edges_behind(found@) =~= edges_behind(before).push(*edge));
            }
            i = i + 1;
        }
        assert(self.edges@.take(i as int) =~= self.edges@);
        found
    }
}

} // verus!
