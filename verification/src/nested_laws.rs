//! What holds between the forest of requests below an edge and what is
//! downstream of the edge.

use crate::closure::passable;
use crate::graph::{DownstreamRequests, Edge, PageGraph};
use crate::nested::{
    all_forest_ids, lemma_children_below, lemma_forest_ids, request_id_of, tree_ids,
};
use vstd::prelude::*;

verus! {

impl PageGraph {
    /// Each number in the forest of an edge is the number of a request that
    /// is an effect of the edge.
    pub proof fn lemma_forest_ids_are_reached(
        &self,
        forest: Seq<DownstreamRequests>,
        seed: Edge,
        id: usize,
    )
        requires
            self.is_request_forest(forest, seed),
            all_forest_ids(forest).contains(id),
        ensures
            exists|x: Edge|
                x.edge_type is RequestStart && #[trigger] self.reaches(seed, x) && request_id_of(x)
                    == id,
        decreases forest,
    {
        lemma_forest_ids(forest, forest.len(), id);
        let i = choose|i: int| 0 <= i < forest.len() && tree_ids(#[trigger] forest[i]).contains(id);
        let tree = forest[i];
        self.lemma_forest_read(forest, seed);
        assert(self.is_tree_below(forest[i], seed));
        self.lemma_tree_read(tree, seed);
        let x = choose|x: Edge|
            self.requests_directly(seed, x) && #[trigger] self.is_request_tree(tree, x);
        self.lemma_request_reached(seed, x);
        if id == tree.request_id {
            assert(request_id_of(x) == id);
        } else {
            assert(all_forest_ids(tree.children@).contains(id));
            lemma_children_below(forest);
            self.lemma_forest_ids_are_reached(tree.children@, x, id);
            let y = choose|y: Edge|
                y.edge_type is RequestStart && #[trigger] self.reaches(x, y) && request_id_of(y)
                    == id;
            self.lemma_reach_on(seed, x, y);
        }
    }

    /// The number of a request at the end of a chain from an edge is in the
    /// forest of the edge.
    pub proof fn lemma_reached_is_in_forest(
        &self,
        forest: Seq<DownstreamRequests>,
        seed: Edge,
        path: Seq<Edge>,
    )
        requires
            self.is_request_forest(forest, seed),
            self.is_chain(path),
            path.len() >= 2,
            path[0] == seed,
            path.last().edge_type is RequestStart,
        ensures
            all_forest_ids(forest).contains(request_id_of(path.last())),
        decreases path.len(),
    {
        let last = path.len() - 1;
        let id = request_id_of(path.last());
        self.lemma_first_request(seed, path, last);
        if self.walks_to(true, seed, path[last]) {
            let open = choose|open: Seq<Edge>|
                open.len() >= 2 && open.first() == seed && open.last() == path[last]
                    && #[trigger] self.is_open_chain(true, open);
            assert(passable(true, open[open.len() - 1]));
        }
        let j = choose|j: int| 0 < j <= last && self.requests_directly(seed, #[trigger] path[j]);
        let x = path[j];
        self.lemma_forest_read(forest, seed);
        assert(self.requests_directly(seed, x));
        let i = choose|i: int| 0 <= i < forest.len() && #[trigger] self.is_request_tree(forest[i], x);
        let tree = forest[i];
        if j < last {
            self.lemma_chain_tail(path, j);
            let tail = path.skip(j);
            assert(tail[0] == x);
            assert(tail.last() == path.last());
            self.lemma_reached_is_in_forest(tree.children@, x, tail);
        }
        assert(tree_ids(forest[i]).contains(id));
        lemma_forest_ids(forest, forest.len(), id);
    }

    /// The numbers in the forest of requests below an edge are exactly the
    /// numbers of the requests that are downstream of the edge.
    pub proof fn lemma_forest_holds_requests_downstream(
        &self,
        forest: Seq<DownstreamRequests>,
        seed: Edge,
        id: usize,
    )
        requires
            self.nests(seed),
            self.is_request_forest(forest, seed),
        ensures
            all_forest_ids(forest).contains(id) <==> exists|x: Edge|
                x.edge_type is RequestStart && #[trigger] self.is_downstream(seed, x)
                    && request_id_of(x) == id,
    {
        if all_forest_ids(forest).contains(id) {
            self.lemma_forest_ids_are_reached(forest, seed, id);
            let x = choose|x: Edge|
                x.edge_type is RequestStart && #[trigger] self.reaches(seed, x) && request_id_of(x)
                    == id;
            assert(!self.reaches(x, x));
            assert(self.is_downstream(seed, x));
        }
        if exists|x: Edge|
            x.edge_type is RequestStart && #[trigger] self.is_downstream(seed, x) && request_id_of(
                x,
            ) == id {
            let x = choose|x: Edge|
                x.edge_type is RequestStart && #[trigger] self.is_downstream(seed, x)
                    && request_id_of(x) == id;
            let path = choose|path: Seq<Edge>|
                path.len() >= 2 && path.first() == seed && path.last() == x
                    && #[trigger] self.is_chain(path);
            self.lemma_reached_is_in_forest(forest, seed, path);
        }
    }
}

} // verus!
