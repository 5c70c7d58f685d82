//! The requests that an action causes, as a forest: below each request, the
//! requests that it caused in turn.

use crate::closure::{distinct_ids, has_id, holds_id, passable};
use crate::graph::{edges_behind, DownstreamRequests, Edge, PageGraph};
use crate::types::{EdgeType, NodeType};
use vstd::prelude::*;

verus! {

/// A request and, below it, the requests that it caused: the edge that sent
/// the request, and the trees of the requests that it causes with no other
/// request between, in the order that the walk from it comes to them.
pub struct RequestTree {
    pub request: Edge,
    pub children: Seq<RequestTree>,
}

/// The numbers of the requests in a tree.
pub open spec fn tree_ids(tree: DownstreamRequests) -> Set<usize>
    decreases tree,
{
    forest_ids(tree.children@, tree.children@.len()).insert(tree.request_id)
}

/// The numbers of the requests in the first `upto` trees of a forest.
pub open spec fn forest_ids(forest: Seq<DownstreamRequests>, upto: nat) -> Set<usize>
    decreases forest, upto,
{
    if upto == 0 || upto > forest.len() {
        Set::empty()
    } else {
        forest_ids(forest, (upto - 1) as nat).union(tree_ids(forest[upto - 1]))
    }
}

/// The numbers of the requests in a forest.
pub open spec fn all_forest_ids(forest: Seq<DownstreamRequests>) -> Set<usize> {
    forest_ids(forest, forest.len())
}

/// The number of a request that was sent.
pub open spec fn request_id_of(x: Edge) -> usize {
    match x.edge_type {
        EdgeType::RequestStart { request_id, .. } => request_id,
        _ => 0,
    }
}

/// A number is among the first `upto` trees exactly when it is in one of
/// them.
pub proof fn lemma_forest_ids(forest: Seq<DownstreamRequests>, upto: nat, id: usize)
    requires
        upto <= forest.len(),
    ensures
        forest_ids(forest, upto).contains(id) <==> exists|i: int|
            0 <= i < upto && tree_ids(#[trigger] forest[i]).contains(id),
    decreases upto,
{
    if upto > 0 {
        lemma_forest_ids(forest, (upto - 1) as nat, id);
        if forest_ids(forest, upto).contains(id) {
            if tree_ids(forest[upto - 1]).contains(id) {
            } else {
                let i = choose|i: int|
                    0 <= i < upto - 1 && tree_ids(#[trigger] forest[i]).contains(id);
                assert(tree_ids(forest[i]).contains(id));
            }
        }
        if exists|i: int| 0 <= i < upto && tree_ids(#[trigger] forest[i]).contains(id) {
            let i = choose|i: int| 0 <= i < upto && tree_ids(#[trigger] forest[i]).contains(id);
            if i < upto - 1 {
                assert(tree_ids(forest[i]).contains(id));
            }
        }
    }
}

/// The children of a tree of a forest come before the forest in the order
/// that recursion over forests goes down.
pub proof fn lemma_children_below(forest: Seq<DownstreamRequests>)
    ensures
        forall|i: int|
            0 <= i < forest.len() ==> decreases_to!(forest => (#[trigger] forest[i]).children@),
{
    assert forall|i: int| 0 <= i < forest.len() implies decreases_to!(forest => (#[trigger] forest[i]).children@) by {
        assert(decreases_to!(forest => forest[i]));
        assert(decreases_to!(forest[i] => forest[i].children));
        assert(decreases_to!(forest[i].children => forest[i].children@));
    }
}

impl PageGraph {
    /// Whether the tree is labelled as the request `x`: with its number and
    /// kind, and with the resource that it asks for.
    pub open spec fn names_request(&self, tree: DownstreamRequests, x: Edge) -> bool {
        match x.edge_type {
            EdgeType::RequestStart { request_id, request_type, .. } => {
                &&& tree.request_id == request_id
                &&& tree.request_type == request_type
                &&& tree.node_id == x.target
                &&& match self.node_at(x.target).node_type {
                    NodeType::Resource { url } => tree.url@ == url@,
                    _ => false,
                }
            },
            _ => false,
        }
    }

    /// Whether the tree is the tree of the request `x`: it is labelled as
    /// `x`, and its children are the forest of `x`.
    pub open spec fn is_request_tree(&self, tree: DownstreamRequests, x: Edge) -> bool {
        self.names_request(tree, x) && self.is_request_forest(tree.children@, x)
    }

    /// Whether the tree is the tree of a request that `seed` causes with no
    /// other request between.
    #[verifier::opaque]
    pub open spec fn is_tree_below(&self, tree: DownstreamRequests, seed: Edge) -> bool
        decreases tree,
    {
        exists|x: Edge|
            self.requests_directly(seed, x) && #[trigger] self.names_request(tree, x)
                && self.is_request_forest(tree.children@, x)
    }

    /// Whether the forest is the forest of `seed`: each tree is the tree of a
    /// request that `seed` causes with no other request between, and each
    /// such request has its tree.
    #[verifier::opaque]
    pub open spec fn is_request_forest(&self, forest: Seq<DownstreamRequests>, seed: Edge) -> bool
        decreases forest,
    {
        &&& forall|i: int|
            0 <= i < forest.len() ==> self.is_tree_below(#[trigger] forest[i], seed)
        &&& forall|x: Edge| #[trigger]
            self.requests_directly(seed, x) ==> exists|i: int|
                0 <= i < forest.len() && #[trigger] self.names_request(forest[i], x)
                    && self.is_request_forest(forest[i].children@, x)
    }

    /// Whether the forest shows the trees, one for one: each tree of the
    /// forest is labelled as the request of its tree, and its children show
    /// the children of that tree.
    #[verifier::opaque]
    pub open spec fn forest_shows(
        &self,
        forest: Seq<DownstreamRequests>,
        trees: Seq<RequestTree>,
    ) -> bool
        decreases forest,
    {
        forest.len() == trees.len() && forall|i: int|
            0 <= i < forest.len() ==> self.names_request(#[trigger] forest[i], trees[i].request)
                && self.forest_shows(forest[i].children@, trees[i].children)
    }

    /// The trees of the requests that `seed` causes with no other request
    /// between, in the order that the walk from `seed` comes to them; a
    /// request that the walk comes to twice has two trees. The edges of
    /// `above` are the requests above `seed` on the way down. Nothing where
    /// the requests cannot be laid out.
    pub open spec fn forest_of(&self, seed: Edge, above: Seq<Edge>) -> Option<Seq<RequestTree>>
        decreases self.edges@.len() - above.len(), 0nat, 0nat,
    {
        match self.walked(true, seed) {
            Some(found) => if above.len() >= self.edges@.len() {
                None
            } else {
                self.trees_of(found.1, above.push(seed))
            },
            None => None,
        }
    }

    /// The trees of the requests `requests`, one after the other. Each must
    /// ask for a resource and must not be one of the requests on the way
    /// down.
    pub open spec fn trees_of(&self, requests: Seq<Edge>, way: Seq<Edge>) -> Option<
        Seq<RequestTree>,
    >
        decreases self.edges@.len() - way.len(), 1nat, requests.len(),
    {
        if requests.len() == 0 {
            Some(Seq::empty())
        } else {
            match self.trees_of(requests.drop_last(), way) {
                Some(trees) => {
                    let x = requests.last();
                    if holds_id(way, x.id) || !(self.node_at(x.target).node_type is Resource)
                        || !(x.edge_type is RequestStart) {
                        None
                    } else {
                        match self.forest_of(x, way) {
                            Some(children) => Some(
                                trees.push(RequestTree { request: x, children }),
                            ),
                            None => None,
                        }
                    }
                },
                None => None,
            }
        }
    }

    /// The forest of the requests downstream of `seed`.
    pub open spec fn request_forest(&self, seed: Edge) -> Option<Seq<RequestTree>> {
        self.forest_of(seed, Seq::empty())
    }

    /// A forest that shows trees, with one more tree that shows one more
    /// tree, shows all of them.
    pub proof fn lemma_shows_more(
        &self,
        forest: Seq<DownstreamRequests>,
        trees: Seq<RequestTree>,
        tree: DownstreamRequests,
        shown: RequestTree,
    )
        requires
            self.forest_shows(forest, trees),
            self.names_request(tree, shown.request),
            self.forest_shows(tree.children@, shown.children),
        ensures
            self.forest_shows(forest.push(tree), trees.push(shown)),
    {
        reveal(PageGraph::forest_shows);
        lemma_children_below(forest);
        lemma_children_below(forest.push(tree));
        let more = forest.push(tree);
        let all = trees.push(shown);
        assert forall|i: int| 0 <= i < more.len() implies self.names_request(
            #[trigger] more[i],
            all[i].request,
        ) && self.forest_shows(more[i].children@, all[i].children) by {
            if i < forest.len() {
                assert(more[i] == forest[i]);
                assert(self.names_request(forest[i], trees[i].request));
            }
        }
    }

    /// A forest without trees shows no trees.
    pub proof fn lemma_shows_none(&self)
        ensures
            self.forest_shows(Seq::empty(), Seq::empty()),
    {
        reveal(PageGraph::forest_shows);
    }

    /// Whether the requests downstream of `seed` can be laid out as a forest:
    /// the rules give an answer for `seed` and for each of its effects, and
    /// each request among the effects asks for a resource and is no effect
    /// of itself.
    pub open spec fn nests(&self, seed: Edge) -> bool {
        &&& self.follows_through(seed)
        &&& forall|x: Edge|
            x.edge_type is RequestStart && #[trigger] self.reaches(seed, x) ==> self.node_at(
                x.target,
            ).node_type is Resource && !self.reaches(x, x)
    }

    /// A request that an edge causes with no other request between is an
    /// effect of the edge.
    pub proof fn lemma_request_reached(&self, seed: Edge, x: Edge)
        requires
            self.requests_directly(seed, x),
        ensures
            self.reaches(seed, x),
    {
        if self.causes(seed, x) {
            self.lemma_reach_one(seed, x);
        } else {
            let c = choose|c: Edge| #[trigger] self.walks_to(true, seed, c) && self.causes(c, x);
            self.lemma_walk_reaches(true, seed, c);
            self.lemma_reach_more(seed, c, x);
        }
    }

    /// Each edge along a chain from `seed`, after `seed` itself, is an edge
    /// that the walk which stops at requests goes on through, or is a request
    /// that `seed` causes with no other between, or comes after such a
    /// request on the chain.
    pub proof fn lemma_first_request(&self, seed: Edge, path: Seq<Edge>, upto: int)
        requires
            self.is_chain(path),
            0 < upto < path.len(),
            path[0] == seed,
        ensures
            self.walks_to(true, seed, path[upto]) || exists|j: int|
                0 < j <= upto && self.requests_directly(seed, #[trigger] path[j]),
        decreases upto,
    {
        let a = path[upto - 1];
        let b = path[upto];
        assert(self.causes(path[upto - 1], path[upto - 1 + 1]));
        if upto > 1 {
            self.lemma_first_request(seed, path, upto - 1);
        }
        if upto > 1 && exists|j: int|
            0 < j <= upto - 1 && self.requests_directly(seed, #[trigger] path[j]) {
            let j = choose|j: int|
                0 < j <= upto - 1 && self.requests_directly(seed, #[trigger] path[j]);
            assert(self.requests_directly(seed, path[j]));
        } else if b.edge_type is RequestStart {
            assert(self.requests_directly(seed, path[upto]));
        } else {
            assert(passable(true, b));
            if upto == 1 {
                self.lemma_walk_one(true, seed, b);
            } else {
                self.lemma_walk_more(true, seed, a, b);
            }
        }
    }

    /// The later part of a chain is a chain.
    pub proof fn lemma_chain_tail(&self, path: Seq<Edge>, from: int)
        requires
            self.is_chain(path),
            0 <= from < path.len(),
        ensures
            self.is_chain(path.skip(from)),
    {
        let tail = path.skip(from);
        assert forall|i: int| 0 <= i < tail.len() - 1 implies self.causes(
            #[trigger] tail[i],
            tail[i + 1],
        ) by {
            assert(self.causes(path[from + i], path[from + i + 1]));
        }
    }

    /// Where the requests downstream of an edge can be laid out as a forest,
    /// so can those downstream of each of its effects.
    pub proof fn lemma_nests_below(&self, seed: Edge, x: Edge)
        requires
            self.nests(seed),
            self.reaches(seed, x),
        ensures
            self.nests(x),
    {
        assert forall|e: Edge| #[trigger] self.reaches(x, e) implies self.direct_effects(
            e,
        ) is Some by {
            self.lemma_reach_on(seed, x, e);
        }
        assert forall|y: Edge|
            y.edge_type is RequestStart && #[trigger] self.reaches(x, y) implies self.node_at(
            y.target,
        ).node_type is Resource && !self.reaches(y, y) by {
            self.lemma_reach_on(seed, x, y);
        }
    }

    /// Where each request that `seed` causes with no other between asks for a
    /// resource and has requests downstream that can be laid out as a
    /// forest, and the rules give an answer wherever the walk from `seed`
    /// goes on, the requests downstream of `seed` can be laid out as a
    /// forest.
    pub proof fn lemma_nests(&self, seed: Edge)
        requires
            self.walks_through(true, seed),
            forall|x: Edge| #[trigger]
                self.requests_directly(seed, x) ==> self.nests(x) && self.node_at(
                    x.target,
                ).node_type is Resource && !self.reaches(x, x),
        ensures
            self.nests(seed),
    {
        assert forall|e: Edge| #[trigger] self.reaches(seed, e) implies self.direct_effects(
            e,
        ) is Some && (e.edge_type is RequestStart ==> self.node_at(e.target).node_type is Resource
            && !self.reaches(e, e)) by {
            let path = choose|path: Seq<Edge>|
                path.len() >= 2 && path.first() == seed && path.last() == e
                    && #[trigger] self.is_chain(path);
            let last = path.len() - 1;
            self.lemma_first_request(seed, path, last);
            if exists|j: int| 0 < j <= last && self.requests_directly(seed, #[trigger] path[j]) {
                let j = choose|j: int|
                    0 < j <= last && self.requests_directly(seed, #[trigger] path[j]);
                let x = path[j];
                assert(self.requests_directly(seed, x));
                assert(self.nests(x));
                if j < last {
                    self.lemma_chain_tail(path, j);
                    let tail = path.skip(j);
                    assert(tail.len() >= 2);
                    assert(self.is_chain(tail));
                    assert(tail.first() == x && tail.last() == e);
                    assert(self.reaches(x, e));
                }
            } else {
                assert(self.walks_to(true, seed, e));
                let open = choose|open: Seq<Edge>|
                    open.len() >= 2 && open.first() == seed && open.last() == e
                        && #[trigger] self.is_open_chain(true, open);
                assert(passable(true, open[open.len() - 1]));
            }
        }
    }

    /// A forest with a tree for each of the requests `noted`, which are the
    /// requests that `seed` causes with no other between, is the forest of
    /// `seed`.
    pub proof fn lemma_forest_made(
        &self,
        forest: Seq<DownstreamRequests>,
        seed: Edge,
        noted: Seq<Edge>,
    )
        requires
            forest.len() == noted.len(),
            forall|i: int|
                0 <= i < forest.len() ==> self.is_request_tree(#[trigger] forest[i], noted[i]),
            forall|x: Edge| #[trigger] noted.contains(x) <==> self.requests_directly(seed, x),
        ensures
            self.is_request_forest(forest, seed),
    {
        reveal(PageGraph::is_request_forest);
        reveal(PageGraph::is_tree_below);
        lemma_children_below(forest);
        assert forall|i: int| 0 <= i < forest.len() implies self.is_tree_below(
            #[trigger] forest[i],
            seed,
        ) by {
            assert(noted.contains(noted[i]));
            assert(self.is_request_tree(forest[i], noted[i]));
            assert(self.names_request(forest[i], noted[i]));
            assert(decreases_to!(forest[i] => forest[i].children));
            assert(decreases_to!(forest[i].children => forest[i].children@));
        }
        assert forall|x: Edge| #[trigger]
            self.requests_directly(seed, x) implies exists|i: int|
            0 <= i < forest.len() && #[trigger] self.names_request(forest[i], x)
                && self.is_request_forest(forest[i].children@, x) by {
            assert(noted.contains(x));
            let i = choose|i: int| 0 <= i < noted.len() && noted[i] == x;
            assert(self.is_request_tree(forest[i], noted[i]));
            assert(self.names_request(forest[i], x));
        }
    }

    /// What it is to be the tree of a request that `seed` causes with no other
    /// between.
    pub proof fn lemma_tree_read(&self, tree: DownstreamRequests, seed: Edge)
        requires
            self.is_tree_below(tree, seed),
        ensures
            exists|x: Edge|
                self.requests_directly(seed, x) && #[trigger] self.is_request_tree(tree, x),
    {
        reveal(PageGraph::is_tree_below);
        reveal(PageGraph::is_request_forest);
        assert(decreases_to!(tree => tree.children));
        assert(decreases_to!(tree.children => tree.children@));
        let x = choose|x: Edge|
            self.requests_directly(seed, x) && #[trigger] self.names_request(tree, x)
                && self.is_request_forest(tree.children@, x);
        assert(self.is_request_tree(tree, x));
    }

    /// What it is to be the forest of `seed`.
    pub proof fn lemma_forest_read(&self, forest: Seq<DownstreamRequests>, seed: Edge)
        requires
            self.is_request_forest(forest, seed),
        ensures
            forall|i: int|
                0 <= i < forest.len() ==> self.is_tree_below(#[trigger] forest[i], seed),
            forall|x: Edge| #[trigger]
                self.requests_directly(seed, x) ==> exists|i: int|
                    0 <= i < forest.len() && #[trigger] self.is_request_tree(forest[i], x),
    {
        reveal(PageGraph::is_request_forest);
        reveal(PageGraph::is_tree_below);
        lemma_children_below(forest);
        assert forall|x: Edge| #[trigger]
            self.requests_directly(seed, x) implies exists|i: int|
            0 <= i < forest.len() && #[trigger] self.is_request_tree(forest[i], x) by {
            let i = choose|i: int|
                0 <= i < forest.len() && #[trigger] self.names_request(forest[i], x)
                    && self.is_request_forest(forest[i].children@, x);
            assert(self.is_request_tree(forest[i], x));
        }
    }

    /// The requests that `edge` causes, as a forest, if they can be laid out
    /// as one. The edges of `above` are the requests above `edge` on the way
    /// down.
    fn nested_below<'a>(&'a self, edge: &'a Edge, above: &Vec<&'a Edge>) -> (found: Option<
        Vec<DownstreamRequests>,
    >)
        requires
            self.wf(),
            self.holds(*edge),
            self.holds_all(edges_behind(above@)),
            distinct_ids(edges_behind(above@).push(*edge)),
            forall|i: int|
                0 <= i < above@.len() ==> self.reaches(*(#[trigger] above@[i]), *edge),
        ensures
            match found {
                Some(forest) => {
                    &&& self.nests(*edge)
                    &&& self.is_request_forest(forest@, *edge)
                    &&& self.forest_of(*edge, edges_behind(above@)) is Some
                    &&& self.forest_shows(
                        forest@,
                        self.forest_of(*edge, edges_behind(above@)).unwrap(),
                    )
                },
                None => !self.nests(*edge),
            },
        decreases self.edges@.len() - above@.len(),
    {
        let ghost over = edges_behind(above@);
        let (_, requests) = match self.walk(edge, true) {
            Some(found) => found,
            None => {
                proof {
                    if self.follows_through(*edge) {
                        assert forall|e: Edge| #[trigger]
                            self.walks_to(true, *edge, e) implies self.direct_effects(e) is Some by {
                            self.lemma_walk_reaches(true, *edge, e);
                        }
                    }
                }
                return None;
            },
        };
        let mut path: Vec<&'a Edge> = Vec::new();
        let mut n: usize = 0;
        while n < above.len()
            invariant
                n <= above@.len(),
                path@ == above@.take(n as int),
            decreases above@.len() - n,
        {
            path.push(above[n]);
            assert(path@ =~= above@.take(n + 1));
            n = n + 1;
        }
        path.push(edge);
        let ghost way = edges_behind(path@);
        proof {
            assert(above@.take(n as int) =~= above@);
            assert(way =~= over.push(*edge));
            assert forall|i: int| 0 <= i < way.len() implies self.holds(#[trigger] way[i]) by {
                if i < over.len() {
                    assert(way[i] == over[i]);
                }
            }
            self.lemma_room(way);
        }
        let ghost noted = edges_behind(requests@);
        let mut forest: Vec<DownstreamRequests> = Vec::new();
        let ghost mut shown: Seq<RequestTree> = Seq::empty();
        let mut k: usize = 0;
        proof {
            self.lemma_shows_none();
            assert(noted.take(0) =~= Seq::<Edge>::empty());
        }
        while k < requests.len()
            invariant
                self.wf(),
                self.holds(*edge),
                k <= requests@.len(),
                self.walked(true, *edge) is Some,
                self.walked(true, *edge).unwrap().1 == noted,
                self.trees_of(noted.take(k as int), way) == Some(shown),
                self.forest_shows(forest@, shown),
                noted == edges_behind(requests@),
                way == edges_behind(path@),
                way == edges_behind(above@).push(*edge),
                path@.len() == above@.len() + 1,
                path@.len() <= self.edges@.len(),
                self.holds_all(way),
                self.holds_all(noted),
                distinct_ids(way),
                forall|i: int|
                    0 <= i < above@.len() ==> self.reaches(*(#[trigger] above@[i]), *edge),
                forall|x: Edge| #[trigger]
                    noted.contains(x) <==> self.requests_directly(*edge, x),
                forest@.len() == k,
                forall|i: int|
                    0 <= i < k ==> self.is_request_tree(#[trigger] forest@[i], noted[i])
                        && self.nests(noted[i]) && !self.reaches(noted[i], noted[i]),
            decreases requests@.len() - k,
        {
            let x: &'a Edge = requests[k];
            proof {
                assert(noted[k as int] == *x);
                assert(noted.contains(*x));
                assert(self.holds(noted[k as int]));
                self.lemma_request_reached(*edge, *x);
                self.lemma_edge_ends(x.id);
            }
            if has_id(&path, x.id) {
                proof {
                    let i = choose|i: int|
                        0 <= i < path@.len() && (#[trigger] path@[i]).id == x.id;
                    assert(way[i] == *path@[i]);
                    assert(self.holds(way[i]));
                    assert(way[i] == *x);
                    if i < above@.len() {
                        assert(way[i] == *above@[i]);
                        self.lemma_reach_on(*x, *edge, *x);
                    }
                    assert(self.reaches(*x, *x));
                }
                return None;
            }
            let target = self.target_node(x);
            let url = match &target.node_type {
                NodeType::Resource { url } => url.clone(),
                _ => {
                    return None;
                },
            };
            let (request_id, request_type) = match &x.edge_type {
                EdgeType::RequestStart { request_id, request_type, .. } => (
                    *request_id,
                    *request_type,
                ),
                _ => {
                    return None;
                },
            };
            proof {
                assert forall|i: int, j: int| 0 <= i < j < way.push(*x).len() implies (
                #[trigger] way.push(*x)[i]).id != (#[trigger] way.push(*x)[j]).id by {
                    if j < way.len() {
                        assert(way[i].id != way[j].id);
                    } else {
                        assert(way[i] == *path@[i]);
                    }
                }
                assert forall|i: int| 0 <= i < path@.len() implies self.reaches(
                    *(#[trigger] path@[i]),
                    *x,
                ) by {
                    if i < above@.len() {
                        assert(way[i] == *path@[i]);
                        assert(way[i] == *above@[i]);
                        self.lemma_reach_on(*above@[i], *edge, *x);
                    } else {
                        assert(way[i] == *path@[i]);
                    }
                }
            }
            let children = match self.nested_below(x, &path) {
                Some(children) => children,
                None => {
                    proof {
                        if self.nests(*edge) {
                            self.lemma_nests_below(*edge, *x);
                        }
                    }
                    return None;
                },
            };
            let tree = DownstreamRequests {
                request_id,
                url,
                request_type,
                node_id: target.id,
                children,
            };
            proof {
                assert(self.is_request_tree(tree, *x));
                if self.reaches(*x, *x) {
                    assert(self.nests(*x));
                }
                let below = RequestTree { request: *x, children: self.forest_of(*x, way).unwrap() };
                assert(noted.take(k + 1).drop_last() =~= noted.take(k as int));
                assert(noted.take(k + 1).last() == *x);
                self.lemma_shows_more(forest@, shown, tree, below);
                shown = shown.push(below);
            }
            forest.push(tree);
            k = k + 1;
        }
        assert(noted.take(k as int) =~= noted);
        proof {
            assert forall|x: Edge| #[trigger] self.requests_directly(*edge, x) implies self.nests(
                x,
            ) && self.node_at(x.target).node_type is Resource && !self.reaches(x, x) by {
                assert(noted.contains(x));
                let i = choose|i: int| 0 <= i < noted.len() && noted[i] == x;
                assert(self.is_request_tree(forest@[i], noted[i]));
            }
            self.lemma_nests(*edge);
            assert(self.nests(*edge));
            self.lemma_forest_made(forest@, *edge, noted);
        }
        Some(forest)
    }

    /// The requests that `edge` causes, as a forest, if they can be laid out
    /// as one: a tree for each request that `edge` causes with no other
    /// request between and, below it, the forest of that request.
    pub fn try_all_downstream_requests_nested<'a>(&'a self, edge: &'a Edge) -> (found: Option<
        Vec<DownstreamRequests>,
    >)
        requires
            self.wf(),
            self.holds(*edge),
        ensures
            match found {
                Some(forest) => {
                    &&& self.nests(*edge)
                    &&& self.is_request_forest(forest@, *edge)
                    &&& self.request_forest(*edge) is Some
                    &&& self.forest_shows(forest@, self.request_forest(*edge).unwrap())
                },
                None => !self.nests(*edge),
            },
    {
        let above: Vec<&Edge> = Vec::new();
        assert(edges_behind(above@).push(*edge) =~= seq![*edge]);
        assert(edges_behind(above@) =~= Seq::<Edge>::empty());
        self.nested_below(edge, &above)
    }

    /// The requests that `edge` causes, as a forest: a tree for each request
    /// that `edge` causes with no other request between and, below it, the
    /// forest of that request.
    pub fn all_downstream_requests_nested<'a>(&'a self, edge: &'a Edge) -> (forest: Vec<
        DownstreamRequests,
    >)
        requires
            self.wf(),
            self.holds(*edge),
            self.nests(*edge),
        ensures
            self.is_request_forest(forest@, *edge),
            self.request_forest(*edge) is Some,
            self.forest_shows(forest@, self.request_forest(*edge).unwrap()),
    {
        self.try_all_downstream_requests_nested(edge).unwrap()
    }
}

} // verus!
