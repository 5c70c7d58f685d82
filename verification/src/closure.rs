//! Everything that an action causes, directly or through what it causes.

use crate::graph::{edges_behind, Edge, PageGraph};
use crate::ids::EdgeId;
use vstd::prelude::*;

verus! {

/// Whether `x` is the seed, was visited, or waits to be visited.
pub open spec fn accounted(seed: Edge, visited: Seq<Edge>, waiting: Seq<Edge>, x: Edge) -> bool {
    x == seed || visited.contains(x) || waiting.contains(x)
}

/// Whether the walk goes on through `e`: a walk that stops at requests does
/// not go on through a request that was sent.
pub open spec fn passable(stop: bool, e: Edge) -> bool {
    !(stop && e.edge_type is RequestStart)
}

/// No two of the edges share an identifier.
pub open spec fn distinct_ids(edges: Seq<Edge>) -> bool {
    forall|i: int, j: int|
        0 <= i < j < edges.len() ==> (#[trigger] edges[i]).id != (#[trigger] edges[j]).id
}

/// Whether one of the edges has the identifier `id`.
pub open spec fn holds_id(edges: Seq<Edge>, id: EdgeId) -> bool {
    exists|i: int| 0 <= i < edges.len() && (#[trigger] edges[i]).id == id
}

/// The stack and the requests noted after the effects `effects` of an edge
/// are sorted, one after the other: a request at which the walk stops is
/// noted; another edge goes on the stack, unless it is the seed or was
/// visited.
pub open spec fn queued(
    stop: bool,
    seed: Edge,
    effects: Seq<Edge>,
    waiting: Seq<Edge>,
    visited: Seq<Edge>,
    requests: Seq<Edge>,
) -> (Seq<Edge>, Seq<Edge>)
    decreases effects.len(),
{
    if effects.len() == 0 {
        (waiting, requests)
    } else {
        let before = queued(stop, seed, effects.drop_last(), waiting, visited, requests);
        let x = effects.last();
        if !passable(stop, x) {
            (before.0, before.1.push(x))
        } else if x.id != seed.id && !holds_id(visited, x.id) {
            (before.0.push(x), before.1)
        } else {
            before
        }
    }
}

/// A sequence with one more element holds what it held, and that element.
pub proof fn lemma_contains_push(s: Seq<Edge>, x: Edge, y: Edge)
    ensures
        s.push(x).contains(y) <==> s.contains(y) || x == y,
{
    if s.contains(y) {
        let i = choose|i: int| 0 <= i < s.len() && s[i] == y;
        assert(s.push(x)[i] == y);
    }
    if x == y {
        assert(s.push(x)[s.len() as int] == y);
    }
    if s.push(x).contains(y) {
        let i = choose|i: int| 0 <= i < s.push(x).len() && s.push(x)[i] == y;
        if i < s.len() {
            assert(s[i] == y);
        }
    }
}

/// Whether one of the edges has the identifier `id`.
pub fn has_id(edges: &Vec<&Edge>, id: EdgeId) -> (found: bool)
    ensures
        found == exists|i: int| 0 <= i < edges@.len() && (#[trigger] edges@[i]).id == id,
        found == holds_id(edges_behind(edges@), id),
{
    proof {
        let all = edges_behind(edges@);
        if holds_id(all, id) {
            let i = choose|i: int| 0 <= i < all.len() && (#[trigger] all[i]).id == id;
            assert(edges@[i].id == id);
        }
        if exists|i: int| 0 <= i < edges@.len() && (#[trigger] edges@[i]).id == id {
            let i = choose|i: int| 0 <= i < edges@.len() && (#[trigger] edges@[i]).id == id;
            assert(all[i].id == id);
        }
    }
    let mut i: usize = 0;
    while i < edges.len()
        invariant
            i <= edges@.len(),
            forall|j: int| 0 <= j < i ==> (#[trigger] edges@[j]).id != id,
            holds_id(edges_behind(edges@), id) == exists|i: int|
                0 <= i < edges@.len() && (#[trigger] edges@[i]).id == id,
        decreases edges@.len() - i,
    {
        if edges[i].id == id {
            return true;
        }
        i = i + 1;
    }
    false
}

impl PageGraph {
    /// Whether `to` is a direct effect of `from`.
    pub open spec fn causes(&self, from: Edge, to: Edge) -> bool {
        match self.direct_effects(from) {
            Some(effects) => effects.contains(to),
            None => false,
        }
    }

    /// Whether each edge of `path` but the first is a direct effect of the
    /// one before it.
    pub open spec fn is_chain(&self, path: Seq<Edge>) -> bool {
        forall|i: int| 0 <= i < path.len() - 1 ==> self.causes(#[trigger] path[i], path[i + 1])
    }

    /// Whether `to` is an effect of `from`: a direct effect, or a direct
    /// effect of an effect.
    pub open spec fn reaches(&self, from: Edge, to: Edge) -> bool {
        exists|path: Seq<Edge>|
            path.len() >= 2 && path.first() == from && path.last() == to && #[trigger] self.is_chain(
                path,
            )
    }

    /// Whether `path` is a chain on which the walk goes on through every
    /// edge but the first.
    pub open spec fn is_open_chain(&self, stop: bool, path: Seq<Edge>) -> bool {
        self.is_chain(path) && forall|i: int|
            0 < i < path.len() ==> passable(stop, #[trigger] path[i])
    }

    /// Whether the walk from `from` comes to `to` and goes on through it.
    pub open spec fn walks_to(&self, stop: bool, from: Edge, to: Edge) -> bool {
        exists|path: Seq<Edge>|
            path.len() >= 2 && path.first() == from && path.last() == to
                && #[trigger] self.is_open_chain(stop, path)
    }

    /// Whether the rules give an answer for `seed` and for each edge that the
    /// walk from it goes on through.
    pub open spec fn walks_through(&self, stop: bool, seed: Edge) -> bool {
        self.direct_effects(seed) is Some && forall|e: Edge| #[trigger]
            self.walks_to(stop, seed, e) ==> self.direct_effects(e) is Some
    }

    /// Whether `x` is a request that `seed` causes with no other request
    /// between the two: a direct effect of `seed`, or of an edge that the
    /// walk from `seed` goes on through.
    pub open spec fn requests_directly(&self, seed: Edge, x: Edge) -> bool {
        x.edge_type is RequestStart && (self.causes(seed, x) || exists|c: Edge| #[trigger]
            self.walks_to(true, seed, c) && self.causes(c, x))
    }

    /// Whether the rules give an answer for `seed` and for each of its
    /// effects.
    pub open spec fn follows_through(&self, seed: Edge) -> bool {
        self.direct_effects(seed) is Some && forall|e: Edge| #[trigger]
            self.reaches(seed, e) ==> self.direct_effects(e) is Some
    }

    /// Whether `e` is downstream of `seed`: an effect of it, other than
    /// `seed` itself.
    pub open spec fn is_downstream(&self, seed: Edge, e: Edge) -> bool {
        e != seed && self.reaches(seed, e)
    }

    /// Where the walk ends when it goes on from a stack of edges that wait,
    /// with the edges visited and the requests noted so far: it takes the
    /// last edge off the stack, passes over one that was visited, visits
    /// another and sorts its effects, until nothing waits. It gives the
    /// edges visited and the requests noted, in their order.
    pub open spec fn walk_on(
        &self,
        stop: bool,
        seed: Edge,
        waiting: Seq<Edge>,
        visited: Seq<Edge>,
        requests: Seq<Edge>,
    ) -> Option<(Seq<Edge>, Seq<Edge>)>
        decreases self.edges@.len() - visited.len(), waiting.len(),
    {
        if waiting.len() == 0 {
            Some((visited, requests))
        } else if holds_id(visited, waiting.last().id) {
            self.walk_on(stop, seed, waiting.drop_last(), visited, requests)
        } else if visited.len() >= self.edges@.len() {
            None
        } else {
            match self.direct_effects(waiting.last()) {
                Some(effects) => {
                    let next = queued(
                        stop,
                        seed,
                        effects,
                        waiting.drop_last(),
                        visited.push(waiting.last()),
                        requests,
                    );
                    self.walk_on(stop, seed, next.0, visited.push(waiting.last()), next.1)
                },
                None => None,
            }
        }
    }

    /// Where the walk from `seed` ends: the edges that it went on through,
    /// in the order it visited them, and the requests that it noted, in the
    /// order it came to them.
    pub open spec fn walked(&self, stop: bool, seed: Edge) -> Option<(Seq<Edge>, Seq<Edge>)> {
        match self.direct_effects(seed) {
            Some(effects) => {
                let first = queued(stop, seed, effects, Seq::empty(), Seq::empty(), Seq::empty());
                self.walk_on(stop, seed, first.0, Seq::empty(), first.1)
            },
            None => None,
        }
    }

    /// Everything downstream of `seed`, in the order that the walk from it
    /// visits the edges.
    pub open spec fn downstream_in_order(&self, seed: Edge) -> Option<Seq<Edge>> {
        match self.walked(false, seed) {
            Some(found) => Some(found.0),
            None => None,
        }
    }

    /// Whether the direct effects of `a` are all accounted for: those that the
    /// walk goes on through are the seed, visited or waiting; the others are
    /// among the requests found.
    pub open spec fn covered(
        &self,
        stop: bool,
        seed: Edge,
        visited: Seq<Edge>,
        waiting: Seq<Edge>,
        requests: Seq<Edge>,
        a: Edge,
    ) -> bool {
        self.direct_effects(a) is Some && forall|k: int|
            0 <= k < self.direct_effects(a).unwrap().len() ==> {
                let x = #[trigger] self.direct_effects(a).unwrap()[k];
                if passable(stop, x) {
                    accounted(seed, visited, waiting, x)
                } else {
                    requests.contains(x)
                }
            }
    }

    /// A direct effect is an effect.
    pub proof fn lemma_reach_one(&self, a: Edge, b: Edge)
        requires
            self.causes(a, b),
        ensures
            self.reaches(a, b),
    {
        let path = seq![a, b];
        assert(self.is_chain(path));
        assert(path.first() == a && path.last() == b);
    }

    /// A direct effect of an effect is an effect.
    pub proof fn lemma_reach_more(&self, a: Edge, b: Edge, c: Edge)
        requires
            self.reaches(a, b),
            self.causes(b, c),
        ensures
            self.reaches(a, c),
    {
        let path = choose|path: Seq<Edge>|
            path.len() >= 2 && path.first() == a && path.last() == b && #[trigger] self.is_chain(
                path,
            );
        let longer = path.push(c);
        assert forall|i: int| 0 <= i < longer.len() - 1 implies self.causes(
            #[trigger] longer[i],
            longer[i + 1],
        ) by {
            if i < path.len() - 1 {
                assert(self.causes(path[i], path[i + 1]));
            }
        }
        assert(self.is_chain(longer));
        assert(longer.first() == a && longer.last() == c);
    }

    /// An effect of an effect is an effect.
    pub proof fn lemma_reach_on(&self, a: Edge, b: Edge, c: Edge)
        requires
            self.reaches(a, b),
            self.reaches(b, c),
        ensures
            self.reaches(a, c),
    {
        let path = choose|path: Seq<Edge>|
            path.len() >= 2 && path.first() == b && path.last() == c && #[trigger] self.is_chain(
                path,
            );
        self.lemma_reach_along(a, path, path.len() - 1);
    }

    /// Where the first edge of a chain is an effect of `a`, so is each edge
    /// of the chain.
    pub proof fn lemma_reach_along(&self, a: Edge, path: Seq<Edge>, upto: int)
        requires
            self.is_chain(path),
            0 <= upto < path.len(),
            self.reaches(a, path[0]),
        ensures
            self.reaches(a, path[upto]),
        decreases upto,
    {
        if upto > 0 {
            self.lemma_reach_along(a, path, upto - 1);
            assert(self.causes(path[upto - 1], path[upto - 1 + 1]));
            self.lemma_reach_more(a, path[upto - 1], path[upto]);
        }
    }

    /// The walk goes on through a direct effect that it does not stop at.
    pub proof fn lemma_walk_one(&self, stop: bool, a: Edge, b: Edge)
        requires
            self.causes(a, b),
            passable(stop, b),
        ensures
            self.walks_to(stop, a, b),
    {
        let path = seq![a, b];
        assert(self.is_chain(path));
        assert(self.is_open_chain(stop, path));
        assert(path.first() == a && path.last() == b);
    }

    /// The walk goes on from an edge through a direct effect of it that it
    /// does not stop at.
    pub proof fn lemma_walk_more(&self, stop: bool, a: Edge, b: Edge, c: Edge)
        requires
            self.walks_to(stop, a, b),
            self.causes(b, c),
            passable(stop, c),
        ensures
            self.walks_to(stop, a, c),
    {
        let path = choose|path: Seq<Edge>|
            path.len() >= 2 && path.first() == a && path.last() == b
                && #[trigger] self.is_open_chain(stop, path);
        let longer = path.push(c);
        assert forall|i: int| 0 <= i < longer.len() - 1 implies self.causes(
            #[trigger] longer[i],
            longer[i + 1],
        ) by {
            if i < path.len() - 1 {
                assert(self.causes(path[i], path[i + 1]));
            }
        }
        assert(self.is_chain(longer));
        assert forall|i: int| 0 < i < longer.len() implies passable(stop, #[trigger] longer[i]) by {
            if i < path.len() {
                assert(passable(stop, path[i]));
            }
        }
        assert(self.is_open_chain(stop, longer));
        assert(longer.first() == a && longer.last() == c);
    }

    /// What the walk comes to is an effect; a walk that stops nowhere comes
    /// to every effect.
    pub proof fn lemma_walk_reaches(&self, stop: bool, a: Edge, b: Edge)
        ensures
            self.walks_to(stop, a, b) ==> self.reaches(a, b),
            self.reaches(a, b) ==> self.walks_to(false, a, b),
    {
        if self.walks_to(stop, a, b) {
            let path = choose|path: Seq<Edge>|
                path.len() >= 2 && path.first() == a && path.last() == b
                    && #[trigger] self.is_open_chain(stop, path);
            assert(self.is_chain(path));
        }
        if self.reaches(a, b) {
            let path = choose|path: Seq<Edge>|
                path.len() >= 2 && path.first() == a && path.last() == b && #[trigger] self.is_chain(
                    path,
                );
            assert(self.is_open_chain(false, path));
        }
    }

    /// Where the direct effects of the seed and of each visited edge are
    /// accounted for and nothing waits, every edge along a chain that the
    /// walk follows from the seed is the seed or was visited.
    pub proof fn lemma_closed(
        &self,
        stop: bool,
        seed: Edge,
        visited: Seq<Edge>,
        requests: Seq<Edge>,
        path: Seq<Edge>,
        upto: int,
    )
        requires
            self.covered(stop, seed, visited, Seq::empty(), requests, seed),
            forall|i: int|
                0 <= i < visited.len() ==> self.covered(
                    stop,
                    seed,
                    visited,
                    Seq::empty(),
                    requests,
                    #[trigger] visited[i],
                ),
            self.is_open_chain(stop, path),
            0 <= upto < path.len(),
            path[0] == seed,
        ensures
            path[upto] == seed || visited.contains(path[upto]),
        decreases upto,
    {
        if upto > 0 {
            self.lemma_closed(stop, seed, visited, requests, path, upto - 1);
            let a = path[upto - 1];
            let b = path[upto];
            assert(self.causes(path[upto - 1], path[upto - 1 + 1]));
            assert(passable(stop, path[upto]));
            let effects = self.direct_effects(a).unwrap();
            let k = choose|k: int| 0 <= k < effects.len() && effects[k] == b;
            if a == seed {
                assert(passable(stop, effects[k]));
            } else {
                let i = choose|i: int| 0 <= i < visited.len() && visited[i] == a;
                assert(self.covered(stop, seed, visited, Seq::empty(), requests, visited[i]));
                assert(passable(stop, effects[k]));
            }
        }
    }

    /// What is accounted for stays so when nothing visited, waiting or found
    /// is dropped.
    pub proof fn lemma_covered_still(
        &self,
        stop: bool,
        seed: Edge,
        visited: Seq<Edge>,
        waiting: Seq<Edge>,
        requests: Seq<Edge>,
        visited2: Seq<Edge>,
        waiting2: Seq<Edge>,
        requests2: Seq<Edge>,
        a: Edge,
    )
        requires
            self.covered(stop, seed, visited, waiting, requests, a),
            forall|x: Edge|
                visited.contains(x) || waiting.contains(x) ==> visited2.contains(x)
                    || waiting2.contains(x),
            forall|x: Edge| requests.contains(x) ==> requests2.contains(x),
        ensures
            self.covered(stop, seed, visited2, waiting2, requests2, a),
    {
        let effects = self.direct_effects(a).unwrap();
        assert forall|k: int| 0 <= k < effects.len() implies {
            let x = #[trigger] effects[k];
            if passable(stop, x) {
                accounted(seed, visited2, waiting2, x)
            } else {
                requests2.contains(x)
            }
        } by {
            let x = effects[k];
            if passable(stop, x) {
                assert(accounted(seed, visited, waiting, x));
            } else {
                assert(requests.contains(x));
            }
        }
    }

    /// Taking an edge that was visited off the stack leaves everything
    /// accounted for.
    proof fn lemma_drop_visited(
        &self,
        stop: bool,
        seed: Edge,
        seen: Seq<Edge>,
        rest: Seq<Edge>,
        requests: Seq<Edge>,
        next: Edge,
    )
        requires
            seen.contains(next),
            self.covered(stop, seed, seen, rest.push(next), requests, seed),
            forall|i: int|
                0 <= i < seen.len() ==> self.covered(
                    stop,
                    seed,
                    seen,
                    rest.push(next),
                    requests,
                    #[trigger] seen[i],
                ),
        ensures
            self.covered(stop, seed, seen, rest, requests, seed),
            forall|i: int|
                0 <= i < seen.len() ==> self.covered(
                    stop,
                    seed,
                    seen,
                    rest,
                    requests,
                    #[trigger] seen[i],
                ),
    {
        let queue = rest.push(next);
        assert forall|x: Edge| seen.contains(x) || queue.contains(x) implies seen.contains(x)
            || rest.contains(x) by {
            lemma_contains_push(rest, next, x);
        }
        self.lemma_covered_still(stop, seed, seen, queue, requests, seen, rest, requests, seed);
        assert forall|i: int| 0 <= i < seen.len() implies self.covered(
            stop,
            seed,
            seen,
            rest,
            requests,
            #[trigger] seen[i],
        ) by {
            self.lemma_covered_still(
                stop,
                seed,
                seen,
                queue,
                requests,
                seen,
                rest,
                requests,
                seen[i],
            );
        }
    }

    /// Visiting an edge from the stack, with its effects accounted for,
    /// leaves everything accounted for.
    proof fn lemma_visit(
        &self,
        stop: bool,
        seed: Edge,
        seen: Seq<Edge>,
        rest: Seq<Edge>,
        requests: Seq<Edge>,
        next: Edge,
        queue2: Seq<Edge>,
        requests2: Seq<Edge>,
    )
        requires
            self.covered(stop, seed, seen, rest.push(next), requests, seed),
            forall|i: int|
                0 <= i < seen.len() ==> self.covered(
                    stop,
                    seed,
                    seen,
                    rest.push(next),
                    requests,
                    #[trigger] seen[i],
                ),
            forall|x: Edge| rest.contains(x) ==> queue2.contains(x),
            forall|x: Edge| requests.contains(x) ==> requests2.contains(x),
            self.covered(stop, seed, seen.push(next), queue2, requests2, next),
        ensures
            self.covered(stop, seed, seen.push(next), queue2, requests2, seed),
            forall|i: int|
                0 <= i < seen.push(next).len() ==> self.covered(
                    stop,
                    seed,
                    seen.push(next),
                    queue2,
                    requests2,
                    #[trigger] seen.push(next)[i],
                ),
    {
        let queue = rest.push(next);
        let seen2 = seen.push(next);
        assert forall|x: Edge| seen.contains(x) || queue.contains(x) implies seen2.contains(x)
            || queue2.contains(x) by {
            lemma_contains_push(rest, next, x);
            lemma_contains_push(seen, next, x);
        }
        self.lemma_covered_still(stop, seed, seen, queue, requests, seen2, queue2, requests2, seed);
        assert forall|i: int| 0 <= i < seen2.len() implies self.covered(
            stop,
            seed,
            seen2,
            queue2,
            requests2,
            #[trigger] seen2[i],
        ) by {
            if i < seen.len() {
                assert(seen2[i] == seen[i]);
                self.lemma_covered_still(
                    stop,
                    seed,
                    seen,
                    queue,
                    requests,
                    seen2,
                    queue2,
                    requests2,
                    seen[i],
                );
            }
        }
    }

    /// Where all is accounted for and nothing waits, every edge that the walk
    /// goes on through is the seed or was visited.
    proof fn lemma_effect_seen(
        &self,
        stop: bool,
        seed: Edge,
        seen: Seq<Edge>,
        requests: Seq<Edge>,
        e: Edge,
    )
        requires
            self.covered(stop, seed, seen, Seq::empty(), requests, seed),
            forall|i: int|
                0 <= i < seen.len() ==> self.covered(
                    stop,
                    seed,
                    seen,
                    Seq::empty(),
                    requests,
                    #[trigger] seen[i],
                ),
            self.walks_to(stop, seed, e),
        ensures
            e == seed || seen.contains(e),
            self.direct_effects(e) is Some,
            self.covered(stop, seed, seen, Seq::empty(), requests, e),
    {
        let path = choose|path: Seq<Edge>|
            path.len() >= 2 && path.first() == seed && path.last() == e
                && #[trigger] self.is_open_chain(stop, path);
        self.lemma_closed(stop, seed, seen, requests, path, path.len() - 1);
        if e != seed {
            let i = choose|i: int| 0 <= i < seen.len() && seen[i] == e;
            assert(self.covered(stop, seed, seen, Seq::empty(), requests, seen[i]));
        }
    }

    /// Where all is accounted for and nothing waits, what was visited is what
    /// the walk goes on through, the rules gave an answer for all of it, and
    /// the requests found are those that the seed causes with no other
    /// request between.
    proof fn lemma_all_found(&self, stop: bool, seed: Edge, seen: Seq<Edge>, requests: Seq<Edge>)
        requires
            self.covered(stop, seed, seen, Seq::empty(), requests, seed),
            forall|i: int|
                0 <= i < seen.len() ==> self.covered(
                    stop,
                    seed,
                    seen,
                    Seq::empty(),
                    requests,
                    #[trigger] seen[i],
                ),
            forall|i: int|
                0 <= i < seen.len() ==> #[trigger] seen[i] != seed && self.walks_to(
                    stop,
                    seed,
                    seen[i],
                ),
            requests.len() > 0 ==> stop,
            forall|i: int|
                0 <= i < requests.len() ==> self.requests_directly(seed, #[trigger] requests[i]),
        ensures
            self.walks_through(stop, seed),
            forall|e: Edge| #[trigger]
                seen.contains(e) <==> e != seed && self.walks_to(stop, seed, e),
            forall|x: Edge| #[trigger]
                requests.contains(x) <==> (stop && self.requests_directly(seed, x)),
    {
        assert forall|e: Edge| #[trigger] self.walks_to(stop, seed, e) implies self.direct_effects(
            e,
        ) is Some by {
            self.lemma_effect_seen(stop, seed, seen, requests, e);
        }
        assert forall|e: Edge| #[trigger] seen.contains(e) implies e != seed && self.walks_to(
            stop,
            seed,
            e,
        ) by {
            let i = choose|i: int| 0 <= i < seen.len() && seen[i] == e;
            assert(seen[i] != seed);
        }
        assert forall|e: Edge| e != seed && self.walks_to(stop, seed, e) implies #[trigger] seen.contains(
            e,
        ) by {
            self.lemma_effect_seen(stop, seed, seen, requests, e);
        }
        assert forall|x: Edge| #[trigger] requests.contains(x) implies stop
            && self.requests_directly(seed, x) by {
            let i = choose|i: int| 0 <= i < requests.len() && requests[i] == x;
            assert(self.requests_directly(seed, requests[i]));
        }
        assert forall|x: Edge| stop && self.requests_directly(seed, x) implies #[trigger] requests.contains(
            x,
        ) by {
            if self.causes(seed, x) {
                let effects = self.direct_effects(seed).unwrap();
                let k = choose|k: int| 0 <= k < effects.len() && effects[k] == x;
                assert(!passable(stop, effects[k]));
            } else {
                let c = choose|c: Edge| #[trigger]
                    self.walks_to(true, seed, c) && self.causes(c, x);
                self.lemma_effect_seen(stop, seed, seen, requests, c);
                let effects = self.direct_effects(c).unwrap();
                let k = choose|k: int| 0 <= k < effects.len() && effects[k] == x;
                assert(!passable(stop, effects[k]));
            }
        }
    }

    /// Edges of the graph with distinct identifiers are no more than the
    /// graph has edges.
    pub proof fn lemma_room(&self, edges: Seq<Edge>)
        requires
            self.wf(),
            self.holds_all(edges),
            distinct_ids(edges),
        ensures
            edges.len() <= self.edges@.len(),
    {
        let places = Seq::new(edges.len(), |i: int| self.edge_index(edges[i].id));
        assert forall|i: int| 0 <= i < edges.len() implies 0 <= #[trigger] places[i]
            < self.edges@.len() && self.edges@[places[i]].id == edges[i].id by {
            assert(self.holds(edges[i]));
            self.lemma_edge_found(edges[i].id);
        }
        assert(places.no_duplicates()) by {
            assert forall|i: int, j: int|
                0 <= i < places.len() && 0 <= j < places.len() && i != j implies places[i]
                != places[j] by {
                if i < j {
                    assert(edges[i].id != edges[j].id);
                } else {
                    assert(edges[j].id != edges[i].id);
                }
            }
        }
        let within = Set::new(|x: int| 0 <= x < self.edges@.len());
        assert(within =~= vstd::set_lib::set_int_range(0, self.edges@.len() as int));
        vstd::set_lib::lemma_int_range(0, self.edges@.len() as int);
        places.unique_seq_to_set();
        assert(places.to_set().subset_of(within)) by {
            assert forall|x: int| places.to_set().contains(x) implies within.contains(x) by {
                let i = choose|i: int| 0 <= i < places.len() && places[i] == x;
                assert(0 <= places[i] < self.edges@.len());
            }
        }
        vstd::set_lib::lemma_len_subset(places.to_set(), within);
    }

    /// Sorts the effects `effects` of `cause`: a request at which the walk
    /// stops goes to the requests found; another edge goes on the stack,
    /// unless it is the seed or was visited.
    fn queue_effects<'a>(
        &'a self,
        stop: bool,
        waiting: &mut Vec<&'a Edge>,
        requests: &mut Vec<&'a Edge>,
        effects: &Vec<&'a Edge>,
        visited: &Vec<&'a Edge>,
        seed: &Edge,
        Ghost(cause): Ghost<Edge>,
    )
        requires
            self.wf(),
            self.holds(*seed),
            self.holds_all(edges_behind(visited@)),
            self.holds_all(edges_behind(old(waiting)@)),
            self.holds_all(edges_behind(old(requests)@)),
            self.direct_effects(cause) == Some(edges_behind(effects@)),
            cause == *seed || self.walks_to(stop, *seed, cause),
            forall|i: int|
                0 <= i < old(waiting)@.len() ==> *(#[trigger] old(waiting)@[i]) != *seed
                    && self.walks_to(stop, *seed, *old(waiting)@[i]),
            old(requests)@.len() > 0 ==> stop,
            forall|i: int|
                0 <= i < old(requests)@.len() ==> self.requests_directly(
                    *seed,
                    *(#[trigger] old(requests)@[i]),
                ),
        ensures
            self.holds_all(edges_behind(final(waiting)@)),
            self.holds_all(edges_behind(final(requests)@)),
            forall|i: int|
                0 <= i < final(waiting)@.len() ==> *(#[trigger] final(waiting)@[i]) != *seed
                    && self.walks_to(stop, *seed, *final(waiting)@[i]),
            final(requests)@.len() > 0 ==> stop,
            forall|i: int|
                0 <= i < final(requests)@.len() ==> self.requests_directly(
                    *seed,
                    *(#[trigger] final(requests)@[i]),
                ),
            forall|x: Edge|
                edges_behind(old(waiting)@).contains(x) ==> edges_behind(final(waiting)@).contains(
                    x,
                ),
            forall|x: Edge|
                edges_behind(old(requests)@).contains(x) ==> edges_behind(
                    final(requests)@,
                ).contains(x),
            self.covered(
                stop,
                *seed,
                edges_behind(visited@),
                edges_behind(final(waiting)@),
                edges_behind(final(requests)@),
                cause,
            ),
            queued(
                stop,
                *seed,
                edges_behind(effects@),
                edges_behind(old(waiting)@),
                edges_behind(visited@),
                edges_behind(old(requests)@),
            ) == (edges_behind(final(waiting)@), edges_behind(final(requests)@)),
    {
        let ghost all = edges_behind(effects@);
        let ghost seen = edges_behind(visited@);
        let ghost start = edges_behind(waiting@);
        let ghost start_requests = edges_behind(requests@);
        proof {
            self.lemma_effects_hold(cause);
        }
        let mut k: usize = 0;
        while k < effects.len()
            invariant
                self.wf(),
                queued(stop, *seed, all.take(k as int), start, seen, start_requests) == (
                    edges_behind(waiting@),
                    edges_behind(requests@),
                ),
                self.holds(*seed),
                k <= effects@.len(),
                all == edges_behind(effects@),
                seen == edges_behind(visited@),
                self.holds_all(all),
                self.holds_all(seen),
                self.direct_effects(cause) == Some(all),
                cause == *seed || self.walks_to(stop, *seed, cause),
                self.holds_all(edges_behind(waiting@)),
                self.holds_all(edges_behind(requests@)),
                forall|i: int|
                    0 <= i < waiting@.len() ==> *(#[trigger] waiting@[i]) != *seed
                        && self.walks_to(stop, *seed, *waiting@[i]),
                requests@.len() > 0 ==> stop,
                forall|i: int|
                    0 <= i < requests@.len() ==> self.requests_directly(
                        *seed,
                        *(#[trigger] requests@[i]),
                    ),
                forall|x: Edge| start.contains(x) ==> edges_behind(waiting@).contains(x),
                forall|x: Edge| start_requests.contains(x) ==> edges_behind(requests@).contains(x),
                forall|j: int|
                    0 <= j < k ==> {
                        let x = #[trigger] all[j];
                        if passable(stop, x) {
                            accounted(*seed, seen, edges_behind(waiting@), x)
                        } else {
                            edges_behind(requests@).contains(x)
                        }
                    },
            decreases effects@.len() - k,
        {
            let x: &Edge = effects[k];
            let ghost before = edges_behind(waiting@);
            let ghost before_requests = edges_behind(requests@);
            proof {
                assert(all[k as int] == *x);
                assert(self.holds(all[k as int]));
                assert(self.causes(cause, *x));
                assert(all.take(k + 1).drop_last() =~= all.take(k as int));
                assert(all.take(k + 1).last() == *x);
            }
            let is_request = match &x.edge_type {
                crate::types::EdgeType::RequestStart { .. } => true,
                _ => false,
            };
            if stop && is_request {
                requests.push(x);
                proof {
                    let after = edges_behind(requests@);
                    assert(after =~= before_requests.push(*x));
                    assert forall|y: Edge| before_requests.contains(y) implies after.contains(y) by {
                        lemma_contains_push(before_requests, *x, y);
                    }
                    lemma_contains_push(before_requests, *x, *x);
                    assert forall|i: int| 0 <= i < after.len() implies self.holds(
                        #[trigger] after[i],
                    ) by {
                        if i < before_requests.len() {
                            assert(after[i] == before_requests[i]);
                        }
                    }
                }
            } else {
                proof {
                    if cause == *seed {
                        self.lemma_walk_one(stop, *seed, *x);
                    } else {
                        self.lemma_walk_more(stop, *seed, cause, *x);
                    }
                }
                if x.id != seed.id {
                    if !has_id(visited, x.id) {
                        waiting.push(x);
                        proof {
                            let after = edges_behind(waiting@);
                            assert(after =~= before.push(*x));
                            assert forall|y: Edge| before.contains(y) implies after.contains(y) by {
                                lemma_contains_push(before, *x, y);
                            }
                            lemma_contains_push(before, *x, *x);
                            assert forall|i: int| 0 <= i < after.len() implies self.holds(
                                #[trigger] after[i],
                            ) by {
                                if i < before.len() {
                                    assert(after[i] == before[i]);
                                }
                            }
                        }
                    } else {
                        proof {
                            let i = choose|i: int|
                                0 <= i < visited@.len() && (#[trigger] visited@[i]).id == x.id;
                            assert(seen[i] == *visited@[i]);
                            assert(self.holds(seen[i]));
                            assert(seen[i] == *x);
                        }
                    }
                }
            }
            proof {
                let after = edges_behind(waiting@);
                let after_requests = edges_behind(requests@);
                assert forall|j: int| 0 <= j < k + 1 implies {
                    let y = #[trigger] all[j];
                    if passable(stop, y) {
                        accounted(*seed, seen, after, y)
                    } else {
                        after_requests.contains(y)
                    }
                } by {
                    let y = all[j];
                    if j < k {
                        if passable(stop, y) {
                            assert(accounted(*seed, seen, before, y));
                        } else {
                            assert(before_requests.contains(y));
                        }
                    }
                }
            }
            k = k + 1;
        }
        assert(all.take(k as int) =~= all);
    }

    /// Walks from `edge` along direct effects. A walk that stops at requests
    /// does not go on through a request that was sent, but notes it. Gives
    /// the edges that the walk went on through, each once and without
    /// `edge`, and the requests noted; nothing where the rules have no answer
    /// for an edge on the way.
    pub(crate) fn walk<'a>(&'a self, edge: &'a Edge, stop: bool) -> (found: Option<
        (Vec<&'a Edge>, Vec<&'a Edge>),
    >)
        requires
            self.wf(),
            self.holds(*edge),
        ensures
            match found {
                Some((visited, requests)) => {
                    &&& self.walked(stop, *edge) == Some(
                        (edges_behind(visited@), edges_behind(requests@)),
                    )
                    &&& self.walks_through(stop, *edge)
                    &&& distinct_ids(edges_behind(visited@))
                    &&& self.holds_all(edges_behind(visited@))
                    &&& self.holds_all(edges_behind(requests@))
                    &&& forall|e: Edge| #[trigger]
                        edges_behind(visited@).contains(e) <==> e != *edge && self.walks_to(
                            stop,
                            *edge,
                            e,
                        )
                    &&& forall|x: Edge| #[trigger]
                        edges_behind(requests@).contains(x) <==> (stop && self.requests_directly(
                            *edge,
                            x,
                        ))
                },
                None => !self.walks_through(stop, *edge) && self.walked(stop, *edge) is None,
            },
    {
        let first = match self.try_direct_downstream_effects_of(edge) {
            Some(first) => first,
            None => {
                return None;
            },
        };
        let mut visited: Vec<&'a Edge> = Vec::new();
        let mut waiting: Vec<&'a Edge> = Vec::new();
        let mut requests: Vec<&'a Edge> = Vec::new();
        assert(edges_behind(visited@) =~= Seq::<Edge>::empty());
        assert(edges_behind(waiting@) =~= Seq::<Edge>::empty());
        assert(edges_behind(requests@) =~= Seq::<Edge>::empty());
        self.queue_effects(stop, &mut waiting, &mut requests, &first, &visited, edge, Ghost(*edge));
        while waiting.len() > 0
            invariant
                self.wf(),
                self.holds(*edge),
                self.walked(stop, *edge) == self.walk_on(
                    stop,
                    *edge,
                    edges_behind(waiting@),
                    edges_behind(visited@),
                    edges_behind(requests@),
                ),
                self.direct_effects(*edge) is Some,
                visited@.len() <= self.edges@.len(),
                self.holds_all(edges_behind(visited@)),
                self.holds_all(edges_behind(waiting@)),
                self.holds_all(edges_behind(requests@)),
                distinct_ids(edges_behind(visited@)),
                forall|i: int|
                    0 <= i < waiting@.len() ==> *(#[trigger] waiting@[i]) != *edge
                        && self.walks_to(stop, *edge, *waiting@[i]),
                forall|i: int|
                    0 <= i < visited@.len() ==> *(#[trigger] visited@[i]) != *edge
                        && self.walks_to(stop, *edge, *visited@[i]),
                requests@.len() > 0 ==> stop,
                forall|i: int|
                    0 <= i < requests@.len() ==> self.requests_directly(
                        *edge,
                        *(#[trigger] requests@[i]),
                    ),
                self.covered(
                    stop,
                    *edge,
                    edges_behind(visited@),
                    edges_behind(waiting@),
                    edges_behind(requests@),
                    *edge,
                ),
                forall|i: int|
                    0 <= i < visited@.len() ==> self.covered(
                        stop,
                        *edge,
                        edges_behind(visited@),
                        edges_behind(waiting@),
                        edges_behind(requests@),
                        #[trigger] edges_behind(visited@)[i],
                    ),
            decreases self.edges@.len() - visited@.len(), waiting@.len(),
        {
            let ghost seen = edges_behind(visited@);
            let ghost queue = edges_behind(waiting@);
            let ghost noted = edges_behind(requests@);
            let next: &'a Edge = waiting.pop().unwrap();
            let ghost rest = edges_behind(waiting@);
            proof {
                assert(queue =~= rest.push(*next));
                assert(queue.last() == *next);
                assert(queue.drop_last() =~= rest);
                assert(queue[queue.len() - 1] == *next);
                assert(self.holds(queue[queue.len() - 1]));
                assert forall|i: int| 0 <= i < rest.len() implies self.holds(#[trigger] rest[i]) by {
                    assert(rest[i] == queue[i]);
                }
            }
            if has_id(&visited, next.id) {
                proof {
                    let i = choose|i: int|
                        0 <= i < visited@.len() && (#[trigger] visited@[i]).id == next.id;
                    assert(seen[i] == *visited@[i]);
                    assert(self.holds(seen[i]));
                    assert(seen[i] == *next);
                    self.lemma_drop_visited(stop, *edge, seen, rest, noted, *next);
                }
            } else {
                let found = match self.try_direct_downstream_effects_of(next) {
                    Some(found) => found,
                    None => {
                        return None;
                    },
                };
                visited.push(next);
                let ghost seen2 = edges_behind(visited@);
                proof {
                    assert(seen2 =~= seen.push(*next));
                    assert forall|i: int| 0 <= i < seen2.len() implies self.holds(
                        #[trigger] seen2[i],
                    ) by {
                        if i < seen.len() {
                            assert(seen2[i] == seen[i]);
                        }
                    }
                    assert forall|i: int, j: int| 0 <= i < j < seen2.len() implies (
                    #[trigger] seen2[i]).id != (#[trigger] seen2[j]).id by {
                        if j < seen.len() {
                            assert(seen[i].id != seen[j].id);
                        } else {
                            assert(seen[i] == *visited@[i]);
                        }
                    }
                    self.lemma_room(seen2);
                }
                self.queue_effects(
                    stop,
                    &mut waiting,
                    &mut requests,
                    &found,
                    &visited,
                    edge,
                    Ghost(*next),
                );
                proof {
                    self.lemma_visit(
                        stop,
                        *edge,
                        seen,
                        rest,
                        noted,
                        *next,
                        edges_behind(waiting@),
                        edges_behind(requests@),
                    );
                }
            }
        }
        proof {
            let seen = edges_behind(visited@);
            assert(edges_behind(waiting@) =~= Seq::<Edge>::empty());
            assert forall|i: int| 0 <= i < seen.len() implies #[trigger] seen[i] != *edge
                && self.walks_to(stop, *edge, seen[i]) by {
                assert(seen[i] == *visited@[i]);
            }
            let noted = edges_behind(requests@);
            assert forall|i: int| 0 <= i < noted.len() implies stop && self.requests_directly(
                *edge,
                #[trigger] noted[i],
            ) by {
                assert(noted[i] == *requests@[i]);
            }
            self.lemma_all_found(stop, *edge, seen, noted);
        }
        Some((visited, requests))
    }

    /// A walk that stops nowhere goes through exactly the effects.
    pub proof fn lemma_walk_everywhere(&self, seed: Edge)
        ensures
            self.walks_through(false, seed) == self.follows_through(seed),
            forall|e: Edge| #[trigger] self.walks_to(false, seed, e) == self.reaches(seed, e),
    {
        assert forall|e: Edge| #[trigger] self.walks_to(false, seed, e) == self.reaches(
            seed,
            e,
        ) by {
            self.lemma_walk_reaches(false, seed, e);
        }
        if self.walks_through(false, seed) {
            assert forall|e: Edge| #[trigger] self.reaches(seed, e) implies self.direct_effects(
                e,
            ) is Some by {
                assert(self.walks_to(false, seed, e));
            }
        }
        if self.follows_through(seed) {
            assert forall|e: Edge| #[trigger]
                self.walks_to(false, seed, e) implies self.direct_effects(e) is Some by {
                assert(self.reaches(seed, e));
            }
        }
    }

    /// Everything that `edge` causes, if the rules give an answer for it and
    /// for each of its effects: each edge downstream of it, once.
    pub fn try_all_downstream_effects_of<'a>(&'a self, edge: &'a Edge) -> (effects: Option<
        Vec<&'a Edge>,
    >)
        requires
            self.wf(),
            self.holds(*edge),
        ensures
            match effects {
                Some(found) => {
                    &&& self.downstream_in_order(*edge) == Some(edges_behind(found@))
                    &&& self.follows_through(*edge)
                    &&& distinct_ids(edges_behind(found@))
                    &&& forall|e: Edge| #[trigger]
                        edges_behind(found@).contains(e) <==> self.is_downstream(*edge, e)
                },
                None => !self.follows_through(*edge) && self.downstream_in_order(*edge) is None,
            },
    {
        proof {
            self.lemma_walk_everywhere(*edge);
        }
        match self.walk(edge, false) {
            Some((visited, _)) => Some(visited),
            None => None,
        }
    }

    /// Everything that `edge` causes, directly or through what it causes:
    /// each edge downstream of it, once, and never `edge` itself.
    pub fn all_downstream_effects_of<'a>(&'a self, edge: &'a Edge) -> (effects: Vec<&'a Edge>)
        requires
            self.wf(),
            self.holds(*edge),
            self.follows_through(*edge),
        ensures
            self.downstream_in_order(*edge) == Some(edges_behind(effects@)),
            distinct_ids(edges_behind(effects@)),
            forall|e: Edge| #[trigger]
                edges_behind(effects@).contains(e) <==> self.is_downstream(*edge, e),
    {
        self.try_all_downstream_effects_of(edge).unwrap()
    }

    /// What is downstream of an edge does not hold the edge itself, and it is
    /// closed: a direct effect of an edge downstream is downstream too, or is
    /// the edge itself; so what is downstream of an edge downstream is
    /// downstream, or is the edge itself.
    pub proof fn lemma_downstream_is_closed(&self, seed: Edge, e: Edge, x: Edge)
        requires
            self.is_downstream(seed, e),
        ensures
            !self.is_downstream(seed, seed),
            self.causes(e, x) ==> x == seed || self.is_downstream(seed, x),
            self.is_downstream(e, x) ==> x == seed || self.is_downstream(seed, x),
    {
        if self.causes(e, x) {
            self.lemma_reach_more(seed, e, x);
        }
        if self.is_downstream(e, x) {
            self.lemma_reach_on(seed, e, x);
        }
    }
}

} // verus!
