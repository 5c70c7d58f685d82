//! Questions about single nodes: how an element was changed, how a resource
//! was asked for, which resources a script asked for.

use crate::effects::{all_timed, is_script_element, script_element};
use crate::graph::{edges_behind, nodes_behind, Edge, Node, PageGraph};
use crate::ids::{EdgeId, NodeId};
use crate::order::{lemma_order_of, order_of, sort_order};
use crate::select::{lemma_picked, pick_edges, picked, EdgeWanted};
use crate::text::{parse_usize, same_text, usize_value};
use crate::types::{request_type_label, EdgeType, NodeType};
use vstd::prelude::*;

verus! {

/// When an edge happened, as a key to order by; zero for an edge without a
/// time.
pub open spec fn time_key(edge: Edge) -> int {
    match edge.edge_timestamp {
        Some(at) => at as int,
        None => 0,
    }
}

/// The times of the edges, as keys.
pub open spec fn time_keys(edges: Seq<Edge>) -> Seq<int> {
    Seq::new(edges.len(), |i: int| time_key(edges[i]))
}

/// The edges in the order `order` of their places.
pub open spec fn arranged_edges(edges: Seq<Edge>, order: Seq<int>) -> Seq<Edge> {
    Seq::new(order.len(), |i: int| edges[order[i]])
}

/// The edges in the order of their times; edges of one time keep their
/// order.
pub open spec fn by_time(edges: Seq<Edge>) -> Seq<Edge> {
    arranged_edges(edges, order_of(time_keys(edges)))
}

/// The size that the first answer to the request `request_id` among the
/// edges from `from` on gives: nothing where there is no answer, or where the
/// answer does not give its size as a number.
pub open spec fn completed_size(edges: Seq<Edge>, request_id: usize, from: int) -> Option<usize>
    decreases edges.len() - from,
{
    if from < 0 || from >= edges.len() {
        None
    } else {
        match edges[from].edge_type {
            EdgeType::RequestComplete { request_id: answered, size, .. } => if answered
                == request_id {
                usize_value(size@)
            } else {
                completed_size(edges, request_id, from + 1)
            },
            _ => completed_size(edges, request_id, from + 1),
        }
    }
}

/// How a request asked for a resource: the label of its kind, and the size
/// of what came back.
pub type RequestKind = (Seq<char>, Option<usize>);

/// The kinds without those that came before.
pub open spec fn without_repeats(kinds: Seq<RequestKind>) -> Seq<RequestKind>
    decreases kinds.len(),
{
    if kinds.len() == 0 {
        Seq::empty()
    } else if without_repeats(kinds.drop_last()).contains(kinds.last()) {
        without_repeats(kinds.drop_last())
    } else {
        without_repeats(kinds.drop_last()).push(kinds.last())
    }
}

/// What the pairs of a label and a size say, the labels as texts.
pub open spec fn kinds_of(found: Seq<(String, Option<usize>)>) -> Seq<RequestKind> {
    Seq::new(found.len(), |i: int| (found[i].0@, found[i].1))
}

/// The pairs of an identifier and a node, as nodes.
pub open spec fn nodes_listed(found: Seq<(NodeId, &Node)>) -> Seq<Node> {
    Seq::new(found.len(), |i: int| *found[i].1)
}

/// The nodes of `nodes` that are resources, in their order.
pub open spec fn resources_among(nodes: Seq<Node>) -> Seq<Node> {
    nodes.filter(|node: Node| node.node_type is Resource)
}

/// The nodes of `nodes` that are scripts, in their order.
pub open spec fn scripts_among(nodes: Seq<Node>) -> Seq<Node> {
    nodes.filter(|node: Node| node.node_type is Script)
}

impl PageGraph {
    /// How the requests `starts` asked for their resource, one kind for each.
    pub open spec fn request_kinds(&self, starts: Seq<Edge>) -> Seq<RequestKind> {
        Seq::new(
            starts.len(),
            |i: int|
                match starts[i].edge_type {
                    EdgeType::RequestStart { request_type, request_id, .. } => (
                        request_type_label(request_type),
                        completed_size(self.edges@, request_id, 0),
                    ),
                    _ => ("other"@, None),
                },
        )
    }

    /// How the resource `id` was asked for: the kinds of the requests that
    /// enter it, each once; where no request enters it, the one kind `other`
    /// without a size.
    pub open spec fn request_types_of(&self, id: NodeId) -> Seq<RequestKind> {
        let kinds = without_repeats(
            self.request_kinds(picked(self.incoming(id), EdgeWanted::RequestStart)),
        );
        if kinds.len() == 0 {
            seq![("other"@, None)]
        } else {
            kinds
        }
    }

    /// What was done to the element `id`, in the order of time: the edges
    /// that enter it, but for those of structure. Nothing where `id` is no
    /// element of the graph, or where one of the edges has no time.
    pub open spec fn modifications_of(&self, id: NodeId) -> Option<Seq<Edge>> {
        let changes = picked(self.incoming(id), EdgeWanted::Modification);
        if self.has_node(id) && self.node_at(id).node_type is HtmlElement && all_timed(changes) {
            Some(by_time(changes))
        } else {
            None
        }
    }

    /// The resources that the resources next to `nodes` are: for each of the
    /// scripts among `nodes` in turn, the resources that it points at.
    pub open spec fn resources_of_scripts(&self, scripts: Seq<Node>) -> Seq<Node>
        decreases scripts.len(),
    {
        if scripts.len() == 0 {
            Seq::empty()
        } else {
            self.resources_of_scripts(scripts.drop_last()) + resources_among(
                self.neighbors_of(scripts.last().id, true),
            )
        }
    }

    /// The resources that the script `id` asked for: those that it points
    /// at and, for a `script` element, those that the scripts it points at
    /// point at. Nothing where `id` is neither a script nor a `script`
    /// element of the graph.
    pub open spec fn resources_of(&self, id: NodeId) -> Option<Seq<Node>> {
        if !self.has_node(id) {
            None
        } else {
            let near = self.neighbors_of(id, true);
            if self.node_at(id).node_type is Script {
                Some(resources_among(near))
            } else if is_script_element(self.node_at(id)) {
                Some(resources_among(near) + self.resources_of_scripts(scripts_among(near)))
            } else {
                None
            }
        }
    }

    /// Whether a node is a document root that no edge enters.
    pub open spec fn is_entered_by_none(&self, node: Node) -> bool {
        node.node_type is DomRoot && self.incoming(node.id).len() == 0
    }

    /// The document roots that no edge enters.
    pub open spec fn roots_entered_by_none(&self) -> Seq<Node> {
        self.nodes@.filter(|node: Node| self.is_entered_by_none(node))
    }

    /// The address of the one document root that no edge enters: where the
    /// graph does not say for itself which page it was recorded from, this
    /// is the page. Nothing where there is not exactly one such root, or
    /// where it has no address.
    pub open spec fn top_document_url(&self) -> Option<Seq<char>> {
        if self.roots_entered_by_none().len() == 1 {
            match self.roots_entered_by_none()[0].node_type {
                NodeType::DomRoot { url, .. } => match url {
                    Some(u) => Some(u@),
                    None => None,
                },
                _ => None,
            }
        } else {
            None
        }
    }

    /// The address of the one document root that no edge enters.
    pub fn root_url_of_top_document(&self) -> (url: Option<String>)
        requires
            self.wf(),
        ensures
            match url {
                Some(u) => self.top_document_url() == Some(u@),
                None => self.top_document_url() is None,
            },
    {
        let ghost all = self.nodes@;
        let ghost pred = |node: Node| self.is_entered_by_none(node);
        let mut found: Vec<&Node> = Vec::new();
        let mut i: usize = 0;
        assert(all.take(0).filter(pred) =~= Seq::<Node>::empty()) by {
            reveal(Seq::filter);
        }
        while i < self.nodes.len()
            invariant
                self.wf(),
                i <= self.nodes@.len(),
                all == self.nodes@,
                pred == |node: Node| self.is_entered_by_none(node),
                nodes_behind(found@) =~= all.take(i as int).filter(pred),
            decreases self.nodes@.len() - i,
        {
            let node: &Node = &self.nodes[i];
            proof {
                assert(all.take(i + 1) =~= all.take(i as int).push(*node));
                all.take(i as int).lemma_filter_push(*node, pred);
            }
            let is_root = match &node.node_type {
                NodeType::DomRoot { .. } => true,
                _ => false,
            };
            if is_root {
                let entering = self.incoming_edges(node);
                assert(edges_behind(entering@).len() == entering@.len());
                if entering.len() == 0 {
                    let ghost before = found@;
                    found.push(node);
                    assert(nodes_behind(found@) =~= nodes_behind(before).push(*node));
                }
            }
            i = i + 1;
        }
        assert(all.take(i as int) =~= all);
        if found.len() != 1 {
            return None;
        }
        assert(nodes_behind(found@)[0] == *found@[0]);
        match &found[0].node_type {
            NodeType::DomRoot { url, .. } => match url {
                Some(u) => Some(u.clone()),
                None => None,
            },
            _ => None,
        }
    }

    /// The address of the page that the graph was recorded from.
    pub fn root_url(&self) -> (url: String)
        ensures
            url@ == self.desc.url@,
    {
        self.desc.url.clone()
    }

    /// The size that the first answer to the request `request_id` gives.
    fn find_completed_size(&self, request_id: usize) -> (size: Option<usize>)
        ensures
            size == completed_size(self.edges@, request_id, 0),
    {
        let mut i: usize = 0;
        while i < self.edges.len()
            invariant
                i <= self.edges@.len(),
                completed_size(self.edges@, request_id, 0) == completed_size(
                    self.edges@,
                    request_id,
                    i as int,
                ),
            decreases self.edges@.len() - i,
        {
            match &self.edges[i].edge_type {
                EdgeType::RequestComplete { request_id: answered, size, .. } => {
                    if *answered == request_id {
                        return parse_usize(size.as_str());
                    }
                },
                _ => {},
            }
            i = i + 1;
        }
        None
    }

    /// How the resource `resource_node` was asked for, if it is a resource
    /// of the graph.
    pub fn try_resource_request_types(&self, resource_node: &NodeId) -> (found: Option<
        Vec<(String, Option<usize>)>,
    >)
        requires
            self.wf(),
        ensures
            match found {
                Some(kinds) => self.has_node(*resource_node) && self.node_at(
                    *resource_node,
                ).node_type is Resource && kinds_of(kinds@) == self.request_types_of(
                    *resource_node,
                ),
                None => !(self.has_node(*resource_node) && self.node_at(
                    *resource_node,
                ).node_type is Resource),
            },
    {
        let node = match self.node(*resource_node) {
            Some(node) => node,
            None => {
                return None;
            },
        };
        match &node.node_type {
            NodeType::Resource { .. } => {},
            _ => {
                return None;
            },
        }
        let starts = pick_edges(&self.incoming_edges(node), &EdgeWanted::RequestStart);
        let ghost all = self.request_kinds(edges_behind(starts@));
        let mut kinds: Vec<(String, Option<usize>)> = Vec::new();
        let mut i: usize = 0;
        assert(kinds_of(kinds@) =~= without_repeats(all.take(0)));
        while i < starts.len()
            invariant
                i <= starts@.len(),
                all == self.request_kinds(edges_behind(starts@)),
                kinds_of(kinds@) == without_repeats(all.take(i as int)),
            decreases starts@.len() - i,
        {
            let start: &Edge = starts[i];
            assert(edges_behind(starts@)[i as int] == *start);
            let (label, size): (&str, Option<usize>) = match &start.edge_type {
                EdgeType::RequestStart { request_type, request_id, .. } => (
                    request_type.as_str(),
                    self.find_completed_size(*request_id),
                ),
                _ => ("other", None),
            };
            proof {
                assert(all.take(i + 1).drop_last() =~= all.take(i as int));
                assert(all.take(i + 1).last() == (label@, size));
            }
            let mut known = false;
            let mut j: usize = 0;
            while j < kinds.len()
                invariant
                    j <= kinds@.len(),
                    known == exists|k: int|
                        0 <= k < j && (#[trigger] kinds_of(kinds@)[k]) == (label@, size),
                decreases kinds@.len() - j,
            {
                let same_size = match (kinds[j].1, size) {
                    (Some(a), Some(b)) => a == b,
                    (None, None) => true,
                    _ => false,
                };
                if same_text(kinds[j].0.as_str(), label) && same_size {
                    assert(kinds_of(kinds@)[j as int] == (label@, size));
                    known = true;
                }
                j = j + 1;
            }
            if !known {
                let ghost before = kinds_of(kinds@);
                kinds.push((label.to_owned(), size));
                assert(kinds_of(kinds@) =~= before.push((label@, size)));
            }
            i = i + 1;
        }
        assert(all.take(i as int) =~= all);
        if kinds.len() == 0 {
            kinds.push(("other".to_owned(), None));
            assert(kinds_of(kinds@) =~= seq![("other"@, None::<usize>)]);
        }
        Some(kinds)
    }

    /// How the resource `resource_node` was asked for: the kind of each
    /// request that enters it, with the size of what came back.
    pub fn resource_request_types(&self, resource_node: &NodeId) -> (kinds: Vec<
        (String, Option<usize>),
    >)
        requires
            self.wf(),
            self.has_node(*resource_node),
            self.node_at(*resource_node).node_type is Resource,
        ensures
            kinds_of(kinds@) == self.request_types_of(*resource_node),
    {
        self.try_resource_request_types(resource_node).unwrap()
    }

    /// What was done to the element `node_id`, in the order of time, if it
    /// is an element of the graph and all that was done to it has a time.
    pub fn try_all_html_element_modifications(&self, node_id: NodeId) -> (found: Option<
        Vec<(&EdgeId, &Edge)>,
    >)
        requires
            self.wf(),
        ensures
            match found {
                Some(changes) => self.modifications_of(node_id) == Some(
                    Seq::new(changes@.len(), |i: int| *changes@[i].1),
                ) && forall|i: int|
                    0 <= i < changes@.len() ==> *(#[trigger] changes@[i]).0 == changes@[i].1.id,
                None => self.modifications_of(node_id) is None,
            },
    {
        let node = match self.node(node_id) {
            Some(node) => node,
            None => {
                return None;
            },
        };
        match &node.node_type {
            NodeType::HtmlElement { .. } => {},
            _ => {
                return None;
            },
        }
        let changes = pick_edges(&self.incoming_edges(node), &EdgeWanted::Modification);
        let ghost all = edges_behind(changes@);
        let mut keys: Vec<i128> = Vec::new();
        let mut i: usize = 0;
        while i < changes.len()
            invariant
                i <= changes@.len(),
                all == edges_behind(changes@),
                all == picked(self.incoming(node_id), EdgeWanted::Modification),
                self.has_node(node_id),
                self.node_at(node_id).node_type is HtmlElement,
                keys@.len() == i,
                all_timed(all.take(i as int)),
                forall|x: int| 0 <= x < i ==> (#[trigger] keys@[x]) as int == time_key(all[x]),
            decreases changes@.len() - i,
        {
            let edge: &Edge = changes[i];
            assert(all[i as int] == *edge);
            match edge.edge_timestamp {
                Some(at) => {
                    keys.push(at as i128);
                },
                None => {
                    return None;
                },
            }
            proof {
                assert forall|x: int| 0 <= x < i + 1 implies (#[trigger] all.take(
                    i + 1,
                )[x]).edge_timestamp is Some by {
                    if x < i {
                        assert(all.take(i as int)[x] == all.take(i + 1)[x]);
                    }
                }
            }
            i = i + 1;
        }
        assert(all.take(i as int) =~= all);
        let ghost int_keys = keys@.map_values(|k: i128| k as int);
        assert(int_keys =~= time_keys(all));
        let order = sort_order(&keys);
        let ghost int_order = order@.map_values(|x: usize| x as int);
        let mut found: Vec<(&EdgeId, &Edge)> = Vec::new();
        let mut k: usize = 0;
        while k < order.len()
            invariant
                k <= order@.len(),
                all == edges_behind(changes@),
                order@.len() == changes@.len(),
                keys@.len() == changes@.len(),
                int_order == order@.map_values(|x: usize| x as int),
                forall|i: int| 0 <= i < order@.len() ==> (#[trigger] order@[i]) < keys@.len(),
                found@.len() == k,
                forall|x: int|
                    0 <= x < k ==> *(#[trigger] found@[x]).1 == all[int_order[x]] && *found@[x].0
                        == found@[x].1.id,
            decreases order@.len() - k,
        {
            let place = order[k];
            assert(int_order[k as int] == place);
            let edge: &Edge = changes[place];
            assert(all[place as int] == *edge);
            found.push((&edge.id, edge));
            k = k + 1;
        }
        assert(Seq::new(found@.len(), |i: int| *found@[i].1) =~= by_time(all));
        Some(found)
    }

    /// What was done to the element `node_id`, in the order of time: one
    /// edge for each time that the element was created, inserted or changed.
    pub fn all_html_element_modifications(&self, node_id: NodeId) -> (changes: Vec<
        (&EdgeId, &Edge),
    >)
        requires
            self.wf(),
            self.modifications_of(node_id) is Some,
        ensures
            self.modifications_of(node_id) == Some(
                Seq::new(changes@.len(), |i: int| *changes@[i].1),
            ),
            forall|i: int|
                0 <= i < changes@.len() ==> *(#[trigger] changes@[i]).0 == changes@[i].1.id,
    {
        self.try_all_html_element_modifications(node_id).unwrap()
    }

    /// What was done to an element comes in the order of time, holds no edge
    /// of structure, and holds each edge that enters the element and is none
    /// of structure as often as it enters.
    pub proof fn lemma_modifications_ordered(&self, id: NodeId)
        requires
            self.modifications_of(id) is Some,
        ensures
            forall|i: int, j: int|
                0 <= i <= j < self.modifications_of(id).unwrap().len() ==> (
                #[trigger] self.modifications_of(id).unwrap()[i]).edge_timestamp.unwrap() <= (
                #[trigger] self.modifications_of(id).unwrap()[j]).edge_timestamp.unwrap(),
            forall|i: int|
                0 <= i < self.modifications_of(id).unwrap().len() ==> !((
                #[trigger] self.modifications_of(id).unwrap()[i]).edge_type is Structure)
                    && self.incoming(id).contains(self.modifications_of(id).unwrap()[i]),
            self.modifications_of(id).unwrap().len() == picked(
                self.incoming(id),
                EdgeWanted::Modification,
            ).len(),
    {
        let changes = picked(self.incoming(id), EdgeWanted::Modification);
        let keys = time_keys(changes);
        let order = order_of(keys);
        let sorted = self.modifications_of(id).unwrap();
        lemma_order_of(keys);
        assert forall|i: int, j: int| 0 <= i <= j < sorted.len() implies (
        #[trigger] sorted[i]).edge_timestamp.unwrap() <= (
        #[trigger] sorted[j]).edge_timestamp.unwrap() by {
            assert(keys[order[i]] <= keys[order[j]]);
            assert(changes[order[i]].edge_timestamp is Some);
            assert(changes[order[j]].edge_timestamp is Some);
        }
        assert forall|i: int| 0 <= i < sorted.len() implies !((
        #[trigger] sorted[i]).edge_type is Structure) && self.incoming(id).contains(sorted[i]) by {
            lemma_picked(self.incoming(id), EdgeWanted::Modification, order[i]);
        }
    }

    /// The nodes that point at the resource `node_id`, if it is a resource
    /// of the graph.
    pub fn try_scripts_that_caused_resource(&self, node_id: NodeId) -> (found: Option<
        Vec<(NodeId, &Node)>,
    >)
        requires
            self.wf(),
        ensures
            match found {
                Some(causes) => self.has_node(node_id) && self.node_at(
                    node_id,
                ).node_type is Resource && nodes_listed(causes@) == self.neighbors_of(
                    node_id,
                    false,
                ) && forall|i: int|
                    0 <= i < causes@.len() ==> (#[trigger] causes@[i]).0 == causes@[i].1.id,
                None => !(self.has_node(node_id) && self.node_at(node_id).node_type is Resource),
            },
    {
        let node = match self.node(node_id) {
            Some(node) => node,
            None => {
                return None;
            },
        };
        match &node.node_type {
            NodeType::Resource { .. } => {},
            _ => {
                return None;
            },
        }
        let near = self.incoming_neighbors(node);
        Some(listed(&near))
    }

    /// The nodes that point at the resource `node_id`: what asked for it.
    pub fn scripts_that_caused_resource(&self, node_id: NodeId) -> (causes: Vec<(NodeId, &Node)>)
        requires
            self.wf(),
            self.has_node(node_id),
            self.node_at(node_id).node_type is Resource,
        ensures
            nodes_listed(causes@) == self.neighbors_of(node_id, false),
            forall|i: int| 0 <= i < causes@.len() ==> (#[trigger] causes@[i]).0 == causes@[i].1.id,
    {
        self.try_scripts_that_caused_resource(node_id).unwrap()
    }

    /// The resources that the script `node_id` asked for, if it is a script
    /// or a `script` element of the graph.
    pub fn try_resources_from_script(&self, node_id: NodeId) -> (found: Option<
        Vec<(NodeId, &Node)>,
    >)
        requires
            self.wf(),
        ensures
            match found {
                Some(resources) => self.resources_of(node_id) == Some(nodes_listed(resources@))
                    && forall|i: int|
                    0 <= i < resources@.len() ==> (#[trigger] resources@[i]).0
                        == resources@[i].1.id,
                None => self.resources_of(node_id) is None,
            },
    {
        let node = match self.node(node_id) {
            Some(node) => node,
            None => {
                return None;
            },
        };
        let is_script = match &node.node_type {
            NodeType::Script { .. } => true,
            _ => false,
        };
        if !is_script && !script_element(node) {
            return None;
        }
        let near = self.outgoing_neighbors(node);
        let mut resources = pick_resources(&near);
        if !is_script {
            let scripts = pick_scripts(&near);
            let ghost all = nodes_behind(scripts@);
            let ghost first = nodes_behind(resources@);
            let mut i: usize = 0;
            assert(first + self.resources_of_scripts(all.take(0)) =~= first);
            while i < scripts.len()
                invariant
                    self.wf(),
                    i <= scripts@.len(),
                    all == nodes_behind(scripts@),
                    nodes_behind(resources@) == first + self.resources_of_scripts(
                        all.take(i as int),
                    ),
                decreases scripts@.len() - i,
            {
                let script: &Node = scripts[i];
                proof {
                    assert(all.take(i + 1).drop_last() =~= all.take(i as int));
                    assert(all.take(i + 1).last() == *script);
                }
                let mut more = pick_resources(&self.outgoing_neighbors(script));
                let ghost before = nodes_behind(resources@);
                let ghost added = nodes_behind(more@);
                let ghost old_resources = resources@;
                let ghost old_more = more@;
                resources.append(&mut more);
                assert(nodes_behind(resources@) =~= before + added) by {
                    assert forall|x: int| 0 <= x < resources@.len() implies nodes_behind(
                        resources@,
                    )[x] == (before + added)[x] by {
                        if x < old_resources.len() {
                            assert(before[x] == *old_resources[x]);
                        } else {
                            assert(added[x - old_resources.len()] == *old_more[x
                                - old_resources.len()]);
                        }
                    }
                }
                assert(first + (self.resources_of_scripts(all.take(i as int)) + added) =~= (first
                    + self.resources_of_scripts(all.take(i as int))) + added);
                i = i + 1;
            }
            assert(all.take(i as int) =~= all);
        }
        let found = listed(&resources);
        Some(found)
    }

    /// The resources that the script `node_id` asked for.
    pub fn resources_from_script(&self, node_id: NodeId) -> (resources: Vec<(NodeId, &Node)>)
        requires
            self.wf(),
            self.resources_of(node_id) is Some,
        ensures
            self.resources_of(node_id) == Some(nodes_listed(resources@)),
            forall|i: int|
                0 <= i < resources@.len() ==> (#[trigger] resources@[i]).0 == resources@[i].1.id,
    {
        self.try_resources_from_script(node_id).unwrap()
    }
}

/// Each node with its identifier.
pub fn listed<'a>(nodes: &Vec<&'a Node>) -> (found: Vec<(NodeId, &'a Node)>)
    ensures
        nodes_listed(found@) == nodes_behind(nodes@),
        forall|i: int| 0 <= i < found@.len() ==> (#[trigger] found@[i]).0 == found@[i].1.id,
{
    let mut found: Vec<(NodeId, &'a Node)> = Vec::new();
    let mut i: usize = 0;
    while i < nodes.len()
        invariant
            i <= nodes@.len(),
            found@.len() == i,
            forall|x: int|
                0 <= x < i ==> (#[trigger] found@[x]).1 == nodes@[x] && found@[x].0
                    == nodes@[x].id,
        decreases nodes@.len() - i,
    {
        let node: &'a Node = nodes[i];
        found.push((node.id, node));
        i = i + 1;
    }
    assert(nodes_listed(found@) =~= nodes_behind(nodes@));
    found
}

/// The nodes of `nodes` that are resources, in their order.
pub fn pick_resources<'a>(nodes: &Vec<&'a Node>) -> (found: Vec<&'a Node>)
    ensures
        nodes_behind(found@) == resources_among(nodes_behind(nodes@)),
{
    let ghost all = nodes_behind(nodes@);
    let ghost pred = |node: Node| node.node_type is Resource;
    let mut found: Vec<&'a Node> = Vec::new();
    let mut i: usize = 0;
    assert(all.take(0).filter(pred) =~= Seq::<Node>::empty()) by {
        reveal(Seq::filter);
    }
    while i < nodes.len()
        invariant
            i <= nodes@.len(),
            all == nodes_behind(nodes@),
            pred == |node: Node| node.node_type is Resource,
            nodes_behind(found@) =~= all.take(i as int).filter(pred),
        decreases nodes@.len() - i,
    {
        let node: &'a Node = nodes[i];
        proof {
            assert(all.take(i + 1) =~= all.take(i as int).push(*node));
            all.take(i as int).lemma_filter_push(*node, pred);
        }
        let wanted = match &node.node_type {
            NodeType::Resource { .. } => true,
            _ => false,
        };
        if wanted {
            let ghost before = found@;
            found.push(node);
            assert(nodes_behind(found@) =~= nodes_behind(before).push(*node));
        }
        i = i + 1;
    }
    assert(all.take(i as int) =~= all);
    found
}

/// The nodes of `nodes` that are scripts, in their order.
pub fn pick_scripts<'a>(nodes: &Vec<&'a Node>) -> (found: Vec<&'a Node>)
    ensures
        nodes_behind(found@) == scripts_among(nodes_behind(nodes@)),
{
    let ghost all = nodes_behind(nodes@);
    let ghost pred = |node: Node| node.node_type is Script;
    let mut found: Vec<&'a Node> = Vec::new();
    let mut i: usize = 0;
    assert(all.take(0).filter(pred) =~= Seq::<Node>::empty()) by {
        reveal(Seq::filter);
    }
    while i < nodes.len()
        invariant
            i <= nodes@.len(),
            all == nodes_behind(nodes@),
            pred == |node: Node| node.node_type is Script,
            nodes_behind(found@) =~= all.take(i as int).filter(pred),
        decreases nodes@.len() - i,
    {
        let node: &'a Node = nodes[i];
        proof {
            assert(all.take(i + 1) =~= all.take(i as int).push(*node));
            all.take(i as int).lemma_filter_push(*node, pred);
        }
        let wanted = match &node.node_type {
            NodeType::Script { .. } => true,
            _ => false,
        };
        if wanted {
            let ghost before = found@;
            found.push(node);
            assert(nodes_behind(found@) =~= nodes_behind(before).push(*node));
        }
        i = i + 1;
    }
    assert(all.take(i as int) =~= all);
    found
}

} // verus!
