//! Reading a page graph from a GraphML recording.
//!
//! The recording comes as the sequence of items that a reader of XML finds
//! in it: where an element starts, with its attributes; where it ends; and
//! the text between. A recording declares its keys, describes itself, and
//! holds one graph of nodes and edges.

use crate::graph::{Edge, GraphFault, Node, PageGraphDescriptor};
use crate::graphml_fields::{drained, pairs_of, value_of, with_value, Pairs};
use crate::graphml_kinds::{
    edge_field_names, edge_type_given, edge_values_ok, node_field_names, node_type_given,
    node_values_ok,
};
use crate::graphml_text::{bool_value, timestamp_value, u64_value};
use crate::ids::{parse_edge_id, parse_frame_id, parse_node_id, EdgeId, FrameId, NodeId};
use crate::text::usize_value;

use vstd::prelude::*;

verus! {

/// What a reader of XML finds in a recording.
#[derive(Debug, Clone, PartialEq)]
pub enum XmlItem {
    /// The start of the document.
    StartDocument,
    /// The start of an element, with the names and values of its attributes.
    StartElement { name: String, attributes: Vec<(String, String)> },
    /// The end of an element.
    EndElement { name: String },
    /// Text.
    Characters(String),
    /// Space between elements.
    Whitespace,
    /// Anything else: a comment, an instruction, the end of the document.
    Other,
}

/// Why a recording gives no page graph.
#[derive(Debug, PartialEq, Eq, Clone, Copy, Structural)]
pub enum ReadFault {
    /// The recording is not written as a recording must be.
    Malformed,
    /// The nodes and edges of the recording make no graph.
    Graph(GraphFault),
}

/// What a recording says of itself, as texts and numbers.
pub struct RawDesc {
    pub version: Seq<char>,
    pub about: Seq<char>,
    pub url: Seq<char>,
    pub is_root: bool,
    pub frame_id: FrameId,
    pub start: u64,
    pub end: u64,
}

/// What a recording says of a node or an edge, before its kind is read: the
/// name of the kind, the time, and the values under their identifiers.
pub struct RawItem {
    pub kind: Option<Seq<char>>,
    pub timestamp: Option<isize>,
    pub data: Pairs,
}

/// A node as recorded.
pub struct RawNode {
    pub id: NodeId,
    pub timestamp: isize,
    pub kind: Seq<char>,
    pub data: Pairs,
}

/// An edge as recorded.
pub struct RawEdge {
    pub id: EdgeId,
    pub source: NodeId,
    pub target: NodeId,
    pub timestamp: Option<isize>,
    pub kind: Seq<char>,
    pub data: Pairs,
}

/// The text that an optional string holds.
pub open spec fn text_of(held: Option<String>) -> Option<Seq<char>> {
    match held {
        Some(s) => Some(s@),
        None => None,
    }
}

/// The text, if any, up to the end of the element `name`: the last run of
/// characters before that end. Other ends and space are passed over; an
/// element or anything else is not allowed. The second part of the answer is
/// the place after the end.
pub open spec fn text_until(events: Seq<XmlItem>, pos: int, name: Seq<char>, held: Option<Seq<char>>) -> Option<
    (Option<Seq<char>>, int),
>
    decreases events.len() - pos,
{
    if pos < 0 || pos >= events.len() {
        Some((held, pos))
    } else {
        match events[pos] {
            XmlItem::EndElement { name: ended } => if ended@ == name {
                Some((held, pos + 1))
            } else {
                text_until(events, pos + 1, name, held)
            },
            XmlItem::Characters(text) => text_until(events, pos + 1, name, Some(text@)),
            XmlItem::Whitespace => text_until(events, pos + 1, name, held),
            _ => None,
        }
    }
}

/// The text of the element `name`, which must have one.
pub open spec fn str_data(events: Seq<XmlItem>, pos: int, name: Seq<char>) -> Option<(Seq<char>, int)> {
    match text_until(events, pos, name, None) {
        Some((Some(text), after)) => Some((text, after)),
        _ => None,
    }
}

/// The attributes as named values, each name one of `allowed`; a later
/// attribute of a name stands for an earlier one.
pub open spec fn attrs_record(attrs: Pairs, allowed: Seq<Seq<char>>) -> Option<Pairs>
    decreases attrs.len(),
{
    if attrs.len() == 0 {
        Some(Seq::empty())
    } else {
        match attrs_record(attrs.drop_last(), allowed) {
            Some(record) => if allowed.contains(attrs.last().0) {
                Some(with_value(record, attrs.last().0, attrs.last().1))
            } else {
                None
            },
            None => None,
        }
    }
}

/// The names that a `time` element may hold.
pub open spec fn time_names() -> Seq<Seq<char>> {
    seq!["start"@, "end"@]
}

/// The names of the texts that a `desc` element may hold.
pub open spec fn desc_names() -> Seq<Seq<char>> {
    seq!["version"@, "about"@, "url"@, "is_root"@, "frame_id"@]
}

/// The named texts of the elements up to the end of the element `end_name`,
/// each name one of `allowed`.
pub open spec fn record_until(
    events: Seq<XmlItem>,
    pos: int,
    end_name: Seq<char>,
    allowed: Seq<Seq<char>>,
    fields: Pairs,
) -> Option<(Pairs, int)>
    decreases events.len() - pos,
{
    if pos < 0 || pos >= events.len() {
        Some((fields, pos))
    } else {
        match events[pos] {
            XmlItem::EndElement { name } => if name@ == end_name {
                Some((fields, pos + 1))
            } else {
                record_until(events, pos + 1, end_name, allowed, fields)
            },
            XmlItem::StartElement { name, .. } => if allowed.contains(name@) {
                match str_data(events, pos + 1, name@) {
                    Some((text, after)) => if pos < after <= events.len() {
                        record_until(
                            events,
                            after,
                            end_name,
                            allowed,
                            with_value(fields, name@, text),
                        )
                    } else {
                        None
                    },
                    None => None,
                }
            } else {
                None
            },
            XmlItem::Whitespace => record_until(events, pos + 1, end_name, allowed, fields),
            _ => None,
        }
    }
}

/// The start and the end that a `time` element gives.
pub open spec fn time_value(fields: Pairs) -> Option<(u64, u64)> {
    match (value_of(fields, "start"@), value_of(fields, "end"@)) {
        (Some(start), Some(end)) => match (u64_value(start), u64_value(end)) {
            (Some(s), Some(e)) => Some((s, e)),
            _ => None,
        },
        _ => None,
    }
}

/// What the elements up to the end of `desc` say: named texts, and a time.
pub open spec fn desc_until(
    events: Seq<XmlItem>,
    pos: int,
    fields: Pairs,
    time: Option<(u64, u64)>,
) -> Option<(Pairs, Option<(u64, u64)>, int)>
    decreases events.len() - pos,
{
    if pos < 0 || pos >= events.len() {
        Some((fields, time, pos))
    } else {
        match events[pos] {
            XmlItem::EndElement { name } => if name@ == "desc"@ {
                Some((fields, time, pos + 1))
            } else {
                desc_until(events, pos + 1, fields, time)
            },
            XmlItem::StartElement { name, .. } => if name@ == "time"@ {
                match record_until(events, pos + 1, "time"@, time_names(), Seq::empty()) {
                    Some((record, after)) => match time_value(record) {
                        Some(found) => if pos < after <= events.len() {
                            desc_until(events, after, fields, Some(found))
                        } else {
                            None
                        },
                        None => None,
                    },
                    None => None,
                }
            } else if desc_names().contains(name@) {
                match str_data(events, pos + 1, name@) {
                    Some((text, after)) => if pos < after <= events.len() {
                        desc_until(events, after, with_value(fields, name@, text), time)
                    } else {
                        None
                    },
                    None => None,
                }
            } else {
                None
            },
            XmlItem::Whitespace => desc_until(events, pos + 1, fields, time),
            _ => None,
        }
    }
}

/// What a recording says of itself, from the texts and the time of its
/// `desc` element: all of them must be there and spell what they should.
pub open spec fn desc_value(fields: Pairs, time: Option<(u64, u64)>) -> Option<RawDesc> {
    match (
        value_of(fields, "version"@),
        value_of(fields, "about"@),
        value_of(fields, "url"@),
        value_of(fields, "is_root"@),
        value_of(fields, "frame_id"@),
        time,
    ) {
        (Some(version), Some(about), Some(url), Some(root), Some(frame), Some(times)) => match (
            bool_value(root),
            parse_frame_id(frame),
        ) {
            (Some(is_root), Ok(frame_id)) => Some(
                RawDesc { version, about, url, is_root, frame_id, start: times.0, end: times.1 },
            ),
            _ => None,
        },
        _ => None,
    }
}

/// Whether the descriptor holds what the recording says of itself.
pub open spec fn desc_reads(desc: PageGraphDescriptor, raw: RawDesc) -> bool {
    &&& desc.version@ == raw.version
    &&& desc.about@ == raw.about
    &&& desc.url@ == raw.url
    &&& desc.is_root == raw.is_root
    &&& desc.frame_id == raw.frame_id
    &&& desc.time.start == raw.start
    &&& desc.time.end == raw.end
}

/// The names of the attributes that a `key` element may have.
pub open spec fn key_names() -> Seq<Seq<char>> {
    seq!["id"@, "for"@, "attr.name"@, "attr.type"@]
}

/// What a `key` element declares: whether it is for nodes, the name, and the
/// identifier that stands for the name. The element must end at once.
pub open spec fn key_decl(events: Seq<XmlItem>, pos: int, attrs: Pairs) -> Option<
    (bool, Seq<char>, Seq<char>, int),
> {
    match attrs_record(attrs, key_names()) {
        Some(record) => match (
            value_of(record, "id"@),
            value_of(record, "for"@),
            value_of(record, "attr.name"@),
            value_of(record, "attr.type"@),
        ) {
            (Some(id), Some(what), Some(name), Some(_)) => if 0 <= pos < events.len() && (
            what == "node"@ || what == "edge"@) {
                match events[pos] {
                    XmlItem::EndElement { name: ended } => if ended@ == "key"@ {
                        Some((what == "node"@, name, id, pos + 1))
                    } else {
                        None
                    },
                    _ => None,
                }
            } else {
                None
            },
            _ => None,
        },
        None => None,
    }
}

/// What a `data` element holds: the identifier of its key, and its text,
/// which is empty where it has none.
pub open spec fn data_item(events: Seq<XmlItem>, pos: int, attrs: Pairs) -> Option<
    (Seq<char>, Seq<char>, int),
> {
    match attrs_record(attrs, seq!["key"@]) {
        Some(record) => match (value_of(record, "key"@), text_until(events, pos, "data"@, None)) {
            (Some(key), Some((held, after))) => Some(
                (
                    key,
                    match held {
                        Some(text) => text,
                        None => Seq::empty(),
                    },
                    after,
                ),
            ),
            _ => None,
        },
        None => None,
    }
}

/// What a node or an edge holds after the value `text` under `key`: the
/// value names the kind, repeats the number of the item, gives its time, or
/// is kept under its key. The names `kind_name`, `id` and `timestamp` must be
/// declared as far as they are asked for.
pub open spec fn item_with(
    keys: Pairs,
    kind_name: Seq<char>,
    number: Option<usize>,
    item: RawItem,
    key: Seq<char>,
    text: Seq<char>,
) -> Option<RawItem> {
    match value_of(keys, kind_name) {
        Some(kind_key) => if kind_key == key {
            Some(RawItem { kind: Some(text), timestamp: item.timestamp, data: item.data })
        } else {
            match value_of(keys, "id"@) {
                Some(id_key) => if id_key == key {
                    if usize_value(text) is Some && usize_value(text) == number {
                        Some(item)
                    } else {
                        None
                    }
                } else {
                    match value_of(keys, "timestamp"@) {
                        Some(time_key) => if time_key == key {
                            match timestamp_value(text) {
                                Some(at) => Some(
                                    RawItem { kind: item.kind, timestamp: Some(at), data: item.data },
                                ),
                                None => None,
                            }
                        } else {
                            Some(
                                RawItem {
                                    kind: item.kind,
                                    timestamp: item.timestamp,
                                    data: with_value(item.data, key, text),
                                },
                            )
                        },
                        None => None,
                    }
                },
                None => None,
            }
        },
        None => None,
    }
}

/// What the elements up to the end of the element `end_name` say of a node
/// or an edge.
pub open spec fn item_until(
    events: Seq<XmlItem>,
    pos: int,
    end_name: Seq<char>,
    kind_name: Seq<char>,
    keys: Pairs,
    number: Option<usize>,
    item: RawItem,
) -> Option<(RawItem, int)>
    decreases events.len() - pos,
{
    if pos < 0 || pos >= events.len() {
        Some((item, pos))
    } else {
        match events[pos] {
            XmlItem::EndElement { name } => if name@ == end_name {
                Some((item, pos + 1))
            } else {
                item_until(events, pos + 1, end_name, kind_name, keys, number, item)
            },
            XmlItem::StartElement { name, attributes } => if name@ == "data"@ {
                match data_item(events, pos + 1, pairs_of(attributes@)) {
                    Some((key, text, after)) => match item_with(
                        keys,
                        kind_name,
                        number,
                        item,
                        key,
                        text,
                    ) {
                        Some(next) => if pos < after <= events.len() {
                            item_until(events, after, end_name, kind_name, keys, number, next)
                        } else {
                            None
                        },
                        None => None,
                    },
                    None => None,
                }
            } else {
                item_until(events, pos + 1, end_name, kind_name, keys, number, item)
            },
            XmlItem::Whitespace => item_until(
                events,
                pos + 1,
                end_name,
                kind_name,
                keys,
                number,
                item,
            ),
            _ => None,
        }
    }
}

/// Whether the values `data` are those of a node of the kind `kind`, with
/// nothing left over.
pub open spec fn node_readable(kind: Seq<char>, data: Pairs, keys: Pairs) -> bool {
    match node_field_names(kind) {
        Some(names) => match drained(data, keys, names) {
            Some((values, rest)) => rest.len() == 0 && node_values_ok(kind, values),
            None => false,
        },
        None => false,
    }
}

/// Whether the values `data` are those of an edge of the kind `kind`, with
/// nothing left over.
pub open spec fn edge_readable(kind: Seq<char>, data: Pairs, keys: Pairs) -> bool {
    match edge_field_names(kind) {
        Some(names) => match drained(data, keys, names) {
            Some((values, rest)) => rest.len() == 0 && edge_values_ok(kind, values),
            None => false,
        },
        None => false,
    }
}

/// The identifier that the attributes of a `node` element give: its only
/// attribute may be `id`.
pub open spec fn node_attrs(attrs: Pairs) -> Option<Option<NodeId>>
    decreases attrs.len(),
{
    if attrs.len() == 0 {
        Some(None)
    } else {
        match node_attrs(attrs.drop_last()) {
            Some(_) => if attrs.last().0 == "id"@ {
                match parse_node_id(attrs.last().1) {
                    Ok(id) => Some(Some(id)),
                    Err(_) => None,
                }
            } else {
                None
            },
            None => None,
        }
    }
}

/// The identifiers that the attributes of an `edge` element give: of the
/// edge, of its source and of its target.
pub open spec fn edge_attrs(attrs: Pairs) -> Option<(Option<EdgeId>, Option<NodeId>, Option<NodeId>)>
    decreases attrs.len(),
{
    if attrs.len() == 0 {
        Some((None, None, None))
    } else {
        match edge_attrs(attrs.drop_last()) {
            Some((id, source, target)) => if attrs.last().0 == "id"@ {
                match parse_edge_id(attrs.last().1) {
                    Ok(found) => Some((Some(found), source, target)),
                    Err(_) => None,
                }
            } else if attrs.last().0 == "source"@ {
                match parse_node_id(attrs.last().1) {
                    Ok(found) => Some((id, Some(found), target)),
                    Err(_) => None,
                }
            } else if attrs.last().0 == "target"@ {
                match parse_node_id(attrs.last().1) {
                    Ok(found) => Some((id, source, Some(found))),
                    Err(_) => None,
                }
            } else {
                None
            },
            None => None,
        }
    }
}

/// The number of an optional identifier.
pub open spec fn number_of(id: Option<crate::ids::GraphItemId>) -> Option<usize> {
    match id {
        Some(item) => Some(item.id),
        None => None,
    }
}

/// The node that a `node` element records, which must give its identifier,
/// its time and its kind, with the values of that kind and no others.
pub open spec fn node_made(events: Seq<XmlItem>, pos: int, attrs: Pairs, keys: Pairs) -> Option<
    (RawNode, int),
> {
    match node_attrs(attrs) {
        Some(id) => match item_until(
            events,
            pos,
            "node"@,
            "node type"@,
            keys,
            match id {
                Some(found) => Some(found.0.id),
                None => None,
            },
            RawItem { kind: None, timestamp: None, data: Seq::empty() },
        ) {
            Some((item, after)) => match (item.kind, id, item.timestamp) {
                (Some(kind), Some(found), Some(at)) => if node_readable(kind, item.data, keys) {
                    Some((RawNode { id: found, timestamp: at, kind, data: item.data }, after))
                } else {
                    None
                },
                _ => None,
            },
            None => None,
        },
        None => None,
    }
}

/// The edge that an `edge` element records, which must give its identifier,
/// its ends and its kind, with the values of that kind and no others.
pub open spec fn edge_made(events: Seq<XmlItem>, pos: int, attrs: Pairs, keys: Pairs) -> Option<
    (RawEdge, int),
> {
    match edge_attrs(attrs) {
        Some((id, source, target)) => match item_until(
            events,
            pos,
            "edge"@,
            "edge type"@,
            keys,
            match id {
                Some(found) => Some(found.0.id),
                None => None,
            },
            RawItem { kind: None, timestamp: None, data: Seq::empty() },
        ) {
            Some((item, after)) => match (item.kind, id, source, target) {
                (Some(kind), Some(found), Some(from), Some(to)) => if edge_readable(
                    kind,
                    item.data,
                    keys,
                ) {
                    Some(
                        (
                            RawEdge {
                                id: found,
                                source: from,
                                target: to,
                                timestamp: item.timestamp,
                                kind,
                                data: item.data,
                            },
                            after,
                        ),
                    )
                } else {
                    None
                },
                _ => None,
            },
            None => None,
        },
        None => None,
    }
}

/// Whether the node holds what was recorded of it.
pub open spec fn node_reads(node: Node, raw: RawNode, keys: Pairs) -> bool {
    &&& node.id == raw.id
    &&& node.node_timestamp == raw.timestamp
    &&& node_field_names(raw.kind) is Some
    &&& drained(raw.data, keys, node_field_names(raw.kind).unwrap()) is Some
    &&& node_type_given(
        raw.kind,
        drained(raw.data, keys, node_field_names(raw.kind).unwrap()).unwrap().0,
        node.node_type,
    )
}

/// Whether the edge holds what was recorded of it.
pub open spec fn edge_reads(edge: Edge, raw: RawEdge, keys: Pairs) -> bool {
    &&& edge.id == raw.id
    &&& edge.source == raw.source
    &&& edge.target == raw.target
    &&& edge.edge_timestamp == raw.timestamp
    &&& edge_field_names(raw.kind) is Some
    &&& drained(raw.data, keys, edge_field_names(raw.kind).unwrap()) is Some
    &&& edge_type_given(
        raw.kind,
        drained(raw.data, keys, edge_field_names(raw.kind).unwrap()).unwrap().0,
        edge.edge_type,
    )
}

/// Whether the nodes hold what was recorded of them, one for one.
pub open spec fn nodes_read(nodes: Seq<Node>, raw: Seq<RawNode>, keys: Pairs) -> bool {
    nodes.len() == raw.len() && forall|i: int|
        0 <= i < nodes.len() ==> node_reads(#[trigger] nodes[i], raw[i], keys)
}

/// Whether the edges hold what was recorded of them, one for one.
pub open spec fn edges_read(edges: Seq<Edge>, raw: Seq<RawEdge>, keys: Pairs) -> bool {
    edges.len() == raw.len() && forall|i: int|
        0 <= i < edges.len() ==> edge_reads(#[trigger] edges[i], raw[i], keys)
}

/// The nodes and edges that the elements up to the end of `graph` record, in
/// their order.
pub open spec fn graph_until(
    events: Seq<XmlItem>,
    pos: int,
    node_keys: Pairs,
    edge_keys: Pairs,
    nodes: Seq<RawNode>,
    edges: Seq<RawEdge>,
) -> Option<(Seq<RawNode>, Seq<RawEdge>, int)>
    decreases events.len() - pos,
{
    if pos < 0 || pos >= events.len() {
        Some((nodes, edges, pos))
    } else {
        match events[pos] {
            XmlItem::EndElement { name } => if name@ == "graph"@ {
                Some((nodes, edges, pos + 1))
            } else {
                graph_until(events, pos + 1, node_keys, edge_keys, nodes, edges)
            },
            XmlItem::StartElement { name, attributes } => if name@ == "node"@ {
                match node_made(events, pos + 1, pairs_of(attributes@), node_keys) {
                    Some((node, after)) => if pos < after <= events.len() {
                        graph_until(events, after, node_keys, edge_keys, nodes.push(node), edges)
                    } else {
                        None
                    },
                    None => None,
                }
            } else if name@ == "edge"@ {
                match edge_made(events, pos + 1, pairs_of(attributes@), edge_keys) {
                    Some((edge, after)) => if pos < after <= events.len() {
                        graph_until(events, after, node_keys, edge_keys, nodes, edges.push(edge))
                    } else {
                        None
                    },
                    None => None,
                }
            } else {
                graph_until(events, pos + 1, node_keys, edge_keys, nodes, edges)
            },
            XmlItem::Whitespace => graph_until(
                events,
                pos + 1,
                node_keys,
                edge_keys,
                nodes,
                edges,
            ),
            _ => None,
        }
    }
}

/// What a recording declares before its graph starts.
pub struct Head {
    pub node_keys: Pairs,
    pub edge_keys: Pairs,
    pub desc: Option<RawDesc>,
}

/// What the elements up to the start of `graph` declare: the keys for nodes
/// and for edges, and what the recording says of itself. No element may end
/// on the way.
pub open spec fn head_until(events: Seq<XmlItem>, pos: int, head: Head) -> Option<(Head, int)>
    decreases events.len() - pos,
{
    if pos < 0 || pos >= events.len() {
        Some((head, pos))
    } else {
        match events[pos] {
            XmlItem::StartElement { name, attributes } => if name@ == "key"@ {
                match key_decl(events, pos + 1, pairs_of(attributes@)) {
                    Some((for_node, key_name, id, after)) => if pos < after <= events.len() {
                        head_until(
                            events,
                            after,
                            if for_node {
                                Head {
                                    node_keys: with_value(head.node_keys, key_name, id),
                                    edge_keys: head.edge_keys,
                                    desc: head.desc,
                                }
                            } else {
                                Head {
                                    node_keys: head.node_keys,
                                    edge_keys: with_value(head.edge_keys, key_name, id),
                                    desc: head.desc,
                                }
                            },
                        )
                    } else {
                        None
                    },
                    None => None,
                }
            } else if name@ == "desc"@ {
                match desc_until(events, pos + 1, Seq::empty(), None) {
                    Some((fields, time, after)) => match desc_value(fields, time) {
                        Some(desc) => if pos < after <= events.len() {
                            head_until(
                                events,
                                after,
                                Head {
                                    node_keys: head.node_keys,
                                    edge_keys: head.edge_keys,
                                    desc: Some(desc),
                                },
                            )
                        } else {
                            None
                        },
                        None => None,
                    },
                    None => None,
                }
            } else if name@ == "graph"@ {
                Some((head, pos + 1))
            } else {
                head_until(events, pos + 1, head)
            },
            XmlItem::Whitespace => head_until(events, pos + 1, head),
            _ => None,
        }
    }
}

/// Whether what follows the graph is allowed: no key and no other graph, up
/// to the end of `graphml`.
pub open spec fn tail_ok(events: Seq<XmlItem>, pos: int) -> bool
    decreases events.len() - pos,
{
    if pos < 0 || pos >= events.len() {
        true
    } else {
        match events[pos] {
            XmlItem::StartElement { name, .. } => if name@ == "key"@ || name@ == "graph"@ {
                false
            } else {
                tail_ok(events, pos + 1)
            },
            XmlItem::EndElement { name } => if name@ == "graphml"@ {
                true
            } else {
                tail_ok(events, pos + 1)
            },
            XmlItem::Whitespace => tail_ok(events, pos + 1),
            _ => false,
        }
    }
}

/// What a recording holds.
pub struct RawGraph {
    pub desc: RawDesc,
    pub node_keys: Pairs,
    pub edge_keys: Pairs,
    pub nodes: Seq<RawNode>,
    pub edges: Seq<RawEdge>,
}

/// What the recording holds: after the start of the document and of the
/// element `graphml` come the keys and what the recording says of itself,
/// then the one graph.
pub open spec fn document(events: Seq<XmlItem>) -> Option<RawGraph> {
    if events.len() < 2 || !(events[0] is StartDocument) {
        None
    } else {
        match events[1] {
            XmlItem::StartElement { name, .. } => if name@ == "graphml"@ {
                match head_until(
                    events,
                    2,
                    Head { node_keys: Seq::empty(), edge_keys: Seq::empty(), desc: None },
                ) {
                    Some((head, after)) => match head.desc {
                        Some(desc) => match graph_until(
                            events,
                            after,
                            head.node_keys,
                            head.edge_keys,
                            Seq::empty(),
                            Seq::empty(),
                        ) {
                            Some((nodes, edges, end)) => if tail_ok(events, end) {
                                Some(
                                    RawGraph {
                                        desc,
                                        node_keys: head.node_keys,
                                        edge_keys: head.edge_keys,
                                        nodes,
                                        edges,
                                    },
                                )
                            } else {
                                None
                            },
                            None => None,
                        },
                        None => None,
                    },
                    None => None,
                }
            } else {
                None
            },
            _ => None,
        }
    }
}

} // verus!
