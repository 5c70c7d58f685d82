//! Reading a page graph from the items of a GraphML recording, one after the
//! other.

use crate::adjacency::{links_of, weights_of};
use crate::graph::{Edge, Node, PageGraph, PageGraphDescriptor, PageGraphTime};
use crate::graph_build::{built_links, built_weights, tables_fault};
use crate::graphml::{
    attrs_record, data_item, desc_names, desc_reads, desc_until, desc_value, document, edge_attrs,
    edge_made, edge_reads, edges_read, graph_until, head_until, item_until, item_with, key_decl,
    key_names, node_attrs, node_made, node_reads, nodes_read, record_until, str_data, tail_ok,
    text_of, text_until, time_names, time_value, Head, RawDesc, RawEdge, RawItem, RawNode,
    ReadFault, XmlItem,
};
use crate::graphml_fields::{
    drain_values, get_value, is_one_of, lemma_drained_len, names_of, pairs_of, put_value, Pairs,
};
use crate::graphml_kinds::{edge_names, make_edge_type, make_node_type, node_names};
use crate::graphml_text::{parse_bool, parse_timestamp, parse_u64};
use crate::ids::{EdgeId, FrameId, NodeId};
use crate::text::{parse_usize, same_text};
use vstd::prelude::*;

verus! {

/// The text, if any, up to the end of the element `name`.
fn read_text_until(events: &Vec<XmlItem>, pos: usize, name: &str) -> (found: Option<
    (Option<String>, usize),
>)
    requires
        pos <= events@.len(),
    ensures
        match found {
            Some((held, after)) => text_until(events@, pos as int, name@, None) == Some(
                (text_of(held), after as int),
            ) && pos <= after <= events@.len(),
            None => text_until(events@, pos as int, name@, None) is None,
        },
{
    let mut held: Option<String> = None;
    let mut i: usize = pos;
    while i < events.len()
        invariant
            pos <= i <= events@.len(),
            text_until(events@, pos as int, name@, None) == text_until(
                events@,
                i as int,
                name@,
                text_of(held),
            ),
        decreases events@.len() - i,
    {
        match &events[i] {
            XmlItem::EndElement { name: ended } => {
                if same_text(ended.as_str(), name) {
                    return Some((held, i + 1));
                }
            },
            XmlItem::Characters(text) => {
                held = Some(text.clone());
            },
            XmlItem::Whitespace => {},
            _ => {
                return None;
            },
        }
        i = i + 1;
    }
    Some((held, i))
}

/// The text of the element `name`, which must have one.
fn read_str_data(events: &Vec<XmlItem>, pos: usize, name: &str) -> (found: Option<(String, usize)>)
    requires
        pos <= events@.len(),
    ensures
        match found {
            Some((text, after)) => str_data(events@, pos as int, name@) == Some(
                (text@, after as int),
            ) && pos <= after <= events@.len(),
            None => str_data(events@, pos as int, name@) is None,
        },
{
    match read_text_until(events, pos, name) {
        Some((Some(text), after)) => Some((text, after)),
        _ => None,
    }
}

/// The attributes as named values, each name one of `allowed`.
fn read_attrs_record(attrs: &Vec<(String, String)>, allowed: &Vec<&str>) -> (found: Option<
    Vec<(String, String)>,
>)
    ensures
        match found {
            Some(record) => attrs_record(pairs_of(attrs@), names_of(allowed@)) == Some(
                pairs_of(record@),
            ),
            None => attrs_record(pairs_of(attrs@), names_of(allowed@)) is None,
        },
{
    let ghost all = pairs_of(attrs@);
    let mut record: Vec<(String, String)> = Vec::new();
    let mut i: usize = 0;
    assert(pairs_of(record@) =~= Seq::<(Seq<char>, Seq<char>)>::empty());
    while i < attrs.len()
        invariant
            i <= attrs@.len(),
            all == pairs_of(attrs@),
            attrs_record(all.take(i as int), names_of(allowed@)) == Some(pairs_of(record@)),
        decreases attrs@.len() - i,
    {
        proof {
            assert(all.take(i + 1).drop_last() =~= all.take(i as int));
            assert(all.take(i + 1).last() == (attrs@[i as int].0@, attrs@[i as int].1@));
        }
        if !is_one_of(attrs[i].0.as_str(), allowed) {
            proof {
                lemma_attrs_fail(all, names_of(allowed@), i + 1);
            }
            return None;
        }
        put_value(&mut record, attrs[i].0.clone(), attrs[i].1.clone());
        i = i + 1;
    }
    assert(all.take(i as int) =~= all);
    Some(record)
}

/// Where the first attributes are not allowed, all of them are not.
proof fn lemma_attrs_fail(attrs: Pairs, allowed: Seq<Seq<char>>, upto: int)
    requires
        0 <= upto <= attrs.len(),
        attrs_record(attrs.take(upto), allowed) is None,
    ensures
        attrs_record(attrs, allowed) is None,
    decreases attrs.len() - upto,
{
    if upto == attrs.len() {
        assert(attrs.take(upto) =~= attrs);
    } else {
        assert(attrs.take(upto + 1).drop_last() =~= attrs.take(upto));
        lemma_attrs_fail(attrs, allowed, upto + 1);
    }
}

/// The named texts of the elements up to the end of the element `end_name`.
fn read_record_until(
    events: &Vec<XmlItem>,
    pos: usize,
    end_name: &str,
    allowed: &Vec<&str>,
) -> (found: Option<(Vec<(String, String)>, usize)>)
    requires
        pos <= events@.len(),
    ensures
        match found {
            Some((fields, after)) => record_until(
                events@,
                pos as int,
                end_name@,
                names_of(allowed@),
                Seq::empty(),
            ) == Some((pairs_of(fields@), after as int)) && pos <= after <= events@.len(),
            None => record_until(events@, pos as int, end_name@, names_of(allowed@), Seq::empty())
                is None,
        },
{
    let mut fields: Vec<(String, String)> = Vec::new();
    let mut i: usize = pos;
    assert(pairs_of(fields@) =~= Seq::<(Seq<char>, Seq<char>)>::empty());
    while i < events.len()
        invariant
            pos <= i <= events@.len(),
            record_until(events@, pos as int, end_name@, names_of(allowed@), Seq::empty())
                == record_until(
                events@,
                i as int,
                end_name@,
                names_of(allowed@),
                pairs_of(fields@),
            ),
        decreases events@.len() - i,
    {
        match &events[i] {
            XmlItem::EndElement { name } => {
                if same_text(name.as_str(), end_name) {
                    return Some((fields, i + 1));
                }
                i = i + 1;
            },
            XmlItem::StartElement { name, .. } => {
                if !is_one_of(name.as_str(), allowed) {
                    return None;
                }
                match read_str_data(events, i + 1, name.as_str()) {
                    Some((text, after)) => {
                        put_value(&mut fields, name.clone(), text);
                        i = after;
                    },
                    None => {
                        return None;
                    },
                }
            },
            XmlItem::Whitespace => {
                i = i + 1;
            },
            _ => {
                return None;
            },
        }
    }
    Some((fields, i))
}

/// The start and the end that a `time` element gives.
fn read_time_value(fields: &Vec<(String, String)>) -> (found: Option<(u64, u64)>)
    ensures
        found == time_value(pairs_of(fields@)),
{
    match (get_value(fields, "start"), get_value(fields, "end")) {
        (Some(start), Some(end)) => match (parse_u64(start), parse_u64(end)) {
            (Some(s), Some(e)) => Some((s, e)),
            _ => None,
        },
        _ => None,
    }
}

/// What a recording says of itself in its `desc` element.
fn read_desc(events: &Vec<XmlItem>, pos: usize) -> (found: Option<(PageGraphDescriptor, usize)>)
    requires
        pos <= events@.len(),
    ensures
        match found {
            Some((desc, after)) => {
                &&& desc_until(events@, pos as int, Seq::empty(), None) is Some
                &&& desc_until(events@, pos as int, Seq::empty(), None).unwrap().2 == after
                &&& pos <= after <= events@.len()
                &&& desc_value(
                    desc_until(events@, pos as int, Seq::empty(), None).unwrap().0,
                    desc_until(events@, pos as int, Seq::empty(), None).unwrap().1,
                ) is Some
                &&& desc_reads(
                    desc,
                    desc_value(
                        desc_until(events@, pos as int, Seq::empty(), None).unwrap().0,
                        desc_until(events@, pos as int, Seq::empty(), None).unwrap().1,
                    ).unwrap(),
                )
            },
            None => match desc_until(events@, pos as int, Seq::empty(), None) {
                Some((fields, time, _)) => desc_value(fields, time) is None,
                None => true,
            },
        },
{
    let time_allowed: Vec<&str> = vec!["start", "end"];
    let text_allowed: Vec<&str> = vec!["version", "about", "url", "is_root", "frame_id"];
    assert(names_of(time_allowed@) =~= time_names());
    assert(names_of(text_allowed@) =~= desc_names());
    let mut fields: Vec<(String, String)> = Vec::new();
    let mut time: Option<(u64, u64)> = None;
    let mut i: usize = pos;
    let mut done = false;
    assert(pairs_of(fields@) =~= Seq::<(Seq<char>, Seq<char>)>::empty());
    while i < events.len() && !done
        invariant
            pos <= i <= events@.len(),
            names_of(time_allowed@) == time_names(),
            names_of(text_allowed@) == desc_names(),
            !done ==> desc_until(events@, pos as int, Seq::empty(), None) == desc_until(
                events@,
                i as int,
                pairs_of(fields@),
                time,
            ),
            done ==> desc_until(events@, pos as int, Seq::empty(), None) == Some(
                (pairs_of(fields@), time, i as int),
            ),
        decreases events@.len() - i,
    {
        match &events[i] {
            XmlItem::EndElement { name } => {
                if same_text(name.as_str(), "desc") {
                    done = true;
                }
                i = i + 1;
            },
            XmlItem::StartElement { name, .. } => {
                if same_text(name.as_str(), "time") {
                    match read_record_until(events, i + 1, "time", &time_allowed) {
                        Some((record, after)) => {
                            match read_time_value(&record) {
                                Some(found) => {
                                    time = Some(found);
                                    i = after;
                                },
                                None => {
                                    return None;
                                },
                            }
                        },
                        None => {
                            return None;
                        },
                    }
                } else if is_one_of(name.as_str(), &text_allowed) {
                    match read_str_data(events, i + 1, name.as_str()) {
                        Some((text, after)) => {
                            put_value(&mut fields, name.clone(), text);
                            i = after;
                        },
                        None => {
                            return None;
                        },
                    }
                } else {
                    return None;
                }
            },
            XmlItem::Whitespace => {
                i = i + 1;
            },
            _ => {
                return None;
            },
        }
    }
    let version = match get_value(&fields, "version") {
        Some(text) => text.to_owned(),
        None => {
            return None;
        },
    };
    let about = match get_value(&fields, "about") {
        Some(text) => text.to_owned(),
        None => {
            return None;
        },
    };
    let url = match get_value(&fields, "url") {
        Some(text) => text.to_owned(),
        None => {
            return None;
        },
    };
    let is_root = match get_value(&fields, "is_root") {
        Some(text) => match parse_bool(text) {
            Some(is_root) => is_root,
            None => {
                return None;
            },
        },
        None => {
            return None;
        },
    };
    let frame_id = match get_value(&fields, "frame_id") {
        Some(text) => match FrameId::try_from(text) {
            Ok(frame_id) => frame_id,
            Err(_) => {
                return None;
            },
        },
        None => {
            return None;
        },
    };
    let times = match time {
        Some(times) => times,
        None => {
            return None;
        },
    };
    Some(
        (
            PageGraphDescriptor {
                version,
                about,
                url,
                is_root,
                frame_id,
                time: PageGraphTime { start: times.0, end: times.1 },
            },
            i,
        ),
    )
}

/// What a `key` element declares.
fn read_key_decl(events: &Vec<XmlItem>, pos: usize, attrs: &Vec<(String, String)>) -> (found: Option<
    (bool, String, String, usize),
>)
    requires
        pos <= events@.len(),
    ensures
        match found {
            Some((for_node, name, id, after)) => key_decl(events@, pos as int, pairs_of(attrs@))
                == Some((for_node, name@, id@, after as int)) && pos < after <= events@.len(),
            None => key_decl(events@, pos as int, pairs_of(attrs@)) is None,
        },
{
    let allowed: Vec<&str> = vec!["id", "for", "attr.name", "attr.type"];
    assert(names_of(allowed@) =~= key_names());
    let record = match read_attrs_record(attrs, &allowed) {
        Some(record) => record,
        None => {
            return None;
        },
    };
    match (
        get_value(&record, "id"),
        get_value(&record, "for"),
        get_value(&record, "attr.name"),
        get_value(&record, "attr.type"),
    ) {
        (Some(id), Some(what), Some(name), Some(_)) => {
            let for_node = same_text(what, "node");
            if pos < events.len() && (for_node || same_text(what, "edge")) {
                match &events[pos] {
                    XmlItem::EndElement { name: ended } => {
                        if same_text(ended.as_str(), "key") {
                            Some((for_node, name.to_owned(), id.to_owned(), pos + 1))
                        } else {
                            None
                        }
                    },
                    _ => None,
                }
            } else {
                None
            }
        },
        _ => None,
    }
}

/// What a `data` element holds.
fn read_data_item(events: &Vec<XmlItem>, pos: usize, attrs: &Vec<(String, String)>) -> (found:
    Option<(String, String, usize)>)
    requires
        pos <= events@.len(),
    ensures
        match found {
            Some((key, text, after)) => data_item(events@, pos as int, pairs_of(attrs@)) == Some(
                (key@, text@, after as int),
            ) && pos <= after <= events@.len(),
            None => data_item(events@, pos as int, pairs_of(attrs@)) is None,
        },
{
    let allowed: Vec<&str> = vec!["key"];
    assert(names_of(allowed@) =~= seq!["key"@]);
    let record = match read_attrs_record(attrs, &allowed) {
        Some(record) => record,
        None => {
            return None;
        },
    };
    let key = match get_value(&record, "key") {
        Some(key) => key.to_owned(),
        None => {
            return None;
        },
    };
    match read_text_until(events, pos, "data") {
        Some((held, after)) => {
            let text = match held {
                Some(text) => text,
                None => String::new(),
            };
            Some((key, text, after))
        },
        None => None,
    }
}

/// What a node or an edge holds while it is read.
struct Item {
    kind: Option<String>,
    timestamp: Option<isize>,
    data: Vec<(String, String)>,
}

impl Item {
    /// What the item holds, as texts.
    spec fn raw(self) -> RawItem {
        RawItem { kind: text_of(self.kind), timestamp: self.timestamp, data: pairs_of(self.data@) }
    }
}

/// The item after the value `text` under `key`.
fn read_item_with(
    keys: &Vec<(String, String)>,
    kind_name: &str,
    number: Option<usize>,
    item: Item,
    key: String,
    text: String,
) -> (found: Option<Item>)
    ensures
        match found {
            Some(next) => item_with(pairs_of(keys@), kind_name@, number, item.raw(), key@, text@)
                == Some(next.raw()),
            None => item_with(pairs_of(keys@), kind_name@, number, item.raw(), key@, text@)
                is None,
        },
{
    let mut item = item;
    let kind_key = match get_value(keys, kind_name) {
        Some(kind_key) => kind_key,
        None => {
            return None;
        },
    };
    if same_text(kind_key, key.as_str()) {
        item.kind = Some(text);
        return Some(item);
    }
    let id_key = match get_value(keys, "id") {
        Some(id_key) => id_key,
        None => {
            return None;
        },
    };
    if same_text(id_key, key.as_str()) {
        return match (parse_usize(text.as_str()), number) {
            (Some(a), Some(b)) => if a == b {
                Some(item)
            } else {
                None
            },
            _ => None,
        };
    }
    let time_key = match get_value(keys, "timestamp") {
        Some(time_key) => time_key,
        None => {
            return None;
        },
    };
    if same_text(time_key, key.as_str()) {
        return match parse_timestamp(text.as_str()) {
            Some(at) => {
                item.timestamp = Some(at);
                Some(item)
            },
            None => None,
        };
    }
    put_value(&mut item.data, key, text);
    Some(item)
}

/// What the elements up to the end of the element `end_name` say of a node
/// or an edge.
fn read_item_until(
    events: &Vec<XmlItem>,
    pos: usize,
    end_name: &str,
    kind_name: &str,
    keys: &Vec<(String, String)>,
    number: Option<usize>,
) -> (found: Option<(Item, usize)>)
    requires
        pos <= events@.len(),
    ensures
        match found {
            Some((item, after)) => item_until(
                events@,
                pos as int,
                end_name@,
                kind_name@,
                pairs_of(keys@),
                number,
                RawItem { kind: None, timestamp: None, data: Seq::empty() },
            ) == Some((item.raw(), after as int)) && pos <= after <= events@.len(),
            None => item_until(
                events@,
                pos as int,
                end_name@,
                kind_name@,
                pairs_of(keys@),
                number,
                RawItem { kind: None, timestamp: None, data: Seq::empty() },
            ) is None,
        },
{
    let ghost start = RawItem { kind: None, timestamp: None, data: Seq::empty() };
    let mut item = Item { kind: None, timestamp: None, data: Vec::new() };
    let mut i: usize = pos;
    assert(item.raw().data =~= start.data);
    while i < events.len()
        invariant
            pos <= i <= events@.len(),
            start == (RawItem { kind: None, timestamp: None, data: Seq::empty() }),
            item_until(
                events@,
                pos as int,
                end_name@,
                kind_name@,
                pairs_of(keys@),
                number,
                start,
            ) == item_until(
                events@,
                i as int,
                end_name@,
                kind_name@,
                pairs_of(keys@),
                number,
                item.raw(),
            ),
        decreases events@.len() - i,
    {
        match &events[i] {
            XmlItem::EndElement { name } => {
                if same_text(name.as_str(), end_name) {
                    return Some((item, i + 1));
                }
                i = i + 1;
            },
            XmlItem::StartElement { name, attributes } => {
                if same_text(name.as_str(), "data") {
                    match read_data_item(events, i + 1, attributes) {
                        Some((key, text, after)) => {
                            match read_item_with(keys, kind_name, number, item, key, text) {
                                Some(next) => {
                                    item = next;
                                    i = after;
                                },
                                None => {
                                    return None;
                                },
                            }
                        },
                        None => {
                            return None;
                        },
                    }
                } else {
                    i = i + 1;
                }
            },
            XmlItem::Whitespace => {
                i = i + 1;
            },
            _ => {
                return None;
            },
        }
    }
    Some((item, i))
}

/// The identifier that the attributes of a `node` element give.
fn read_node_attrs(attrs: &Vec<(String, String)>) -> (found: Option<Option<NodeId>>)
    ensures
        found == node_attrs(pairs_of(attrs@)),
{
    let ghost all = pairs_of(attrs@);
    let mut id: Option<NodeId> = None;
    let mut i: usize = 0;
    while i < attrs.len()
        invariant
            i <= attrs@.len(),
            all == pairs_of(attrs@),
            node_attrs(all.take(i as int)) == Some(id),
        decreases attrs@.len() - i,
    {
        proof {
            assert(all.take(i + 1).drop_last() =~= all.take(i as int));
            assert(all.take(i + 1).last() == (attrs@[i as int].0@, attrs@[i as int].1@));
        }
        let read = if same_text(attrs[i].0.as_str(), "id") {
            match NodeId::try_from(attrs[i].1.as_str()) {
                Ok(found) => Some(found),
                Err(_) => None,
            }
        } else {
            None
        };
        match read {
            Some(found) => {
                id = Some(found);
            },
            None => {
                proof {
                    lemma_node_attrs_fail(all, i + 1);
                }
                return None;
            },
        }
        i = i + 1;
    }
    assert(all.take(i as int) =~= all);
    Some(id)
}

/// Where the first attributes of a node are not allowed, all are not.
proof fn lemma_node_attrs_fail(attrs: Pairs, upto: int)
    requires
        0 <= upto <= attrs.len(),
        node_attrs(attrs.take(upto)) is None,
    ensures
        node_attrs(attrs) is None,
    decreases attrs.len() - upto,
{
    if upto == attrs.len() {
        assert(attrs.take(upto) =~= attrs);
    } else {
        assert(attrs.take(upto + 1).drop_last() =~= attrs.take(upto));
        lemma_node_attrs_fail(attrs, upto + 1);
    }
}

/// The identifiers that the attributes of an `edge` element give.
fn read_edge_attrs(attrs: &Vec<(String, String)>) -> (found: Option<
    (Option<EdgeId>, Option<NodeId>, Option<NodeId>),
>)
    ensures
        found == edge_attrs(pairs_of(attrs@)),
{
    let ghost all = pairs_of(attrs@);
    let mut id: Option<EdgeId> = None;
    let mut source: Option<NodeId> = None;
    let mut target: Option<NodeId> = None;
    let mut i: usize = 0;
    while i < attrs.len()
        invariant
            i <= attrs@.len(),
            all == pairs_of(attrs@),
            edge_attrs(all.take(i as int)) == Some((id, source, target)),
        decreases attrs@.len() - i,
    {
        proof {
            assert(all.take(i + 1).drop_last() =~= all.take(i as int));
            assert(all.take(i + 1).last() == (attrs@[i as int].0@, attrs@[i as int].1@));
        }
        let mut ok = false;
        if same_text(attrs[i].0.as_str(), "id") {
            match EdgeId::try_from(attrs[i].1.as_str()) {
                Ok(found) => {
                    id = Some(found);
                    ok = true;
                },
                Err(_) => {},
            }
        } else if same_text(attrs[i].0.as_str(), "source") {
            match NodeId::try_from(attrs[i].1.as_str()) {
                Ok(found) => {
                    source = Some(found);
                    ok = true;
                },
                Err(_) => {},
            }
        } else if same_text(attrs[i].0.as_str(), "target") {
            match NodeId::try_from(attrs[i].1.as_str()) {
                Ok(found) => {
                    target = Some(found);
                    ok = true;
                },
                Err(_) => {},
            }
        }
        if !ok {
            proof {
                lemma_edge_attrs_fail(all, i + 1);
            }
            return None;
        }
        i = i + 1;
    }
    assert(all.take(i as int) =~= all);
    Some((id, source, target))
}

/// Where the first attributes of an edge are not allowed, all are not.
proof fn lemma_edge_attrs_fail(attrs: Pairs, upto: int)
    requires
        0 <= upto <= attrs.len(),
        edge_attrs(attrs.take(upto)) is None,
    ensures
        edge_attrs(attrs) is None,
    decreases attrs.len() - upto,
{
    if upto == attrs.len() {
        assert(attrs.take(upto) =~= attrs);
    } else {
        assert(attrs.take(upto + 1).drop_last() =~= attrs.take(upto));
        lemma_edge_attrs_fail(attrs, upto + 1);
    }
}

/// The node that a `node` element records.
fn build_node(
    events: &Vec<XmlItem>,
    pos: usize,
    attrs: &Vec<(String, String)>,
    keys: &Vec<(String, String)>,
) -> (found: Option<(Node, usize)>)
    requires
        pos <= events@.len(),
    ensures
        match found {
            Some((node, after)) => {
                &&& node_made(events@, pos as int, pairs_of(attrs@), pairs_of(keys@)) is Some
                &&& node_made(events@, pos as int, pairs_of(attrs@), pairs_of(keys@)).unwrap().1
                    == after
                &&& pos <= after <= events@.len()
                &&& node_reads(
                    node,
                    node_made(events@, pos as int, pairs_of(attrs@), pairs_of(keys@)).unwrap().0,
                    pairs_of(keys@),
                )
            },
            None => node_made(events@, pos as int, pairs_of(attrs@), pairs_of(keys@)) is None,
        },
{
    let id = match read_node_attrs(attrs) {
        Some(id) => id,
        None => {
            return None;
        },
    };
    let number = match id {
        Some(found) => Some(found.0.id),
        None => None,
    };
    let (item, after) = match read_item_until(events, pos, "node", "node type", keys, number) {
        Some(found) => found,
        None => {
            return None;
        },
    };
    let Item { kind, timestamp, data } = item;
    let mut data = data;
    let (kind, id, timestamp) = match (kind, id, timestamp) {
        (Some(kind), Some(id), Some(at)) => (kind, id, at),
        _ => {
            return None;
        },
    };
    let names = match node_names(kind.as_str()) {
        Some(names) => names,
        None => {
            return None;
        },
    };
    proof {
        lemma_drained_len(pairs_of(data@), pairs_of(keys@), names_of(names@));
    }
    let values = match drain_values(&mut data, keys, &names) {
        Some(values) => values,
        None => {
            return None;
        },
    };
    if data.len() != 0 {
        return None;
    }
    let node_type = match make_node_type(kind.as_str(), values) {
        Some(node_type) => node_type,
        None => {
            return None;
        },
    };
    Some((Node { id, node_timestamp: timestamp, node_type }, after))
}

/// The edge that an `edge` element records.
fn build_edge(
    events: &Vec<XmlItem>,
    pos: usize,
    attrs: &Vec<(String, String)>,
    keys: &Vec<(String, String)>,
) -> (found: Option<(Edge, usize)>)
    requires
        pos <= events@.len(),
    ensures
        match found {
            Some((edge, after)) => {
                &&& edge_made(events@, pos as int, pairs_of(attrs@), pairs_of(keys@)) is Some
                &&& edge_made(events@, pos as int, pairs_of(attrs@), pairs_of(keys@)).unwrap().1
                    == after
                &&& pos <= after <= events@.len()
                &&& edge_reads(
                    edge,
                    edge_made(events@, pos as int, pairs_of(attrs@), pairs_of(keys@)).unwrap().0,
                    pairs_of(keys@),
                )
            },
            None => edge_made(events@, pos as int, pairs_of(attrs@), pairs_of(keys@)) is None,
        },
{
    let (id, source, target) = match read_edge_attrs(attrs) {
        Some(found) => found,
        None => {
            return None;
        },
    };
    let number = match id {
        Some(found) => Some(found.0.id),
        None => None,
    };
    let (item, after) = match read_item_until(events, pos, "edge", "edge type", keys, number) {
        Some(found) => found,
        None => {
            return None;
        },
    };
    let Item { kind, timestamp, data } = item;
    let mut data = data;
    let (kind, id, source, target) = match (kind, id, source, target) {
        (Some(kind), Some(id), Some(source), Some(target)) => (kind, id, source, target),
        _ => {
            return None;
        },
    };
    let names = match edge_names(kind.as_str()) {
        Some(names) => names,
        None => {
            return None;
        },
    };
    proof {
        lemma_drained_len(pairs_of(data@), pairs_of(keys@), names_of(names@));
    }
    let values = match drain_values(&mut data, keys, &names) {
        Some(values) => values,
        None => {
            return None;
        },
    };
    if data.len() != 0 {
        return None;
    }
    let edge_type = match make_edge_type(kind.as_str(), values) {
        Some(edge_type) => edge_type,
        None => {
            return None;
        },
    };
    Some((Edge { id, edge_timestamp: timestamp, edge_type, source, target }, after))
}

/// The nodes and edges that the elements up to the end of `graph` record.
fn build_graph(
    events: &Vec<XmlItem>,
    pos: usize,
    node_keys: &Vec<(String, String)>,
    edge_keys: &Vec<(String, String)>,
) -> (found: Option<(Vec<Node>, Vec<Edge>, usize)>)
    requires
        pos <= events@.len(),
    ensures
        match found {
            Some((nodes, edges, after)) => {
                let made = graph_until(
                    events@,
                    pos as int,
                    pairs_of(node_keys@),
                    pairs_of(edge_keys@),
                    Seq::empty(),
                    Seq::empty(),
                );
                &&& made is Some
                &&& made.unwrap().2 == after
                &&& pos <= after <= events@.len()
                &&& nodes_read(nodes@, made.unwrap().0, pairs_of(node_keys@))
                &&& edges_read(edges@, made.unwrap().1, pairs_of(edge_keys@))
            },
            None => graph_until(
                events@,
                pos as int,
                pairs_of(node_keys@),
                pairs_of(edge_keys@),
                Seq::empty(),
                Seq::empty(),
            ) is None,
        },
{
    let ghost nk = pairs_of(node_keys@);
    let ghost ek = pairs_of(edge_keys@);
    let ghost aim = graph_until(events@, pos as int, nk, ek, Seq::empty(), Seq::empty());
    let mut nodes: Vec<Node> = Vec::new();
    let mut edges: Vec<Edge> = Vec::new();
    let ghost mut raw_nodes: Seq<RawNode> = Seq::empty();
    let ghost mut raw_edges: Seq<RawEdge> = Seq::empty();
    let mut i: usize = pos;
    while i < events.len()
        invariant
            pos <= i <= events@.len(),
            nk == pairs_of(node_keys@),
            ek == pairs_of(edge_keys@),
            aim == graph_until(events@, pos as int, nk, ek, Seq::empty(), Seq::empty()),
            aim == graph_until(events@, i as int, nk, ek, raw_nodes, raw_edges),
            nodes_read(nodes@, raw_nodes, nk),
            edges_read(edges@, raw_edges, ek),
        decreases events@.len() - i,
    {
        match &events[i] {
            XmlItem::EndElement { name } => {
                if same_text(name.as_str(), "graph") {
                    return Some((nodes, edges, i + 1));
                }
                i = i + 1;
            },
            XmlItem::StartElement { name, attributes } => {
                if same_text(name.as_str(), "node") {
                    match build_node(events, i + 1, attributes, node_keys) {
                        Some((node, after)) => {
                            proof {
                                let raw = node_made(
                                    events@,
                                    i + 1,
                                    pairs_of(attributes@),
                                    nk,
                                ).unwrap().0;
                                let before = nodes@;
                                let grown = raw_nodes.push(raw);
                                assert forall|x: int| 0 <= x < before.len() + 1 implies node_reads(
                                    #[trigger] before.push(node)[x],
                                    grown[x],
                                    nk,
                                ) by {
                                    if x < before.len() {
                                        assert(node_reads(before[x], raw_nodes[x], nk));
                                    }
                                }
                                raw_nodes = grown;
                            }
                            nodes.push(node);
                            i = after;
                        },
                        None => {
                            return None;
                        },
                    }
                } else if same_text(name.as_str(), "edge") {
                    match build_edge(events, i + 1, attributes, edge_keys) {
                        Some((edge, after)) => {
                            proof {
                                let raw = edge_made(
                                    events@,
                                    i + 1,
                                    pairs_of(attributes@),
                                    ek,
                                ).unwrap().0;
                                let before = edges@;
                                let grown = raw_edges.push(raw);
                                assert forall|x: int| 0 <= x < before.len() + 1 implies edge_reads(
                                    #[trigger] before.push(edge)[x],
                                    grown[x],
                                    ek,
                                ) by {
                                    if x < before.len() {
                                        assert(edge_reads(before[x], raw_edges[x], ek));
                                    }
                                }
                                raw_edges = grown;
                            }
                            edges.push(edge);
                            i = after;
                        },
                        None => {
                            return None;
                        },
                    }
                } else {
                    i = i + 1;
                }
            },
            XmlItem::Whitespace => {
                i = i + 1;
            },
            _ => {
                return None;
            },
        }
    }
    Some((nodes, edges, i))
}

/// What a recording declares before its graph starts, as it is read.
struct HeadRead {
    node_keys: Vec<(String, String)>,
    edge_keys: Vec<(String, String)>,
    desc: Option<PageGraphDescriptor>,
}

/// What the elements up to the start of `graph` declare.
fn read_head(events: &Vec<XmlItem>, pos: usize) -> (found: Option<(HeadRead, usize)>)
    requires
        pos <= events@.len(),
    ensures
        match found {
            Some((head, after)) => {
                let made = head_until(
                    events@,
                    pos as int,
                    Head { node_keys: Seq::empty(), edge_keys: Seq::empty(), desc: None },
                );
                &&& made is Some
                &&& made.unwrap().1 == after
                &&& pos <= after <= events@.len()
                &&& made.unwrap().0.node_keys == pairs_of(head.node_keys@)
                &&& made.unwrap().0.edge_keys == pairs_of(head.edge_keys@)
                &&& match (head.desc, made.unwrap().0.desc) {
                    (Some(desc), Some(raw)) => desc_reads(desc, raw),
                    (None, None) => true,
                    _ => false,
                }
            },
            None => head_until(
                events@,
                pos as int,
                Head { node_keys: Seq::empty(), edge_keys: Seq::empty(), desc: None },
            ) is None,
        },
{
    let ghost start = Head { node_keys: Seq::empty(), edge_keys: Seq::empty(), desc: None };
    let ghost aim = head_until(events@, pos as int, start);
    let mut head = HeadRead { node_keys: Vec::new(), edge_keys: Vec::new(), desc: None };
    let ghost mut raw_desc: Option<RawDesc> = None;
    let mut i: usize = pos;
    assert(pairs_of(head.node_keys@) =~= start.node_keys);
    assert(pairs_of(head.edge_keys@) =~= start.edge_keys);
    while i < events.len()
        invariant
            pos <= i <= events@.len(),
            aim == head_until(
                events@,
                pos as int,
                Head { node_keys: Seq::empty(), edge_keys: Seq::empty(), desc: None },
            ),
            aim == head_until(
                events@,
                i as int,
                Head {
                    node_keys: pairs_of(head.node_keys@),
                    edge_keys: pairs_of(head.edge_keys@),
                    desc: raw_desc,
                },
            ),
            match (head.desc, raw_desc) {
                (Some(desc), Some(raw)) => desc_reads(desc, raw),
                (None, None) => true,
                _ => false,
            },
        decreases events@.len() - i,
    {
        match &events[i] {
            XmlItem::StartElement { name, attributes } => {
                if same_text(name.as_str(), "key") {
                    match read_key_decl(events, i + 1, attributes) {
                        Some((for_node, key_name, id, after)) => {
                            if for_node {
                                put_value(&mut head.node_keys, key_name, id);
                            } else {
                                put_value(&mut head.edge_keys, key_name, id);
                            }
                            i = after;
                        },
                        None => {
                            return None;
                        },
                    }
                } else if same_text(name.as_str(), "desc") {
                    match read_desc(events, i + 1) {
                        Some((desc, after)) => {
                            proof {
                                let read = desc_until(events@, i + 1, Seq::empty(), None).unwrap();
                                raw_desc = desc_value(read.0, read.1);
                            }
                            head.desc = Some(desc);
                            i = after;
                        },
                        None => {
                            return None;
                        },
                    }
                } else if same_text(name.as_str(), "graph") {
                    return Some((head, i + 1));
                } else {
                    i = i + 1;
                }
            },
            XmlItem::Whitespace => {
                i = i + 1;
            },
            _ => {
                return None;
            },
        }
    }
    Some((head, i))
}

/// Whether what follows the graph is allowed.
fn check_tail(events: &Vec<XmlItem>, pos: usize) -> (ok: bool)
    requires
        pos <= events@.len(),
    ensures
        ok == tail_ok(events@, pos as int),
{
    let mut i: usize = pos;
    while i < events.len()
        invariant
            pos <= i <= events@.len(),
            tail_ok(events@, pos as int) == tail_ok(events@, i as int),
        decreases events@.len() - i,
    {
        match &events[i] {
            XmlItem::StartElement { name, .. } => {
                if same_text(name.as_str(), "key") || same_text(name.as_str(), "graph") {
                    return false;
                }
            },
            XmlItem::EndElement { name } => {
                if same_text(name.as_str(), "graphml") {
                    return true;
                }
            },
            XmlItem::Whitespace => {},
            _ => {
                return false;
            },
        }
        i = i + 1;
    }
    true
}

/// Reads a page graph from the items of a GraphML recording. The recording
/// must be written as a recording is, and its nodes and edges must make a
/// graph: no identifier twice, no edge without its ends.
pub fn read_graph(events: &Vec<XmlItem>) -> (read: Result<PageGraph, ReadFault>)
    ensures
        match read {
            Ok(g) => {
                &&& document(events@) is Some
                &&& g.wf()
                &&& desc_reads(g.desc, document(events@).unwrap().desc)
                &&& nodes_read(
                    g.nodes@,
                    document(events@).unwrap().nodes,
                    document(events@).unwrap().node_keys,
                )
                &&& edges_read(
                    g.edges@,
                    document(events@).unwrap().edges,
                    document(events@).unwrap().edge_keys,
                )
                &&& g.next_edge_id == usize::MAX
                &&& links_of(g.graph) == built_links(g.nodes@, g.edges@)
                &&& weights_of(g.graph) == built_weights(g.edges@)
            },
            Err(ReadFault::Malformed) => document(events@) is None,
            Err(ReadFault::Graph(fault)) => document(events@) is Some && exists|
                nodes: Seq<Node>,
                edges: Seq<Edge>,
            |
                #![trigger tables_fault(nodes, edges)]
                nodes_read(
                    nodes,
                    document(events@).unwrap().nodes,
                    document(events@).unwrap().node_keys,
                ) && edges_read(
                    edges,
                    document(events@).unwrap().edges,
                    document(events@).unwrap().edge_keys,
                ) && tables_fault(nodes, edges) == Some(fault),
        },
{
    if events.len() < 2 {
        return Err(ReadFault::Malformed);
    }
    match &events[0] {
        XmlItem::StartDocument => {},
        _ => {
            return Err(ReadFault::Malformed);
        },
    }
    match &events[1] {
        XmlItem::StartElement { name, .. } => {
            if !same_text(name.as_str(), "graphml") {
                return Err(ReadFault::Malformed);
            }
        },
        _ => {
            return Err(ReadFault::Malformed);
        },
    }
    let (head, after) = match read_head(events, 2) {
        Some(found) => found,
        None => {
            return Err(ReadFault::Malformed);
        },
    };
    let HeadRead { node_keys, edge_keys, desc } = head;
    let desc = match desc {
        Some(desc) => desc,
        None => {
            return Err(ReadFault::Malformed);
        },
    };
    let (nodes, edges, end) = match build_graph(events, after, &node_keys, &edge_keys) {
        Some(found) => found,
        None => {
            return Err(ReadFault::Malformed);
        },
    };
    if !check_tail(events, end) {
        return Err(ReadFault::Malformed);
    }
    let ghost all_nodes = nodes@;
    let ghost all_edges = edges@;
    match PageGraph::new(desc, edges, nodes) {
        Ok(g) => Ok(g),
        Err(fault) => {
            assert(tables_fault(all_nodes, all_edges) == Some(fault));
            Err(ReadFault::Graph(fault))
        },
    }
}

} // verus!
