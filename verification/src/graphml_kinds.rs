//! The kinds of nodes and edges as a GraphML recording names them, and the
//! values that each kind has.

use crate::graphml_fields::{names_of, texts_of};
use crate::graphml_text::{loose_bool_value, parse_loose_bool};
use crate::ids::{parse_frame_id, FrameId, ParseIdError};
use crate::text::{parse_usize, same_text, usize_value};
use crate::types::{request_type_named, EdgeType, NodeType, RequestType};
use vstd::prelude::*;

verus! {

/// Whether an optional string holds the optional text.
pub open spec fn texts_match(held: Option<String>, text: Option<Seq<char>>) -> bool {
    match (held, text) {
        (Some(s), Some(t)) => s@ == t,
        (None, None) => true,
        _ => false,
    }
}

/// Whether an optional number is what the optional text spells.
pub open spec fn number_matches(held: Option<usize>, text: Option<Seq<char>>) -> bool {
    match text {
        Some(t) => held is Some && held == usize_value(t),
        None => held is None,
    }
}

/// The names of the values that a node of the kind `kind` has, in the order they are read.
pub open spec fn node_field_names(kind: Seq<char>) -> Option<Seq<Seq<char>>> {
    if kind == "extensions"@ {
        Some(Seq::empty())
    } else if kind == "remote frame"@ {
        Some(seq!["frame id"@])
    } else if kind == "resource"@ {
        Some(seq!["url"@])
    } else if kind == "ad filter"@ {
        Some(seq!["rule"@])
    } else if kind == "tracker filter"@ {
        Some(Seq::empty())
    } else if kind == "fingerprinting filter"@ {
        Some(Seq::empty())
    } else if kind == "web API"@ {
        Some(seq!["method"@])
    } else if kind == "JS builtin"@ {
        Some(seq!["method"@])
    } else if kind == "HTML element"@ {
        Some(seq!["tag name"@, "is deleted"@, "node id"@])
    } else if kind == "text node"@ {
        Some(seq!["text"@, "is deleted"@, "node id"@])
    } else if kind == "DOM root"@ {
        Some(seq!["url"@, "tag name"@, "is deleted"@, "node id"@])
    } else if kind == "frame owner"@ {
        Some(seq!["tag name"@, "is deleted"@, "node id"@])
    } else if kind == "storage"@ {
        Some(Seq::empty())
    } else if kind == "local storage"@ {
        Some(Seq::empty())
    } else if kind == "session storage"@ {
        Some(Seq::empty())
    } else if kind == "cookie jar"@ {
        Some(Seq::empty())
    } else if kind == "script"@ {
        Some(seq!["url"@, "script type"@, "script id"@, "source"@])
    } else if kind == "parser"@ {
        Some(Seq::empty())
    } else if kind == "Brave Shields"@ {
        Some(Seq::empty())
    } else if kind == "shieldsAds shield"@ {
        Some(Seq::empty())
    } else if kind == "trackers shield"@ {
        Some(Seq::empty())
    } else if kind == "javascript shield"@ {
        Some(Seq::empty())
    } else if kind == "fingerprinting shield"@ {
        Some(Seq::empty())
    } else if kind == "fingerprintingV2 shield"@ {
        Some(Seq::empty())
    } else if kind == "binding"@ {
        Some(seq!["binding"@, "binding type"@])
    } else if kind == "binding event"@ {
        Some(seq!["binding event"@])
    } else {
        None
    }
}

/// Whether the values are those of a node of the kind `kind`: each value that the kind must have is there and spells what it should.
pub open spec fn node_values_ok(kind: Seq<char>, values: Seq<Option<Seq<char>>>) -> bool {
    if kind == "extensions"@ {
        values.len() == 0
    } else if kind == "remote frame"@ {
        values.len() == 1 && values[0] is Some && parse_frame_id(values[0].unwrap()) is Ok
    } else if kind == "resource"@ {
        values.len() == 1 && values[0] is Some
    } else if kind == "ad filter"@ {
        values.len() == 1 && values[0] is Some
    } else if kind == "tracker filter"@ {
        values.len() == 0
    } else if kind == "fingerprinting filter"@ {
        values.len() == 0
    } else if kind == "web API"@ {
        values.len() == 1 && values[0] is Some
    } else if kind == "JS builtin"@ {
        values.len() == 1 && values[0] is Some
    } else if kind == "HTML element"@ {
        values.len() == 3 && values[0] is Some && values[1] is Some && loose_bool_value(values[1].unwrap()) is Some && values[2] is Some && usize_value(values[2].unwrap()) is Some
    } else if kind == "text node"@ {
        values.len() == 3 && values[1] is Some && loose_bool_value(values[1].unwrap()) is Some && values[2] is Some && usize_value(values[2].unwrap()) is Some
    } else if kind == "DOM root"@ {
        values.len() == 4 && values[1] is Some && values[2] is Some && loose_bool_value(values[2].unwrap()) is Some && values[3] is Some && usize_value(values[3].unwrap()) is Some
    } else if kind == "frame owner"@ {
        values.len() == 3 && values[0] is Some && values[1] is Some && loose_bool_value(values[1].unwrap()) is Some && values[2] is Some && usize_value(values[2].unwrap()) is Some
    } else if kind == "storage"@ {
        values.len() == 0
    } else if kind == "local storage"@ {
        values.len() == 0
    } else if kind == "session storage"@ {
        values.len() == 0
    } else if kind == "cookie jar"@ {
        values.len() == 0
    } else if kind == "script"@ {
        values.len() == 4 && values[1] is Some && values[2] is Some && usize_value(values[2].unwrap()) is Some && values[3] is Some
    } else if kind == "parser"@ {
        values.len() == 0
    } else if kind == "Brave Shields"@ {
        values.len() == 0
    } else if kind == "shieldsAds shield"@ {
        values.len() == 0
    } else if kind == "trackers shield"@ {
        values.len() == 0
    } else if kind == "javascript shield"@ {
        values.len() == 0
    } else if kind == "fingerprinting shield"@ {
        values.len() == 0
    } else if kind == "fingerprintingV2 shield"@ {
        values.len() == 0
    } else if kind == "binding"@ {
        values.len() == 2 && values[0] is Some && values[1] is Some
    } else if kind == "binding event"@ {
        values.len() == 1 && values[0] is Some
    } else {
        false
    }
}

/// Whether `made` is the node kind `kind` with the values `values`.
pub open spec fn node_type_given(kind: Seq<char>, values: Seq<Option<Seq<char>>>, made: NodeType) -> bool {
    match made {
        NodeType::Extensions { } => kind == "extensions"@,
        NodeType::RemoteFrame { frame_id } => kind == "remote frame"@ && Ok::<FrameId, ParseIdError>(frame_id) == parse_frame_id(values[0].unwrap()),
        NodeType::Resource { url } => kind == "resource"@ && url@ == values[0].unwrap(),
        NodeType::AdFilter { rule } => kind == "ad filter"@ && rule@ == values[0].unwrap(),
        NodeType::TrackerFilter => kind == "tracker filter"@,
        NodeType::FingerprintingFilter => kind == "fingerprinting filter"@,
        NodeType::WebApi { method } => kind == "web API"@ && method@ == values[0].unwrap(),
        NodeType::JsBuiltin { method } => kind == "JS builtin"@ && method@ == values[0].unwrap(),
        NodeType::HtmlElement { tag_name, is_deleted, node_id } => kind == "HTML element"@ && tag_name@ == values[0].unwrap() && Some(is_deleted) == loose_bool_value(values[1].unwrap()) && Some(node_id) == usize_value(values[2].unwrap()),
        NodeType::TextNode { text, is_deleted, node_id } => kind == "text node"@ && texts_match(text, values[0]) && Some(is_deleted) == loose_bool_value(values[1].unwrap()) && Some(node_id) == usize_value(values[2].unwrap()),
        NodeType::DomRoot { url, tag_name, is_deleted, node_id } => kind == "DOM root"@ && texts_match(url, values[0]) && tag_name@ == values[1].unwrap() && Some(is_deleted) == loose_bool_value(values[2].unwrap()) && Some(node_id) == usize_value(values[3].unwrap()),
        NodeType::FrameOwner { tag_name, is_deleted, node_id } => kind == "frame owner"@ && tag_name@ == values[0].unwrap() && Some(is_deleted) == loose_bool_value(values[1].unwrap()) && Some(node_id) == usize_value(values[2].unwrap()),
        NodeType::Storage { } => kind == "storage"@,
        NodeType::LocalStorage { } => kind == "local storage"@,
        NodeType::SessionStorage { } => kind == "session storage"@,
        NodeType::CookieJar { } => kind == "cookie jar"@,
        NodeType::Script { url, script_type, script_id, source } => kind == "script"@ && texts_match(url, values[0]) && script_type@ == values[1].unwrap() && Some(script_id) == usize_value(values[2].unwrap()) && source@ == values[3].unwrap(),
        NodeType::Parser { } => kind == "parser"@,
        NodeType::BraveShields { } => kind == "Brave Shields"@,
        NodeType::AdsShield { } => kind == "shieldsAds shield"@,
        NodeType::TrackersShield { } => kind == "trackers shield"@,
        NodeType::JavascriptShield { } => kind == "javascript shield"@,
        NodeType::FingerprintingShield { } => kind == "fingerprinting shield"@,
        NodeType::FingerprintingV2Shield { } => kind == "fingerprintingV2 shield"@,
        NodeType::Binding { binding, binding_type } => kind == "binding"@ && binding@ == values[0].unwrap() && binding_type@ == values[1].unwrap(),
        NodeType::BindingEvent { binding_event } => kind == "binding event"@ && binding_event@ == values[0].unwrap(),
    }
}

/// The names of the values that a node of the kind `kind` has.
pub fn node_names(kind: &str) -> (names: Option<Vec<&'static str>>)
    ensures
        match names {
            Some(found) => node_field_names(kind@) == Some(names_of(found@)),
            None => node_field_names(kind@) is None,
        },
{
    if same_text(kind, "extensions") {
        let names: Vec<&'static str> = Vec::new();
        assert(names_of(names@) =~= Seq::<Seq<char>>::empty());
        Some(names)
    } else if same_text(kind, "remote frame") {
        let names: Vec<&'static str> = vec!["frame id"];
        assert(names_of(names@) =~= seq!["frame id"@]);
        Some(names)
    } else if same_text(kind, "resource") {
        let names: Vec<&'static str> = vec!["url"];
        assert(names_of(names@) =~= seq!["url"@]);
        Some(names)
    } else if same_text(kind, "ad filter") {
        let names: Vec<&'static str> = vec!["rule"];
        assert(names_of(names@) =~= seq!["rule"@]);
        Some(names)
    } else if same_text(kind, "tracker filter") {
        let names: Vec<&'static str> = Vec::new();
        assert(names_of(names@) =~= Seq::<Seq<char>>::empty());
        Some(names)
    } else if same_text(kind, "fingerprinting filter") {
        let names: Vec<&'static str> = Vec::new();
        assert(names_of(names@) =~= Seq::<Seq<char>>::empty());
        Some(names)
    } else if same_text(kind, "web API") {
        let names: Vec<&'static str> = vec!["method"];
        assert(names_of(names@) =~= seq!["method"@]);
        Some(names)
    } else if same_text(kind, "JS builtin") {
        let names: Vec<&'static str> = vec!["method"];
        assert(names_of(names@) =~= seq!["method"@]);
        Some(names)
    } else if same_text(kind, "HTML element") {
        let names: Vec<&'static str> = vec!["tag name", "is deleted", "node id"];
        assert(names_of(names@) =~= seq!["tag name"@, "is deleted"@, "node id"@]);
        Some(names)
    } else if same_text(kind, "text node") {
        let names: Vec<&'static str> = vec!["text", "is deleted", "node id"];
        assert(names_of(names@) =~= seq!["text"@, "is deleted"@, "node id"@]);
        Some(names)
    } else if same_text(kind, "DOM root") {
        let names: Vec<&'static str> = vec!["url", "tag name", "is deleted", "node id"];
        assert(names_of(names@) =~= seq!["url"@, "tag name"@, "is deleted"@, "node id"@]);
        Some(names)
    } else if same_text(kind, "frame owner") {
        let names: Vec<&'static str> = vec!["tag name", "is deleted", "node id"];
        assert(names_of(names@) =~= seq!["tag name"@, "is deleted"@, "node id"@]);
        Some(names)
    } else if same_text(kind, "storage") {
        let names: Vec<&'static str> = Vec::new();
        assert(names_of(names@) =~= Seq::<Seq<char>>::empty());
        Some(names)
    } else if same_text(kind, "local storage") {
        let names: Vec<&'static str> = Vec::new();
        assert(names_of(names@) =~= Seq::<Seq<char>>::empty());
        Some(names)
    } else if same_text(kind, "session storage") {
        let names: Vec<&'static str> = Vec::new();
        assert(names_of(names@) =~= Seq::<Seq<char>>::empty());
        Some(names)
    } else if same_text(kind, "cookie jar") {
        let names: Vec<&'static str> = Vec::new();
        assert(names_of(names@) =~= Seq::<Seq<char>>::empty());
        Some(names)
    } else if same_text(kind, "script") {
        let names: Vec<&'static str> = vec!["url", "script type", "script id", "source"];
        assert(names_of(names@) =~= seq!["url"@, "script type"@, "script id"@, "source"@]);
        Some(names)
    } else if same_text(kind, "parser") {
        let names: Vec<&'static str> = Vec::new();
        assert(names_of(names@) =~= Seq::<Seq<char>>::empty());
        Some(names)
    } else if same_text(kind, "Brave Shields") {
        let names: Vec<&'static str> = Vec::new();
        assert(names_of(names@) =~= Seq::<Seq<char>>::empty());
        Some(names)
    } else if same_text(kind, "shieldsAds shield") {
        let names: Vec<&'static str> = Vec::new();
        assert(names_of(names@) =~= Seq::<Seq<char>>::empty());
        Some(names)
    } else if same_text(kind, "trackers shield") {
        let names: Vec<&'static str> = Vec::new();
        assert(names_of(names@) =~= Seq::<Seq<char>>::empty());
        Some(names)
    } else if same_text(kind, "javascript shield") {
        let names: Vec<&'static str> = Vec::new();
        assert(names_of(names@) =~= Seq::<Seq<char>>::empty());
        Some(names)
    } else if same_text(kind, "fingerprinting shield") {
        let names: Vec<&'static str> = Vec::new();
        assert(names_of(names@) =~= Seq::<Seq<char>>::empty());
        Some(names)
    } else if same_text(kind, "fingerprintingV2 shield") {
        let names: Vec<&'static str> = Vec::new();
        assert(names_of(names@) =~= Seq::<Seq<char>>::empty());
        Some(names)
    } else if same_text(kind, "binding") {
        let names: Vec<&'static str> = vec!["binding", "binding type"];
        assert(names_of(names@) =~= seq!["binding"@, "binding type"@]);
        Some(names)
    } else if same_text(kind, "binding event") {
        let names: Vec<&'static str> = vec!["binding event"];
        assert(names_of(names@) =~= seq!["binding event"@]);
        Some(names)
    } else {
        None
    }
}

/// The node kind `kind` with the values `values`, if they are values of that kind.
pub fn make_node_type(kind: &str, values: Vec<Option<String>>) -> (made: Option<NodeType>)
    requires
        node_field_names(kind@) is Some ==> values@.len() == node_field_names(kind@).unwrap().len(),
    ensures
        match made {
            Some(t) => node_values_ok(kind@, texts_of(values@)) && node_type_given(kind@, texts_of(values@), t),
            None => !node_values_ok(kind@, texts_of(values@)),
        },
{
    let ghost texts = texts_of(values@);
    let mut values = values;
    if same_text(kind, "extensions") {
        Some(NodeType::Extensions { })
    } else if same_text(kind, "remote frame") {
        let v0 = values.pop().unwrap();
        proof {
            assert(texts[0] == match v0 {
                Some(s) => Some(s@),
                None => None,
            });
        }
        let frame_id = match v0 {
            Some(s) => match FrameId::try_from(s.as_str()) {
                Ok(x) => x,
                Err(_) => {
                    return None;
                },
            },
            None => {
                return None;
            },
        };
        Some(NodeType::RemoteFrame { frame_id })
    } else if same_text(kind, "resource") {
        let v0 = values.pop().unwrap();
        proof {
            assert(texts[0] == match v0 {
                Some(s) => Some(s@),
                None => None,
            });
        }
        let url = match v0 {
            Some(s) => s,
            None => {
                return None;
            },
        };
        Some(NodeType::Resource { url })
    } else if same_text(kind, "ad filter") {
        let v0 = values.pop().unwrap();
        proof {
            assert(texts[0] == match v0 {
                Some(s) => Some(s@),
                None => None,
            });
        }
        let rule = match v0 {
            Some(s) => s,
            None => {
                return None;
            },
        };
        Some(NodeType::AdFilter { rule })
    } else if same_text(kind, "tracker filter") {
        Some(NodeType::TrackerFilter)
    } else if same_text(kind, "fingerprinting filter") {
        Some(NodeType::FingerprintingFilter)
    } else if same_text(kind, "web API") {
        let v0 = values.pop().unwrap();
        proof {
            assert(texts[0] == match v0 {
                Some(s) => Some(s@),
                None => None,
            });
        }
        let method = match v0 {
            Some(s) => s,
            None => {
                return None;
            },
        };
        Some(NodeType::WebApi { method })
    } else if same_text(kind, "JS builtin") {
        let v0 = values.pop().unwrap();
        proof {
            assert(texts[0] == match v0 {
                Some(s) => Some(s@),
                None => None,
            });
        }
        let method = match v0 {
            Some(s) => s,
            None => {
                return None;
            },
        };
        Some(NodeType::JsBuiltin { method })
    } else if same_text(kind, "HTML element") {
        let v2 = values.pop().unwrap();
        let v1 = values.pop().unwrap();
        let v0 = values.pop().unwrap();
        proof {
            assert(texts[0] == match v0 {
                Some(s) => Some(s@),
                None => None,
            });
            assert(texts[1] == match v1 {
                Some(s) => Some(s@),
                None => None,
            });
            assert(texts[2] == match v2 {
                Some(s) => Some(s@),
                None => None,
            });
        }
        let tag_name = match v0 {
            Some(s) => s,
            None => {
                return None;
            },
        };
        let is_deleted = match v1 {
            Some(s) => match parse_loose_bool(s.as_str()) {
                Some(x) => x,
                None => {
                    return None;
                },
            },
            None => {
                return None;
            },
        };
        let node_id = match v2 {
            Some(s) => match parse_usize(s.as_str()) {
                Some(x) => x,
                None => {
                    return None;
                },
            },
            None => {
                return None;
            },
        };
        Some(NodeType::HtmlElement { tag_name, is_deleted, node_id })
    } else if same_text(kind, "text node") {
        let v2 = values.pop().unwrap();
        let v1 = values.pop().unwrap();
        let v0 = values.pop().unwrap();
        proof {
            assert(texts[0] == match v0 {
                Some(s) => Some(s@),
                None => None,
            });
            assert(texts[1] == match v1 {
                Some(s) => Some(s@),
                None => None,
            });
            assert(texts[2] == match v2 {
                Some(s) => Some(s@),
                None => None,
            });
        }
        let text = v0;
        let is_deleted = match v1 {
            Some(s) => match parse_loose_bool(s.as_str()) {
                Some(x) => x,
                None => {
                    return None;
                },
            },
            None => {
                return None;
            },
        };
        let node_id = match v2 {
            Some(s) => match parse_usize(s.as_str()) {
                Some(x) => x,
                None => {
                    return None;
                },
            },
            None => {
                return None;
            },
        };
        Some(NodeType::TextNode { text, is_deleted, node_id })
    } else if same_text(kind, "DOM root") {
        let v3 = values.pop().unwrap();
        let v2 = values.pop().unwrap();
        let v1 = values.pop().unwrap();
        let v0 = values.pop().unwrap();
        proof {
            assert(texts[0] == match v0 {
                Some(s) => Some(s@),
                None => None,
            });
            assert(texts[1] == match v1 {
                Some(s) => Some(s@),
                None => None,
            });
            assert(texts[2] == match v2 {
                Some(s) => Some(s@),
                None => None,
            });
            assert(texts[3] == match v3 {
                Some(s) => Some(s@),
                None => None,
            });
        }
        let url = v0;
        let tag_name = match v1 {
            Some(s) => s,
            None => {
                return None;
            },
        };
        let is_deleted = match v2 {
            Some(s) => match parse_loose_bool(s.as_str()) {
                Some(x) => x,
                None => {
                    return None;
                },
            },
            None => {
                return None;
            },
        };
        let node_id = match v3 {
            Some(s) => match parse_usize(s.as_str()) {
                Some(x) => x,
                None => {
                    return None;
                },
            },
            None => {
                return None;
            },
        };
        Some(NodeType::DomRoot { url, tag_name, is_deleted, node_id })
    } else if same_text(kind, "frame owner") {
        let v2 = values.pop().unwrap();
        let v1 = values.pop().unwrap();
        let v0 = values.pop().unwrap();
        proof {
            assert(texts[0] == match v0 {
                Some(s) => Some(s@),
                None => None,
            });
            assert(texts[1] == match v1 {
                Some(s) => Some(s@),
                None => None,
            });
            assert(texts[2] == match v2 {
                Some(s) => Some(s@),
                None => None,
            });
        }
        let tag_name = match v0 {
            Some(s) => s,
            None => {
                return None;
            },
        };
        let is_deleted = match v1 {
            Some(s) => match parse_loose_bool(s.as_str()) {
                Some(x) => x,
                None => {
                    return None;
                },
            },
            None => {
                return None;
            },
        };
        let node_id = match v2 {
            Some(s) => match parse_usize(s.as_str()) {
                Some(x) => x,
                None => {
                    return None;
                },
            },
            None => {
                return None;
            },
        };
        Some(NodeType::FrameOwner { tag_name, is_deleted, node_id })
    } else if same_text(kind, "storage") {
        Some(NodeType::Storage { })
    } else if same_text(kind, "local storage") {
        Some(NodeType::LocalStorage { })
    } else if same_text(kind, "session storage") {
        Some(NodeType::SessionStorage { })
    } else if same_text(kind, "cookie jar") {
        Some(NodeType::CookieJar { })
    } else if same_text(kind, "script") {
        let v3 = values.pop().unwrap();
        let v2 = values.pop().unwrap();
        let v1 = values.pop().unwrap();
        let v0 = values.pop().unwrap();
        proof {
            assert(texts[0] == match v0 {
                Some(s) => Some(s@),
                None => None,
            });
            assert(texts[1] == match v1 {
                Some(s) => Some(s@),
                None => None,
            });
            assert(texts[2] == match v2 {
                Some(s) => Some(s@),
                None => None,
            });
            assert(texts[3] == match v3 {
                Some(s) => Some(s@),
                None => None,
            });
        }
        let url = v0;
        let script_type = match v1 {
            Some(s) => s,
            None => {
                return None;
            },
        };
        let script_id = match v2 {
            Some(s) => match parse_usize(s.as_str()) {
                Some(x) => x,
                None => {
                    return None;
                },
            },
            None => {
                return None;
            },
        };
        let source = match v3 {
            Some(s) => s,
            None => {
                return None;
            },
        };
        Some(NodeType::Script { url, script_type, script_id, source })
    } else if same_text(kind, "parser") {
        Some(NodeType::Parser { })
    } else if same_text(kind, "Brave Shields") {
        Some(NodeType::BraveShields { })
    } else if same_text(kind, "shieldsAds shield") {
        Some(NodeType::AdsShield { })
    } else if same_text(kind, "trackers shield") {
        Some(NodeType::TrackersShield { })
    } else if same_text(kind, "javascript shield") {
        Some(NodeType::JavascriptShield { })
    } else if same_text(kind, "fingerprinting shield") {
        Some(NodeType::FingerprintingShield { })
    } else if same_text(kind, "fingerprintingV2 shield") {
        Some(NodeType::FingerprintingV2Shield { })
    } else if same_text(kind, "binding") {
        let v1 = values.pop().unwrap();
        let v0 = values.pop().unwrap();
        proof {
            assert(texts[0] == match v0 {
                Some(s) => Some(s@),
                None => None,
            });
            assert(texts[1] == match v1 {
                Some(s) => Some(s@),
                None => None,
            });
        }
        let binding = match v0 {
            Some(s) => s,
            None => {
                return None;
            },
        };
        let binding_type = match v1 {
            Some(s) => s,
            None => {
                return None;
            },
        };
        Some(NodeType::Binding { binding, binding_type })
    } else if same_text(kind, "binding event") {
        let v0 = values.pop().unwrap();
        proof {
            assert(texts[0] == match v0 {
                Some(s) => Some(s@),
                None => None,
            });
        }
        let binding_event = match v0 {
            Some(s) => s,
            None => {
                return None;
            },
        };
        Some(NodeType::BindingEvent { binding_event })
    } else {
        None
    }
}

/// The names of the values that an edge of the kind `kind` has, in the order they are read.
pub open spec fn edge_field_names(kind: Seq<char>) -> Option<Seq<Seq<char>>> {
    if kind == "filter"@ {
        Some(Seq::empty())
    } else if kind == "structure"@ {
        Some(Seq::empty())
    } else if kind == "cross DOM"@ {
        Some(Seq::empty())
    } else if kind == "resource block"@ {
        Some(Seq::empty())
    } else if kind == "shield"@ {
        Some(Seq::empty())
    } else if kind == "text change"@ {
        Some(Seq::empty())
    } else if kind == "remove node"@ {
        Some(Seq::empty())
    } else if kind == "delete node"@ {
        Some(Seq::empty())
    } else if kind == "insert node"@ {
        Some(seq!["parent"@, "before"@])
    } else if kind == "create node"@ {
        Some(Seq::empty())
    } else if kind == "js result"@ {
        Some(seq!["value"@])
    } else if kind == "js call"@ {
        Some(seq!["args"@, "script position"@])
    } else if kind == "request complete"@ {
        Some(seq!["resource type"@, "status"@, "value"@, "response hash"@, "request id"@, "headers"@, "size"@])
    } else if kind == "request error"@ {
        Some(seq!["status"@, "request id"@, "value"@, "headers"@, "size"@])
    } else if kind == "request start"@ {
        Some(seq!["request type"@, "status"@, "request id"@])
    } else if kind == "request response"@ {
        Some(Seq::empty())
    } else if kind == "add event listener"@ {
        Some(seq!["key"@, "event listener id"@, "script id"@])
    } else if kind == "remove event listener"@ {
        Some(seq!["key"@, "event listener id"@, "script id"@])
    } else if kind == "event listener"@ {
        Some(seq!["key"@, "event listener id"@])
    } else if kind == "storage set"@ {
        Some(seq!["key"@, "value"@])
    } else if kind == "storage read result"@ {
        Some(seq!["key"@, "value"@])
    } else if kind == "delete storage"@ {
        Some(seq!["key"@])
    } else if kind == "read storage call"@ {
        Some(seq!["key"@])
    } else if kind == "clear storage"@ {
        Some(seq!["key"@])
    } else if kind == "storage bucket"@ {
        Some(Seq::empty())
    } else if kind == "execute from attribute"@ {
        Some(seq!["attr name"@])
    } else if kind == "execute"@ {
        Some(Seq::empty())
    } else if kind == "set attribute"@ {
        Some(seq!["key"@, "value"@, "is style"@])
    } else if kind == "delete attribute"@ {
        Some(seq!["key"@, "is style"@])
    } else if kind == "binding"@ {
        Some(Seq::empty())
    } else if kind == "binding event"@ {
        Some(seq!["script position"@])
    } else {
        None
    }
}

/// Whether the values are those of an edge of the kind `kind`: each value that the kind must have is there and spells what it should.
pub open spec fn edge_values_ok(kind: Seq<char>, values: Seq<Option<Seq<char>>>) -> bool {
    if kind == "filter"@ {
        values.len() == 0
    } else if kind == "structure"@ {
        values.len() == 0
    } else if kind == "cross DOM"@ {
        values.len() == 0
    } else if kind == "resource block"@ {
        values.len() == 0
    } else if kind == "shield"@ {
        values.len() == 0
    } else if kind == "text change"@ {
        values.len() == 0
    } else if kind == "remove node"@ {
        values.len() == 0
    } else if kind == "delete node"@ {
        values.len() == 0
    } else if kind == "insert node"@ {
        values.len() == 2 && values[0] is Some && usize_value(values[0].unwrap()) is Some && (values[1] is Some ==> usize_value(values[1].unwrap()) is Some)
    } else if kind == "create node"@ {
        values.len() == 0
    } else if kind == "js result"@ {
        values.len() == 1
    } else if kind == "js call"@ {
        values.len() == 2 && values[1] is Some && usize_value(values[1].unwrap()) is Some
    } else if kind == "request complete"@ {
        values.len() == 7 && values[0] is Some && values[1] is Some && values[4] is Some && usize_value(values[4].unwrap()) is Some && values[5] is Some && values[6] is Some
    } else if kind == "request error"@ {
        values.len() == 5 && values[0] is Some && values[1] is Some && usize_value(values[1].unwrap()) is Some && values[3] is Some && values[4] is Some
    } else if kind == "request start"@ {
        values.len() == 3 && values[0] is Some && values[1] is Some && values[2] is Some && usize_value(values[2].unwrap()) is Some
    } else if kind == "request response"@ {
        values.len() == 0
    } else if kind == "add event listener"@ {
        values.len() == 3 && values[0] is Some && values[1] is Some && usize_value(values[1].unwrap()) is Some && values[2] is Some && usize_value(values[2].unwrap()) is Some
    } else if kind == "remove event listener"@ {
        values.len() == 3 && values[0] is Some && values[1] is Some && usize_value(values[1].unwrap()) is Some && values[2] is Some && usize_value(values[2].unwrap()) is Some
    } else if kind == "event listener"@ {
        values.len() == 2 && values[0] is Some && values[1] is Some && usize_value(values[1].unwrap()) is Some
    } else if kind == "storage set"@ {
        values.len() == 2 && values[0] is Some
    } else if kind == "storage read result"@ {
        values.len() == 2 && values[0] is Some
    } else if kind == "delete storage"@ {
        values.len() == 1 && values[0] is Some
    } else if kind == "read storage call"@ {
        values.len() == 1 && values[0] is Some
    } else if kind == "clear storage"@ {
        values.len() == 1 && values[0] is Some
    } else if kind == "storage bucket"@ {
        values.len() == 0
    } else if kind == "execute from attribute"@ {
        values.len() == 1 && values[0] is Some
    } else if kind == "execute"@ {
        values.len() == 0
    } else if kind == "set attribute"@ {
        values.len() == 3 && values[0] is Some && values[2] is Some && loose_bool_value(values[2].unwrap()) is Some
    } else if kind == "delete attribute"@ {
        values.len() == 2 && values[0] is Some && values[1] is Some && loose_bool_value(values[1].unwrap()) is Some
    } else if kind == "binding"@ {
        values.len() == 0
    } else if kind == "binding event"@ {
        values.len() == 1 && values[0] is Some && usize_value(values[0].unwrap()) is Some
    } else {
        false
    }
}

/// Whether `made` is the edge kind `kind` with the values `values`.
pub open spec fn edge_type_given(kind: Seq<char>, values: Seq<Option<Seq<char>>>, made: EdgeType) -> bool {
    match made {
        EdgeType::Filter { } => kind == "filter"@,
        EdgeType::Structure { } => kind == "structure"@,
        EdgeType::CrossDom { } => kind == "cross DOM"@,
        EdgeType::ResourceBlock { } => kind == "resource block"@,
        EdgeType::Shield { } => kind == "shield"@,
        EdgeType::TextChange { } => kind == "text change"@,
        EdgeType::RemoveNode { } => kind == "remove node"@,
        EdgeType::DeleteNode { } => kind == "delete node"@,
        EdgeType::InsertNode { parent, before } => kind == "insert node"@ && Some(parent) == usize_value(values[0].unwrap()) && number_matches(before, values[1]),
        EdgeType::CreateNode { } => kind == "create node"@,
        EdgeType::JsResult { value } => kind == "js result"@ && texts_match(value, values[0]),
        EdgeType::JsCall { args, script_position } => kind == "js call"@ && texts_match(args, values[0]) && Some(script_position) == usize_value(values[1].unwrap()),
        EdgeType::RequestComplete { resource_type, status, value, response_hash, request_id, headers, size } => kind == "request complete"@ && resource_type@ == values[0].unwrap() && status@ == values[1].unwrap() && texts_match(value, values[2]) && texts_match(response_hash, values[3]) && Some(request_id) == usize_value(values[4].unwrap()) && headers@ == values[5].unwrap() && size@ == values[6].unwrap(),
        EdgeType::RequestError { status, request_id, value, headers, size } => kind == "request error"@ && status@ == values[0].unwrap() && Some(request_id) == usize_value(values[1].unwrap()) && texts_match(value, values[2]) && headers@ == values[3].unwrap() && size@ == values[4].unwrap(),
        EdgeType::RequestStart { request_type, status, request_id } => kind == "request start"@ && request_type == request_type_named(values[0].unwrap()) && status@ == values[1].unwrap() && Some(request_id) == usize_value(values[2].unwrap()),
        EdgeType::RequestResponse => kind == "request response"@,
        EdgeType::AddEventListener { key, event_listener_id, script_id } => kind == "add event listener"@ && key@ == values[0].unwrap() && Some(event_listener_id) == usize_value(values[1].unwrap()) && Some(script_id) == usize_value(values[2].unwrap()),
        EdgeType::RemoveEventListener { key, event_listener_id, script_id } => kind == "remove event listener"@ && key@ == values[0].unwrap() && Some(event_listener_id) == usize_value(values[1].unwrap()) && Some(script_id) == usize_value(values[2].unwrap()),
        EdgeType::EventListener { key, event_listener_id } => kind == "event listener"@ && key@ == values[0].unwrap() && Some(event_listener_id) == usize_value(values[1].unwrap()),
        EdgeType::StorageSet { key, value } => kind == "storage set"@ && key@ == values[0].unwrap() && texts_match(value, values[1]),
        EdgeType::StorageReadResult { key, value } => kind == "storage read result"@ && key@ == values[0].unwrap() && texts_match(value, values[1]),
        EdgeType::DeleteStorage { key } => kind == "delete storage"@ && key@ == values[0].unwrap(),
        EdgeType::ReadStorageCall { key } => kind == "read storage call"@ && key@ == values[0].unwrap(),
        EdgeType::ClearStorage { key } => kind == "clear storage"@ && key@ == values[0].unwrap(),
        EdgeType::StorageBucket { } => kind == "storage bucket"@,
        EdgeType::ExecuteFromAttribute { attr_name } => kind == "execute from attribute"@ && attr_name@ == values[0].unwrap(),
        EdgeType::Execute { } => kind == "execute"@,
        EdgeType::SetAttribute { key, value, is_style } => kind == "set attribute"@ && key@ == values[0].unwrap() && texts_match(value, values[1]) && Some(is_style) == loose_bool_value(values[2].unwrap()),
        EdgeType::DeleteAttribute { key, is_style } => kind == "delete attribute"@ && key@ == values[0].unwrap() && Some(is_style) == loose_bool_value(values[1].unwrap()),
        EdgeType::Binding { } => kind == "binding"@,
        EdgeType::BindingEvent { script_position } => kind == "binding event"@ && Some(script_position) == usize_value(values[0].unwrap()),
    }
}

/// The names of the values that an edge of the kind `kind` has.
pub fn edge_names(kind: &str) -> (names: Option<Vec<&'static str>>)
    ensures
        match names {
            Some(found) => edge_field_names(kind@) == Some(names_of(found@)),
            None => edge_field_names(kind@) is None,
        },
{
    if same_text(kind, "filter") {
        let names: Vec<&'static str> = Vec::new();
        assert(names_of(names@) =~= Seq::<Seq<char>>::empty());
        Some(names)
    } else if same_text(kind, "structure") {
        let names: Vec<&'static str> = Vec::new();
        assert(names_of(names@) =~= Seq::<Seq<char>>::empty());
        Some(names)
    } else if same_text(kind, "cross DOM") {
        let names: Vec<&'static str> = Vec::new();
        assert(names_of(names@) =~= Seq::<Seq<char>>::empty());
        Some(names)
    } else if same_text(kind, "resource block") {
        let names: Vec<&'static str> = Vec::new();
        assert(names_of(names@) =~= Seq::<Seq<char>>::empty());
        Some(names)
    } else if same_text(kind, "shield") {
        let names: Vec<&'static str> = Vec::new();
        assert(names_of(names@) =~= Seq::<Seq<char>>::empty());
        Some(names)
    } else if same_text(kind, "text change") {
        let names: Vec<&'static str> = Vec::new();
        assert(names_of(names@) =~= Seq::<Seq<char>>::empty());
        Some(names)
    } else if same_text(kind, "remove node") {
        let names: Vec<&'static str> = Vec::new();
        assert(names_of(names@) =~= Seq::<Seq<char>>::empty());
        Some(names)
    } else if same_text(kind, "delete node") {
        let names: Vec<&'static str> = Vec::new();
        assert(names_of(names@) =~= Seq::<Seq<char>>::empty());
        Some(names)
    } else if same_text(kind, "insert node") {
        let names: Vec<&'static str> = vec!["parent", "before"];
        assert(names_of(names@) =~= seq!["parent"@, "before"@]);
        Some(names)
    } else if same_text(kind, "create node") {
        let names: Vec<&'static str> = Vec::new();
        assert(names_of(names@) =~= Seq::<Seq<char>>::empty());
        Some(names)
    } else if same_text(kind, "js result") {
        let names: Vec<&'static str> = vec!["value"];
        assert(names_of(names@) =~= seq!["value"@]);
        Some(names)
    } else if same_text(kind, "js call") {
        let names: Vec<&'static str> = vec!["args", "script position"];
        assert(names_of(names@) =~= seq!["args"@, "script position"@]);
        Some(names)
    } else if same_text(kind, "request complete") {
        let names: Vec<&'static str> = vec!["resource type", "status", "value", "response hash", "request id", "headers", "size"];
        assert(names_of(names@) =~= seq!["resource type"@, "status"@, "value"@, "response hash"@, "request id"@, "headers"@, "size"@]);
        Some(names)
    } else if same_text(kind, "request error") {
        let names: Vec<&'static str> = vec!["status", "request id", "value", "headers", "size"];
        assert(names_of(names@) =~= seq!["status"@, "request id"@, "value"@, "headers"@, "size"@]);
        Some(names)
    } else if same_text(kind, "request start") {
        let names: Vec<&'static str> = vec!["request type", "status", "request id"];
        assert(names_of(names@) =~= seq!["request type"@, "status"@, "request id"@]);
        Some(names)
    } else if same_text(kind, "request response") {
        let names: Vec<&'static str> = Vec::new();
        assert(names_of(names@) =~= Seq::<Seq<char>>::empty());
        Some(names)
    } else if same_text(kind, "add event listener") {
        let names: Vec<&'static str> = vec!["key", "event listener id", "script id"];
        assert(names_of(names@) =~= seq!["key"@, "event listener id"@, "script id"@]);
        Some(names)
    } else if same_text(kind, "remove event listener") {
        let names: Vec<&'static str> = vec!["key", "event listener id", "script id"];
        assert(names_of(names@) =~= seq!["key"@, "event listener id"@, "script id"@]);
        Some(names)
    } else if same_text(kind, "event listener") {
        let names: Vec<&'static str> = vec!["key", "event listener id"];
        assert(names_of(names@) =~= seq!["key"@, "event listener id"@]);
        Some(names)
    } else if same_text(kind, "storage set") {
        let names: Vec<&'static str> = vec!["key", "value"];
        assert(names_of(names@) =~= seq!["key"@, "value"@]);
        Some(names)
    } else if same_text(kind, "storage read result") {
        let names: Vec<&'static str> = vec!["key", "value"];
        assert(names_of(names@) =~= seq!["key"@, "value"@]);
        Some(names)
    } else if same_text(kind, "delete storage") {
        let names: Vec<&'static str> = vec!["key"];
        assert(names_of(names@) =~= seq!["key"@]);
        Some(names)
    } else if same_text(kind, "read storage call") {
        let names: Vec<&'static str> = vec!["key"];
        assert(names_of(names@) =~= seq!["key"@]);
        Some(names)
    } else if same_text(kind, "clear storage") {
        let names: Vec<&'static str> = vec!["key"];
        assert(names_of(names@) =~= seq!["key"@]);
        Some(names)
    } else if same_text(kind, "storage bucket") {
        let names: Vec<&'static str> = Vec::new();
        assert(names_of(names@) =~= Seq::<Seq<char>>::empty());
        Some(names)
    } else if same_text(kind, "execute from attribute") {
        let names: Vec<&'static str> = vec!["attr name"];
        assert(names_of(names@) =~= seq!["attr name"@]);
        Some(names)
    } else if same_text(kind, "execute") {
        let names: Vec<&'static str> = Vec::new();
        assert(names_of(names@) =~= Seq::<Seq<char>>::empty());
        Some(names)
    } else if same_text(kind, "set attribute") {
        let names: Vec<&'static str> = vec!["key", "value", "is style"];
        assert(names_of(names@) =~= seq!["key"@, "value"@, "is style"@]);
        Some(names)
    } else if same_text(kind, "delete attribute") {
        let names: Vec<&'static str> = vec!["key", "is style"];
        assert(names_of(names@) =~= seq!["key"@, "is style"@]);
        Some(names)
    } else if same_text(kind, "binding") {
        let names: Vec<&'static str> = Vec::new();
        assert(names_of(names@) =~= Seq::<Seq<char>>::empty());
        Some(names)
    } else if same_text(kind, "binding event") {
        let names: Vec<&'static str> = vec!["script position"];
        assert(names_of(names@) =~= seq!["script position"@]);
        Some(names)
    } else {
        None
    }
}

/// The edge kind `kind` with the values `values`, if they are values of that kind.
pub fn make_edge_type(kind: &str, values: Vec<Option<String>>) -> (made: Option<EdgeType>)
    requires
        edge_field_names(kind@) is Some ==> values@.len() == edge_field_names(kind@).unwrap().len(),
    ensures
        match made {
            Some(t) => edge_values_ok(kind@, texts_of(values@)) && edge_type_given(kind@, texts_of(values@), t),
            None => !edge_values_ok(kind@, texts_of(values@)),
        },
{
    let ghost texts = texts_of(values@);
    let mut values = values;
    if same_text(kind, "filter") {
        Some(EdgeType::Filter { })
    } else if same_text(kind, "structure") {
        Some(EdgeType::Structure { })
    } else if same_text(kind, "cross DOM") {
        Some(EdgeType::CrossDom { })
    } else if same_text(kind, "resource block") {
        Some(EdgeType::ResourceBlock { })
    } else if same_text(kind, "shield") {
        Some(EdgeType::Shield { })
    } else if same_text(kind, "text change") {
        Some(EdgeType::TextChange { })
    } else if same_text(kind, "remove node") {
        Some(EdgeType::RemoveNode { })
    } else if same_text(kind, "delete node") {
        Some(EdgeType::DeleteNode { })
    } else if same_text(kind, "insert node") {
        let v1 = values.pop().unwrap();
        let v0 = values.pop().unwrap();
        proof {
            assert(texts[0] == match v0 {
                Some(s) => Some(s@),
                None => None,
            });
            assert(texts[1] == match v1 {
                Some(s) => Some(s@),
                None => None,
            });
        }
        let parent = match v0 {
            Some(s) => match parse_usize(s.as_str()) {
                Some(x) => x,
                None => {
                    return None;
                },
            },
            None => {
                return None;
            },
        };
        let before = match v1 {
            Some(s) => match parse_usize(s.as_str()) {
                Some(x) => Some(x),
                None => {
                    return None;
                },
            },
            None => None,
        };
        Some(EdgeType::InsertNode { parent, before })
    } else if same_text(kind, "create node") {
        Some(EdgeType::CreateNode { })
    } else if same_text(kind, "js result") {
        let v0 = values.pop().unwrap();
        proof {
            assert(texts[0] == match v0 {
                Some(s) => Some(s@),
                None => None,
            });
        }
        let value = v0;
        Some(EdgeType::JsResult { value })
    } else if same_text(kind, "js call") {
        let v1 = values.pop().unwrap();
        let v0 = values.pop().unwrap();
        proof {
            assert(texts[0] == match v0 {
                Some(s) => Some(s@),
                None => None,
            });
            assert(texts[1] == match v1 {
                Some(s) => Some(s@),
                None => None,
            });
        }
        let args = v0;
        let script_position = match v1 {
            Some(s) => match parse_usize(s.as_str()) {
                Some(x) => x,
                None => {
                    return None;
                },
            },
            None => {
                return None;
            },
        };
        Some(EdgeType::JsCall { args, script_position })
    } else if same_text(kind, "request complete") {
        let v6 = values.pop().unwrap();
        let v5 = values.pop().unwrap();
        let v4 = values.pop().unwrap();
        let v3 = values.pop().unwrap();
        let v2 = values.pop().unwrap();
        let v1 = values.pop().unwrap();
        let v0 = values.pop().unwrap();
        proof {
            assert(texts[0] == match v0 {
                Some(s) => Some(s@),
                None => None,
            });
            assert(texts[1] == match v1 {
                Some(s) => Some(s@),
                None => None,
            });
            assert(texts[2] == match v2 {
                Some(s) => Some(s@),
                None => None,
            });
            assert(texts[3] == match v3 {
                Some(s) => Some(s@),
                None => None,
            });
            assert(texts[4] == match v4 {
                Some(s) => Some(s@),
                None => None,
            });
            assert(texts[5] == match v5 {
                Some(s) => Some(s@),
                None => None,
            });
            assert(texts[6] == match v6 {
                Some(s) => Some(s@),
                None => None,
            });
        }
        let resource_type = match v0 {
            Some(s) => s,
            None => {
                return None;
            },
        };
        let status = match v1 {
            Some(s) => s,
            None => {
                return None;
            },
        };
        let value = v2;
        let response_hash = v3;
        let request_id = match v4 {
            Some(s) => match parse_usize(s.as_str()) {
                Some(x) => x,
                None => {
                    return None;
                },
            },
            None => {
                return None;
            },
        };
        let headers = match v5 {
            Some(s) => s,
            None => {
                return None;
            },
        };
        let size = match v6 {
            Some(s) => s,
            None => {
                return None;
            },
        };
        Some(EdgeType::RequestComplete { resource_type, status, value, response_hash, request_id, headers, size })
    } else if same_text(kind, "request error") {
        let v4 = values.pop().unwrap();
        let v3 = values.pop().unwrap();
        let v2 = values.pop().unwrap();
        let v1 = values.pop().unwrap();
        let v0 = values.pop().unwrap();
        proof {
            assert(texts[0] == match v0 {
                Some(s) => Some(s@),
                None => None,
            });
            assert(texts[1] == match v1 {
                Some(s) => Some(s@),
                None => None,
            });
            assert(texts[2] == match v2 {
                Some(s) => Some(s@),
                None => None,
            });
            assert(texts[3] == match v3 {
                Some(s) => Some(s@),
                None => None,
            });
            assert(texts[4] == match v4 {
                Some(s) => Some(s@),
                None => None,
            });
        }
        let status = match v0 {
            Some(s) => s,
            None => {
                return None;
            },
        };
        let request_id = match v1 {
            Some(s) => match parse_usize(s.as_str()) {
                Some(x) => x,
                None => {
                    return None;
                },
            },
            None => {
                return None;
            },
        };
        let value = v2;
        let headers = match v3 {
            Some(s) => s,
            None => {
                return None;
            },
        };
        let size = match v4 {
            Some(s) => s,
            None => {
                return None;
            },
        };
        Some(EdgeType::RequestError { status, request_id, value, headers, size })
    } else if same_text(kind, "request start") {
        let v2 = values.pop().unwrap();
        let v1 = values.pop().unwrap();
        let v0 = values.pop().unwrap();
        proof {
            assert(texts[0] == match v0 {
                Some(s) => Some(s@),
                None => None,
            });
            assert(texts[1] == match v1 {
                Some(s) => Some(s@),
                None => None,
            });
            assert(texts[2] == match v2 {
                Some(s) => Some(s@),
                None => None,
            });
        }
        let request_type = match v0 {
            Some(s) => RequestType::from(s.as_str()),
            None => {
                return None;
            },
        };
        let status = match v1 {
            Some(s) => s,
            None => {
                return None;
            },
        };
        let request_id = match v2 {
            Some(s) => match parse_usize(s.as_str()) {
                Some(x) => x,
                None => {
                    return None;
                },
            },
            None => {
                return None;
            },
        };
        Some(EdgeType::RequestStart { request_type, status, request_id })
    } else if same_text(kind, "request response") {
        Some(EdgeType::RequestResponse)
    } else if same_text(kind, "add event listener") {
        let v2 = values.pop().unwrap();
        let v1 = values.pop().unwrap();
        let v0 = values.pop().unwrap();
        proof {
            assert(texts[0] == match v0 {
                Some(s) => Some(s@),
                None => None,
            });
            assert(texts[1] == match v1 {
                Some(s) => Some(s@),
                None => None,
            });
            assert(texts[2] == match v2 {
                Some(s) => Some(s@),
                None => None,
            });
        }
        let key = match v0 {
            Some(s) => s,
            None => {
                return None;
            },
        };
        let event_listener_id = match v1 {
            Some(s) => match parse_usize(s.as_str()) {
                Some(x) => x,
                None => {
                    return None;
                },
            },
            None => {
                return None;
            },
        };
        let script_id = match v2 {
            Some(s) => match parse_usize(s.as_str()) {
                Some(x) => x,
                None => {
                    return None;
                },
            },
            None => {
                return None;
            },
        };
        Some(EdgeType::AddEventListener { key, event_listener_id, script_id })
    } else if same_text(kind, "remove event listener") {
        let v2 = values.pop().unwrap();
        let v1 = values.pop().unwrap();
        let v0 = values.pop().unwrap();
        proof {
            assert(texts[0] == match v0 {
                Some(s) => Some(s@),
                None => None,
            });
            assert(texts[1] == match v1 {
                Some(s) => Some(s@),
                None => None,
            });
            assert(texts[2] == match v2 {
                Some(s) => Some(s@),
                None => None,
            });
        }
        let key = match v0 {
            Some(s) => s,
            None => {
                return None;
            },
        };
        let event_listener_id = match v1 {
            Some(s) => match parse_usize(s.as_str()) {
                Some(x) => x,
                None => {
                    return None;
                },
            },
            None => {
                return None;
            },
        };
        let script_id = match v2 {
            Some(s) => match parse_usize(s.as_str()) {
                Some(x) => x,
                None => {
                    return None;
                },
            },
            None => {
                return None;
            },
        };
        Some(EdgeType::RemoveEventListener { key, event_listener_id, script_id })
    } else if same_text(kind, "event listener") {
        let v1 = values.pop().unwrap();
        let v0 = values.pop().unwrap();
        proof {
            assert(texts[0] == match v0 {
                Some(s) => Some(s@),
                None => None,
            });
            assert(texts[1] == match v1 {
                Some(s) => Some(s@),
                None => None,
            });
        }
        let key = match v0 {
            Some(s) => s,
            None => {
                return None;
            },
        };
        let event_listener_id = match v1 {
            Some(s) => match parse_usize(s.as_str()) {
                Some(x) => x,
                None => {
                    return None;
                },
            },
            None => {
                return None;
            },
        };
        Some(EdgeType::EventListener { key, event_listener_id })
    } else if same_text(kind, "storage set") {
        let v1 = values.pop().unwrap();
        let v0 = values.pop().unwrap();
        proof {
            assert(texts[0] == match v0 {
                Some(s) => Some(s@),
                None => None,
            });
            assert(texts[1] == match v1 {
                Some(s) => Some(s@),
                None => None,
            });
        }
        let key = match v0 {
            Some(s) => s,
            None => {
                return None;
            },
        };
        let value = v1;
        Some(EdgeType::StorageSet { key, value })
    } else if same_text(kind, "storage read result") {
        let v1 = values.pop().unwrap();
        let v0 = values.pop().unwrap();
        proof {
            assert(texts[0] == match v0 {
                Some(s) => Some(s@),
                None => None,
            });
            assert(texts[1] == match v1 {
                Some(s) => Some(s@),
                None => None,
            });
        }
        let key = match v0 {
            Some(s) => s,
            None => {
                return None;
            },
        };
        let value = v1;
        Some(EdgeType::StorageReadResult { key, value })
    } else if same_text(kind, "delete storage") {
        let v0 = values.pop().unwrap();
        proof {
            assert(texts[0] == match v0 {
                Some(s) => Some(s@),
                None => None,
            });
        }
        let key = match v0 {
            Some(s) => s,
            None => {
                return None;
            },
        };
        Some(EdgeType::DeleteStorage { key })
    } else if same_text(kind, "read storage call") {
        let v0 = values.pop().unwrap();
        proof {
            assert(texts[0] == match v0 {
                Some(s) => Some(s@),
                None => None,
            });
        }
        let key = match v0 {
            Some(s) => s,
            None => {
                return None;
            },
        };
        Some(EdgeType::ReadStorageCall { key })
    } else if same_text(kind, "clear storage") {
        let v0 = values.pop().unwrap();
        proof {
            assert(texts[0] == match v0 {
                Some(s) => Some(s@),
                None => None,
            });
        }
        let key = match v0 {
            Some(s) => s,
            None => {
                return None;
            },
        };
        Some(EdgeType::ClearStorage { key })
    } else if same_text(kind, "storage bucket") {
        Some(EdgeType::StorageBucket { })
    } else if same_text(kind, "execute from attribute") {
        let v0 = values.pop().unwrap();
        proof {
            assert(texts[0] == match v0 {
                Some(s) => Some(s@),
                None => None,
            });
        }
        let attr_name = match v0 {
            Some(s) => s,
            None => {
                return None;
            },
        };
        Some(EdgeType::ExecuteFromAttribute { attr_name })
    } else if same_text(kind, "execute") {
        Some(EdgeType::Execute { })
    } else if same_text(kind, "set attribute") {
        let v2 = values.pop().unwrap();
        let v1 = values.pop().unwrap();
        let v0 = values.pop().unwrap();
        proof {
            assert(texts[0] == match v0 {
                Some(s) => Some(s@),
                None => None,
            });
            assert(texts[1] == match v1 {
                Some(s) => Some(s@),
                None => None,
            });
            assert(texts[2] == match v2 {
                Some(s) => Some(s@),
                None => None,
            });
        }
        let key = match v0 {
            Some(s) => s,
            None => {
                return None;
            },
        };
        let value = v1;
        let is_style = match v2 {
            Some(s) => match parse_loose_bool(s.as_str()) {
                Some(x) => x,
                None => {
                    return None;
                },
            },
            None => {
                return None;
            },
        };
        Some(EdgeType::SetAttribute { key, value, is_style })
    } else if same_text(kind, "delete attribute") {
        let v1 = values.pop().unwrap();
        let v0 = values.pop().unwrap();
        proof {
            assert(texts[0] == match v0 {
                Some(s) => Some(s@),
                None => None,
            });
            assert(texts[1] == match v1 {
                Some(s) => Some(s@),
                None => None,
            });
        }
        let key = match v0 {
            Some(s) => s,
            None => {
                return None;
            },
        };
        let is_style = match v1 {
            Some(s) => match parse_loose_bool(s.as_str()) {
                Some(x) => x,
                None => {
                    return None;
                },
            },
            None => {
                return None;
            },
        };
        Some(EdgeType::DeleteAttribute { key, is_style })
    } else if same_text(kind, "binding") {
        Some(EdgeType::Binding { })
    } else if same_text(kind, "binding event") {
        let v0 = values.pop().unwrap();
        proof {
            assert(texts[0] == match v0 {
                Some(s) => Some(s@),
                None => None,
            });
        }
        let script_position = match v0 {
            Some(s) => match parse_usize(s.as_str()) {
                Some(x) => x,
                None => {
                    return None;
                },
            },
            None => {
                return None;
            },
        };
        Some(EdgeType::BindingEvent { script_position })
    } else {
        None
    }
}

} // verus!
