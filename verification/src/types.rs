//! The kinds of nodes and edges, each with the data of its kind.

use crate::ids::FrameId;
use crate::text::same_text;
use vstd::prelude::*;

verus! {

/// The kind of a node, with the data of that kind. Nodes are actors (a
/// script, the parser) or what is acted on (an element, a resource).
#[derive(Clone, PartialEq, Debug)]
#[allow(inconsistent_fields)]
pub enum NodeType {
    /// A URL that was requested from the network.
    Resource { url: String },
    /// A Web API that scripts called.
    WebApi { method: String },
    /// A built-in function of the script language that scripts called.
    JsBuiltin { method: String },
    /// An HTML element; `node_id` is the number the browser gave it.
    HtmlElement { tag_name: String, is_deleted: bool, node_id: usize },
    /// A text node of the DOM.
    TextNode { text: Option<String>, is_deleted: bool, node_id: usize },
    /// The top of a document.
    DomRoot { url: Option<String>, tag_name: String, is_deleted: bool, node_id: usize },
    /// An element that holds a frame.
    FrameOwner { tag_name: String, is_deleted: bool, node_id: usize },
    LocalStorage {  },
    SessionStorage {  },
    CookieJar {  },
    /// A unit of script code that ran.
    Script { url: Option<String>, script_type: String, script_id: usize, source: String },
    /// The HTML parser.
    Parser {  },
    Binding { binding: String, binding_type: String },
    BindingEvent { binding_event: String },
    /// The place of a frame that was recorded apart, under `frame_id`.
    RemoteFrame { frame_id: FrameId },
    AdFilter { rule: String },
    TrackerFilter,
    FingerprintingFilter,
    Storage {  },
    BraveShields {  },
    AdsShield {  },
    TrackersShield {  },
    JavascriptShield {  },
    FingerprintingShield {  },
    FingerprintingV2Shield {  },
    Extensions {  },
}

/// How a request was made.
#[derive(Clone, Copy, PartialEq, Eq, Debug, Structural)]
pub enum RequestType {
    Image,
    Script,
    CSS,
    AJAX,
    Unknown,
}

/// The kind of request that a recorded name stands for; a name that is not
/// known stands for `Unknown`.
pub open spec fn request_type_named(name: Seq<char>) -> RequestType {
    if name == "Image"@ {
        RequestType::Image
    } else if name == "Script"@ {
        RequestType::Script
    } else if name == "CSS"@ {
        RequestType::CSS
    } else if name == "AJAX"@ {
        RequestType::AJAX
    } else {
        RequestType::Unknown
    }
}

/// The label under which filter rules know a kind of request.
pub open spec fn request_type_label(request_type: RequestType) -> Seq<char> {
    match request_type {
        RequestType::Image => "image"@,
        RequestType::Script => "script"@,
        RequestType::CSS => "stylesheet"@,
        RequestType::AJAX => "xhr"@,
        RequestType::Unknown => "unknown"@,
    }
}

impl RequestType {
    /// The kind of request that the recorded name `v` stands for.
    pub fn from(v: &str) -> (r: RequestType)
        ensures
            r == request_type_named(v@),
    {
        if same_text(v, "Image") {
            RequestType::Image
        } else if same_text(v, "Script") {
            RequestType::Script
        } else if same_text(v, "CSS") {
            RequestType::CSS
        } else if same_text(v, "AJAX") {
            RequestType::AJAX
        } else {
            RequestType::Unknown
        }
    }

    /// The label under which filter rules know this kind of request.
    pub fn as_str(&self) -> (r: &'static str)
        ensures
            r@ == request_type_label(*self),
    {
        match self {
            RequestType::Image => "image",
            RequestType::Script => "script",
            RequestType::CSS => "stylesheet",
            RequestType::AJAX => "xhr",
            RequestType::Unknown => "unknown",
        }
    }
}

/// The kind of an edge, with the data of that kind. An edge is an action: it
/// leaves the actor and enters what is acted on.
#[derive(Clone, PartialEq, Debug)]
#[allow(inconsistent_fields)]
pub enum EdgeType {
    /// Leads from one frame context into another.
    CrossDom {  },
    TextChange {  },
    RemoveNode {  },
    DeleteNode {  },
    /// An element is put into a document, below the element numbered `parent`.
    InsertNode { parent: usize, before: Option<usize> },
    /// An element is created.
    CreateNode {  },
    JsResult { value: Option<String> },
    JsCall { args: Option<String>, script_position: usize },
    /// A request was answered.
    RequestComplete {
        resource_type: String,
        status: String,
        value: Option<String>,
        response_hash: Option<String>,
        request_id: usize,
        headers: String,
        size: String,
    },
    /// A request failed.
    RequestError {
        status: String,
        request_id: usize,
        value: Option<String>,
        headers: String,
        size: String,
    },
    /// A request was sent.
    RequestStart { request_type: RequestType, status: String, request_id: usize },
    RequestResponse,
    AddEventListener { key: String, event_listener_id: usize, script_id: usize },
    RemoveEventListener { key: String, event_listener_id: usize, script_id: usize },
    EventListener { key: String, event_listener_id: usize },
    StorageSet { key: String, value: Option<String> },
    StorageReadResult { key: String, value: Option<String> },
    DeleteStorage { key: String },
    ReadStorageCall { key: String },
    ClearStorage { key: String },
    ExecuteFromAttribute { attr_name: String },
    /// A script is run.
    Execute {  },
    /// An attribute of an element is set.
    SetAttribute { key: String, value: Option<String>, is_style: bool },
    DeleteAttribute { key: String, is_style: bool },
    Binding {  },
    BindingEvent { script_position: usize },
    Filter {  },
    Structure {  },
    Shield {  },
    ResourceBlock {  },
    StorageBucket {  },
}

} // verus!
