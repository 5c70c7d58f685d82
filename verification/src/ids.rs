//! Identifiers of nodes and edges.
//!
//! An identifier is a number, local to the frame that recorded it, and the
//! token of that frame where the item came from an embedded frame. Its text
//! form is `n` or `e`, the number in decimal and, for an item of an embedded
//! frame, a colon and the frame token as 32 hexadecimal digits.

use crate::text::{bounded_value, chars_of, decimal_text, hex_text, push_decimal, push_hex, read_unsigned};

use vstd::prelude::*;
use vstd::utf8::encode_utf8;

verus! {

/// Why a text is not an identifier.
#[derive(Debug, PartialEq, Eq, Clone, Copy, Structural)]
pub enum ParseIdError {
    /// The text does not start with the letter of its kind.
    MissingPrefix,
    /// A number is missing, malformed or too large.
    ParseIntError,
    /// The frame token is not 32 bytes long.
    FrameIdLength,
}

/// The token of a frame: 128 bits, written as 32 hexadecimal digits.
#[derive(Debug, PartialEq, Eq, Hash, Clone, Copy, PartialOrd, Ord, Structural)]
pub struct FrameId(pub u128);

/// A number local to a frame, and the frame's token for an item that came
/// from an embedded frame.
#[derive(Debug, PartialEq, Eq, Hash, Clone, Copy, PartialOrd, Ord, Structural)]
pub struct GraphItemId {
    pub id: usize,
    pub frame_id: Option<FrameId>,
}

/// An identifier used to reference a node.
#[derive(Debug, PartialEq, Eq, Hash, Clone, Copy, PartialOrd, Ord, Structural)]
pub struct NodeId(pub GraphItemId);

/// An identifier used to reference an edge.
#[derive(Debug, PartialEq, Eq, Hash, Clone, Copy, PartialOrd, Ord, Structural)]
pub struct EdgeId(pub GraphItemId);

/// The place of the first `c` in `s` at or after `from`.
pub open spec fn first_index_from(s: Seq<char>, c: char, from: int) -> Option<int>
    decreases s.len() - from,
{
    if from < 0 || from >= s.len() {
        None
    } else if s[from] == c {
        Some(from)
    } else {
        first_index_from(s, c, from + 1)
    }
}

/// What a text is as a frame token: 32 bytes that spell a hexadecimal number.
pub open spec fn parse_frame_id(s: Seq<char>) -> Result<FrameId, ParseIdError> {
    if encode_utf8(s).len() != 32 {
        Err(ParseIdError::FrameIdLength)
    } else {
        match bounded_value(s, 16, u128::MAX as nat) {
            Some(n) => Ok(FrameId(n as u128)),
            None => Err(ParseIdError::ParseIntError),
        }
    }
}

/// What a text is as a number local to a frame.
pub open spec fn parse_local_id(s: Seq<char>) -> Result<usize, ParseIdError> {
    match bounded_value(s, 10, usize::MAX as nat) {
        Some(n) => Ok(n as usize),
        None => Err(ParseIdError::ParseIntError),
    }
}

/// What a text is as an identifier without its letter: the number up to the
/// first colon, and the frame token after it.
pub open spec fn parse_item_id(s: Seq<char>) -> Result<GraphItemId, ParseIdError> {
    match first_index_from(s, ':', 0) {
        Some(colon) => match parse_local_id(s.subrange(0, colon)) {
            Ok(id) => match parse_frame_id(s.subrange(colon + 1, s.len() as int)) {
                Ok(frame) => Ok(GraphItemId { id, frame_id: Some(frame) }),
                Err(e) => Err(e),
            },
            Err(e) => Err(e),
        },
        None => match parse_local_id(s) {
            Ok(id) => Ok(GraphItemId { id, frame_id: None }),
            Err(e) => Err(e),
        },
    }
}

/// What a text is as an identifier that starts with `letter`.
pub open spec fn parse_lettered_id(s: Seq<char>, letter: char) -> Result<
    GraphItemId,
    ParseIdError,
> {
    if s.len() > 0 && s[0] == letter {
        parse_item_id(s.subrange(1, s.len() as int))
    } else {
        Err(ParseIdError::MissingPrefix)
    }
}

/// What a text is as a node identifier.
pub open spec fn parse_node_id(s: Seq<char>) -> Result<NodeId, ParseIdError> {
    match parse_lettered_id(s, 'n') {
        Ok(item) => Ok(NodeId(item)),
        Err(e) => Err(e),
    }
}

/// What a text is as an edge identifier.
pub open spec fn parse_edge_id(s: Seq<char>) -> Result<EdgeId, ParseIdError> {
    match parse_lettered_id(s, 'e') {
        Ok(item) => Ok(EdgeId(item)),
        Err(e) => Err(e),
    }
}

/// The text of a frame token.
pub open spec fn frame_id_text(frame: FrameId) -> Seq<char> {
    hex_text(frame.0 as nat, 32)
}

/// The text of an identifier without its letter.
pub open spec fn item_id_text(item: GraphItemId) -> Seq<char> {
    match item.frame_id {
        Some(frame) => decimal_text(item.id as nat).push(':') + frame_id_text(frame),
        None => decimal_text(item.id as nat),
    }
}

/// The text of a node identifier.
pub open spec fn node_id_text(id: NodeId) -> Seq<char> {
    seq!['n'] + item_id_text(id.0)
}

/// The text of an edge identifier.
pub open spec fn edge_id_text(id: EdgeId) -> Seq<char> {
    seq!['e'] + item_id_text(id.0)
}

/// The place of the first `c` among the characters of `text` from `from` on,
/// counted from `from`.
fn find_char(text: &Vec<char>, from: usize, c: char) -> (r: Option<usize>)
    requires
        from <= text.len(),
    ensures
        r is Some == first_index_from(text@.subrange(from as int, text.len() as int), c, 0) is Some,
        r is Some ==> r.unwrap() as int == first_index_from(
            text@.subrange(from as int, text.len() as int),
            c,
            0,
        ).unwrap() && from + r.unwrap() < text.len(),
{
    let ghost tail = text@.subrange(from as int, text.len() as int);
    let mut i: usize = from;
    while i < text.len()
        invariant
            from <= i <= text.len(),
            tail == text@.subrange(from as int, text.len() as int),
            first_index_from(tail, c, 0) == first_index_from(tail, c, i - from),
        decreases text.len() - i,
    {
        assert(tail[i - from] == text@[i as int]);
        if text[i] == c {
            return Some(i - from);
        }
        i = i + 1;
    }
    None
}

/// Reads the frame token that `v` holds from its character `from` on.
fn read_frame_id(text: &Vec<char>, v: &str, from: usize) -> (r: Result<FrameId, ParseIdError>)
    requires
        text@ == v@,
        from <= text.len(),
    ensures
        r == parse_frame_id(v@.subrange(from as int, v@.len() as int)),
{
    let part = v.substring_char(from, text.len());
    if part.as_bytes().len() != 32 {
        return Err(ParseIdError::FrameIdLength);
    }
    match read_unsigned(text, from, text.len(), 16, u128::MAX) {
        Some(n) => Ok(FrameId(n)),
        None => Err(ParseIdError::ParseIntError),
    }
}

/// Reads the number that `v` holds from its character `from` up to `to`.
fn read_local_id(text: &Vec<char>, from: usize, to: usize) -> (r: Result<usize, ParseIdError>)
    requires
        from <= to <= text.len(),
    ensures
        r == parse_local_id(text@.subrange(from as int, to as int)),
{
    match read_unsigned(text, from, to, 10, usize::MAX as u128) {
        Some(n) => Ok(n as usize),
        None => Err(ParseIdError::ParseIntError),
    }
}

/// Reads the identifier that `v` holds from its character `from` on.
fn read_item_id(text: &Vec<char>, v: &str, from: usize) -> (r: Result<GraphItemId, ParseIdError>)
    requires
        text@ == v@,
        from <= text.len(),
    ensures
        r == parse_item_id(v@.subrange(from as int, v@.len() as int)),
{
    let ghost tail = v@.subrange(from as int, v@.len() as int);
    match find_char(text, from, ':') {
        Some(colon) => {
            assert(tail.subrange(0, colon as int) =~= text@.subrange(
                from as int,
                from + colon as int,
            ));
            assert(tail.subrange(colon + 1, tail.len() as int) =~= v@.subrange(
                from + colon + 1,
                v@.len() as int,
            ));
            match read_local_id(text, from, from + colon) {
                Ok(id) => match read_frame_id(text, v, from + colon + 1) {
                    Ok(frame) => Ok(GraphItemId { id, frame_id: Some(frame) }),
                    Err(e) => Err(e),
                },
                Err(e) => Err(e),
            }
        },
        None => match read_local_id(text, from, text.len()) {
            Ok(id) => Ok(GraphItemId { id, frame_id: None }),
            Err(e) => Err(e),
        },
    }
}

/// Reads the identifier that `v` holds after the letter of its kind.
fn read_lettered_id(v: &str, letter: char) -> (r: Result<GraphItemId, ParseIdError>)
    ensures
        r == parse_lettered_id(v@, letter),
{
    let text = chars_of(v);
    if text.len() > 0 && text[0] == letter {
        read_item_id(&text, v, 1)
    } else {
        Err(ParseIdError::MissingPrefix)
    }
}

impl FrameId {
    /// Reads a frame token from its 32 hexadecimal digits.
    pub fn try_from(v: &str) -> (r: Result<FrameId, ParseIdError>)
        ensures
            r == parse_frame_id(v@),
    {
        let text = chars_of(v);
        assert(v@.subrange(0, v@.len() as int) =~= v@);
        read_frame_id(&text, v, 0)
    }

    /// The token as 32 upper-case hexadecimal digits.
    pub fn to_string(&self) -> (s: String)
        ensures
            s@ == frame_id_text(*self),
    {
        let mut out = String::new();
        push_hex(&mut out, self.0, 32);
        assert(out@ =~= frame_id_text(*self));
        out
    }
}

impl GraphItemId {
    /// The identifier with the number `v` and no frame.
    pub fn from(v: usize) -> (r: GraphItemId)
        ensures
            r == (GraphItemId { id: v, frame_id: None }),
    {
        GraphItemId { id: v, frame_id: None }
    }

    /// Reads an identifier without its letter.
    pub fn try_from(v: &str) -> (r: Result<GraphItemId, ParseIdError>)
        ensures
            r == parse_item_id(v@),
    {
        let text = chars_of(v);
        assert(v@.subrange(0, v@.len() as int) =~= v@);
        read_item_id(&text, v, 0)
    }

    /// The identifier with the same number in the frame `frame_id`.
    pub fn copy_for_frame_id(&self, frame_id: &FrameId) -> (r: GraphItemId)
        ensures
            r == (GraphItemId { id: self.id, frame_id: Some(*frame_id) }),
    {
        GraphItemId { id: self.id, frame_id: Some(*frame_id) }
    }

    /// Appends the text of the identifier to `out`.
    fn push_text(&self, out: &mut String)
        ensures
            final(out)@ == old(out)@ + item_id_text(*self),
    {
        push_decimal(out, self.id);
        match self.frame_id {
            Some(frame) => {
                out.push(':');
                push_hex(out, frame.0, 32);
                assert(out@ =~= old(out)@ + item_id_text(*self));
            },
            None => {},
        }
    }
}

/// What has a frame: the frame of an item tells the context it belongs to.
pub trait HasFrameId {
    /// The frame that the item belongs to.
    spec fn frame(&self) -> Option<FrameId>;

    fn get_frame_id(&self) -> (r: Option<FrameId>)
        ensures
            r == self.frame(),
    ;
}

/// Whether two items belong to the same frame context: their frames are
/// equal, or both have none.
pub fn is_same_frame_context<A: HasFrameId, B: HasFrameId>(a: A, b: B) -> (r: bool)
    ensures
        r == (a.frame() == b.frame()),
{
    match (a.get_frame_id(), b.get_frame_id()) {
        (Some(x), Some(y)) => x.0 == y.0,
        (None, None) => true,
        _ => false,
    }
}

impl NodeId {
    /// The node identifier with the number `v` and no frame.
    pub fn from(v: usize) -> (r: NodeId)
        ensures
            r == NodeId(GraphItemId { id: v, frame_id: None }),
    {
        NodeId(GraphItemId::from(v))
    }

    /// Reads a node identifier: `n`, the number and, after a colon, the frame.
    pub fn try_from(v: &str) -> (r: Result<NodeId, ParseIdError>)
        ensures
            r == parse_node_id(v@),
    {
        match read_lettered_id(v, 'n') {
            Ok(item) => Ok(NodeId(item)),
            Err(e) => Err(e),
        }
    }

    /// The identifier with the same number in the frame `frame_id`.
    pub fn copy_for_frame_id(&self, frame_id: &FrameId) -> (r: NodeId)
        ensures
            r == NodeId(GraphItemId { id: self.0.id, frame_id: Some(*frame_id) }),
    {
        NodeId(self.0.copy_for_frame_id(frame_id))
    }

    /// The text of the identifier.
    pub fn to_string(&self) -> (s: String)
        ensures
            s@ == node_id_text(*self),
    {
        let mut out = String::new();
        out.push('n');
        self.0.push_text(&mut out);
        assert(out@ =~= node_id_text(*self));
        out
    }
}

impl HasFrameId for NodeId {
    open spec fn frame(&self) -> Option<FrameId> {
        self.0.frame_id
    }

    fn get_frame_id(&self) -> (r: Option<FrameId>) {
        self.0.frame_id
    }
}

impl EdgeId {
    /// The edge identifier with the number `v` and no frame.
    pub fn from(v: usize) -> (r: EdgeId)
        ensures
            r == EdgeId(GraphItemId { id: v, frame_id: None }),
    {
        EdgeId(GraphItemId::from(v))
    }

    /// Reads an edge identifier: `e`, the number and, after a colon, the frame.
    pub fn try_from(v: &str) -> (r: Result<EdgeId, ParseIdError>)
        ensures
            r == parse_edge_id(v@),
    {
        match read_lettered_id(v, 'e') {
            Ok(item) => Ok(EdgeId(item)),
            Err(e) => Err(e),
        }
    }

    /// The identifier with the same number in the frame `frame_id`.
    pub fn copy_for_frame_id(&self, frame_id: &FrameId) -> (r: EdgeId)
        ensures
            r == EdgeId(GraphItemId { id: self.0.id, frame_id: Some(*frame_id) }),
    {
        EdgeId(self.0.copy_for_frame_id(frame_id))
    }

    /// The text of the identifier.
    pub fn to_string(&self) -> (s: String)
        ensures
            s@ == edge_id_text(*self),
    {
        let mut out = String::new();
        out.push('e');
        self.0.push_text(&mut out);
        assert(out@ =~= edge_id_text(*self));
        out
    }
}

impl HasFrameId for EdgeId {
    open spec fn frame(&self) -> Option<FrameId> {
        self.0.frame_id
    }

    fn get_frame_id(&self) -> (r: Option<FrameId>) {
        self.0.frame_id
    }
}

} // verus!
