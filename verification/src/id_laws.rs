//! What holds between reading and writing identifiers.

use crate::ids::{
    edge_id_text, first_index_from, frame_id_text, item_id_text, node_id_text, parse_edge_id,
    parse_frame_id, parse_item_id, parse_local_id, parse_node_id, EdgeId, FrameId, GraphItemId,
    NodeId,
};
use crate::text::{
    decimal_text, digit_of, digits_value, is_plain_decimal, is_upper_hex, lemma_decimal_text,
    lemma_hex_text, lemma_plain_decimal, lemma_upper_hex, lemma_value_below_power, radix_power,
    unsigned_body,
};
use vstd::prelude::*;
use vstd::utf8::{is_ascii_chars, is_ascii_chars_encode_utf8};

verus! {

/// An identifier without its letter, written the one way that writing gives:
/// the number in its shortest decimal form and within the range of the
/// machine, then nothing, or a colon and 32 upper-case hexadecimal digits.
pub open spec fn is_canonical_item_text(s: Seq<char>) -> bool {
    match first_index_from(s, ':', 0) {
        Some(colon) => {
            &&& is_plain_decimal(s.subrange(0, colon))
            &&& digits_value(s.subrange(0, colon), 10) <= usize::MAX
            &&& s.len() - colon - 1 == 32
            &&& is_upper_hex(s.subrange(colon + 1, s.len() as int))
        },
        None => {
            &&& is_plain_decimal(s)
            &&& digits_value(s, 10) <= usize::MAX
        },
    }
}

/// A node identifier written the one way that writing gives.
pub open spec fn is_canonical_node_text(s: Seq<char>) -> bool {
    s.len() > 0 && s[0] == 'n' && is_canonical_item_text(s.subrange(1, s.len() as int))
}

/// An edge identifier written the one way that writing gives.
pub open spec fn is_canonical_edge_text(s: Seq<char>) -> bool {
    s.len() > 0 && s[0] == 'e' && is_canonical_item_text(s.subrange(1, s.len() as int))
}

/// An upper-case hexadecimal digit is an ASCII character.
proof fn lemma_hex_char_is_ascii(c: char)
    requires
        48 <= c as u32 <= 57 || 65 <= c as u32 <= 70,
    ensures
        '\0' <= c <= '\u{7f}',
{
    vstd::utf8::char_is_scalar(c);
    vstd::utf8::char_u32_cast(c, c as u32);
}

/// Sixteen to the power 32 is one more than the largest frame token.
proof fn lemma_frame_range()
    ensures
        radix_power(16, 32) == u128::MAX + 1,
{
    reveal_with_fuel(radix_power, 33);
}

/// Where no `c` stands in `s` from `from` on, none is found.
proof fn lemma_no_index(s: Seq<char>, c: char, from: int)
    requires
        0 <= from,
        forall|i: int| from <= i < s.len() ==> s[i] != c,
    ensures
        first_index_from(s, c, from) is None,
    decreases s.len() - from,
{
    if from < s.len() {
        lemma_no_index(s, c, from + 1);
    }
}

/// Where the first `c` of `s` from `from` on stands at `at`, it is found
/// there.
proof fn lemma_index_at(s: Seq<char>, c: char, from: int, at: int)
    requires
        0 <= from <= at < s.len(),
        s[at] == c,
        forall|i: int| from <= i < at ==> s[i] != c,
    ensures
        first_index_from(s, c, from) == Some(at),
    decreases at - from,
{
    if from < at {
        lemma_index_at(s, c, from + 1, at);
    }
}

/// What is found is the first `c` from `from` on.
proof fn lemma_index_found(s: Seq<char>, c: char, from: int)
    requires
        0 <= from,
    ensures
        match first_index_from(s, c, from) {
            Some(at) => from <= at < s.len() && s[at] == c && forall|i: int|
                from <= i < at ==> s[i] != c,
            None => forall|i: int| from <= i < s.len() ==> s[i] != c,
        },
    decreases s.len() - from,
{
    if from < s.len() && s[from] != c {
        lemma_index_found(s, c, from + 1);
    }
}

/// Reading the text of a frame token gives the token back.
pub proof fn lemma_frame_id_reads_back(frame: FrameId)
    ensures
        parse_frame_id(frame_id_text(frame)) == Ok::<FrameId, crate::ids::ParseIdError>(frame),
{
    let s = frame_id_text(frame);
    lemma_hex_text(frame.0 as nat, 32);
    lemma_frame_range();
    assert(is_ascii_chars(s)) by {
        assert forall|i: int| 0 <= i < s.len() implies '\0' <= #[trigger] s[i] <= '\u{7f}' by {
            lemma_hex_char_is_ascii(s[i]);
        }
    }
    is_ascii_chars_encode_utf8(s);
    assert(s[0] != '+');
    assert(unsigned_body(s) == s);
}

/// Reading the decimal form of a number of the machine's range gives the
/// number back.
proof fn lemma_local_id_reads_back(n: usize)
    ensures
        parse_local_id(decimal_text(n as nat)) == Ok::<usize, crate::ids::ParseIdError>(n),
{
    lemma_decimal_text(n as nat);
}

/// Reading the text of an identifier without its letter gives the identifier
/// back.
pub proof fn lemma_item_id_reads_back(item: GraphItemId)
    ensures
        parse_item_id(item_id_text(item)) == Ok::<GraphItemId, crate::ids::ParseIdError>(item),
{
    let s = item_id_text(item);
    let d = decimal_text(item.id as nat);
    lemma_decimal_text(item.id as nat);
    lemma_local_id_reads_back(item.id);
    match item.frame_id {
        Some(frame) => {
            let h = frame_id_text(frame);
            lemma_hex_text(frame.0 as nat, 32);
            lemma_frame_id_reads_back(frame);
            let colon = d.len() as int;
            assert(s[colon] == ':');
            assert forall|i: int| 0 <= i < colon implies s[i] != ':' by {
                assert(s[i] == d[i]);
            }
            lemma_index_at(s, ':', 0, colon);
            assert(s.subrange(0, colon) =~= d);
            assert(s.subrange(colon + 1, s.len() as int) =~= h);
        },
        None => {
            lemma_no_index(s, ':', 0);
        },
    }
}

/// Writing what a canonical text reads as gives the text back.
pub proof fn lemma_canonical_item_text(s: Seq<char>)
    requires
        is_canonical_item_text(s),
    ensures
        parse_item_id(s) is Ok,
        item_id_text(parse_item_id(s).unwrap()) == s,
{
    lemma_index_found(s, ':', 0);
    match first_index_from(s, ':', 0) {
        Some(colon) => {
            let d = s.subrange(0, colon);
            let h = s.subrange(colon + 1, s.len() as int);
            lemma_plain_decimal(d);
            assert(d[0] != '+') by {
                assert(digit_of(d[0], 10) is Some);
            }
            assert(unsigned_body(d) == d);
            lemma_upper_hex(h);
            lemma_value_below_power(h, 16);
            lemma_frame_range();
            assert(h[0] != '+') by {
                assert(digit_of(h[0], 16) is Some);
            }
            assert(unsigned_body(h) == h);
            assert(is_ascii_chars(h)) by {
                assert forall|i: int| 0 <= i < h.len() implies '\0' <= #[trigger] h[i]
                    <= '\u{7f}' by {
                    lemma_hex_char_is_ascii(h[i]);
                }
            }
            is_ascii_chars_encode_utf8(h);
            assert(d.push(':') + h =~= s);
        },
        None => {
            lemma_plain_decimal(s);
            assert(s[0] != '+') by {
                assert(digit_of(s[0], 10) is Some);
            }
            assert(unsigned_body(s) == s);
        },
    }
}

/// Reading the text of a node identifier gives the identifier back.
pub proof fn lemma_node_id_reads_back(id: NodeId)
    ensures
        parse_node_id(node_id_text(id)) == Ok::<NodeId, crate::ids::ParseIdError>(id),
{
    let s = node_id_text(id);
    lemma_item_id_reads_back(id.0);
    assert(s.subrange(1, s.len() as int) =~= item_id_text(id.0));
}

/// Reading the text of an edge identifier gives the identifier back.
pub proof fn lemma_edge_id_reads_back(id: EdgeId)
    ensures
        parse_edge_id(edge_id_text(id)) == Ok::<EdgeId, crate::ids::ParseIdError>(id),
{
    let s = edge_id_text(id);
    lemma_item_id_reads_back(id.0);
    assert(s.subrange(1, s.len() as int) =~= item_id_text(id.0));
}

/// A canonical node text is read, what it reads as is written back as the
/// same text, and reading that text again gives the same identifier.
pub proof fn lemma_node_id_round_trip(s: Seq<char>)
    requires
        is_canonical_node_text(s),
    ensures
        parse_node_id(s) is Ok,
        node_id_text(parse_node_id(s).unwrap()) == s,
        parse_node_id(node_id_text(parse_node_id(s).unwrap())) == parse_node_id(s),
{
    let rest = s.subrange(1, s.len() as int);
    lemma_canonical_item_text(rest);
    assert(seq!['n'] + rest =~= s);
}

/// A canonical edge text is read, what it reads as is written back as the
/// same text, and reading that text again gives the same identifier.
pub proof fn lemma_edge_id_round_trip(s: Seq<char>)
    requires
        is_canonical_edge_text(s),
    ensures
        parse_edge_id(s) is Ok,
        edge_id_text(parse_edge_id(s).unwrap()) == s,
        parse_edge_id(edge_id_text(parse_edge_id(s).unwrap())) == parse_edge_id(s),
{
    let rest = s.subrange(1, s.len() as int);
    lemma_canonical_item_text(rest);
    assert(seq!['e'] + rest =~= s);
}

/// The text that writing gives is canonical.
pub proof fn lemma_node_id_text_canonical(id: NodeId)
    ensures
        is_canonical_node_text(node_id_text(id)),
{
    let s = node_id_text(id);
    let rest = s.subrange(1, s.len() as int);
    assert(rest =~= item_id_text(id.0));
    let d = decimal_text(id.0.id as nat);
    lemma_decimal_text(id.0.id as nat);
    match id.0.frame_id {
        Some(frame) => {
            let h = frame_id_text(frame);
            lemma_hex_text(frame.0 as nat, 32);
            let colon = d.len() as int;
            assert(rest[colon] == ':');
            assert forall|i: int| 0 <= i < colon implies rest[i] != ':' by {
                assert(rest[i] == d[i]);
            }
            lemma_index_at(rest, ':', 0, colon);
            assert(rest.subrange(0, colon) =~= d);
            assert(rest.subrange(colon + 1, rest.len() as int) =~= h);
        },
        None => {
            lemma_no_index(rest, ':', 0);
        },
    }
}

} // verus!
