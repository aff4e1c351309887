//! Parts of a text, given by where they start and end in bytes.

use vstd::prelude::*;
use vstd::utf8::*;

verus! {

/// Whether `start` and `end` delimit a part of `text`, in bytes, without
/// cutting a character in two.
pub open spec fn is_span(text: Seq<char>, start: int, end: int) -> bool {
    let bytes = encode_utf8(text);
    0 <= start <= end <= bytes.len() && is_char_boundary(bytes, start) && is_char_boundary(
        bytes,
        end,
    )
}

/// The text of `text` from byte `start` up to byte `end`.
pub open spec fn slice(text: Seq<char>, start: int, end: int) -> Seq<char> {
    decode_utf8(encode_utf8(text).subrange(start, end))
}

proof fn lemma_boundary_in_prefix(bytes: Seq<u8>, start: int, end: int)
    requires
        valid_utf8(bytes),
        0 <= start <= end <= bytes.len(),
        is_char_boundary(bytes, start),
        is_char_boundary(bytes, end),
    ensures
        valid_utf8(bytes.subrange(0, end)),
        is_char_boundary(bytes.subrange(0, end), start),
        valid_utf8(bytes.subrange(start, end)),
{
    let prefix = bytes.subrange(0, end);
    valid_utf8_split(bytes, end);
    if start < end {
        is_char_boundary_iff_not_is_continuation_byte(bytes, start);
        is_char_boundary_iff_not_is_continuation_byte(prefix, start);
    } else {
        is_char_boundary_start_end_of_seq(prefix);
    }
    valid_utf8_split(prefix, start);
    assert(prefix.subrange(start, end) =~= bytes.subrange(start, end));
}

/// Two adjacent parts of a text make up the part that they cover together.
pub proof fn lemma_adjacent(text: Seq<char>, start: int, mid: int, end: int)
    requires
        is_span(text, start, mid),
        is_span(text, mid, end),
    ensures
        slice(text, start, mid) + slice(text, mid, end) == slice(text, start, end),
{
    let bytes = encode_utf8(text);
    encode_utf8_valid_utf8(text);
    let part = bytes.subrange(start, end);
    lemma_boundary_in_prefix(bytes, start, end);
    assert(is_char_boundary(part, mid - start)) by {
        if mid < end {
            is_char_boundary_iff_not_is_continuation_byte(bytes, mid);
            is_char_boundary_iff_not_is_continuation_byte(part, mid - start);
        } else {
            is_char_boundary_start_end_of_seq(part);
        }
    }
    decode_utf8_split(part, mid - start);
    assert(part.subrange(0, mid - start) =~= bytes.subrange(start, mid));
    assert(part.subrange(mid - start, part.len() as int) =~= bytes.subrange(mid, end));
}

/// The text of `text` from byte `start` up to byte `end`.
pub fn slice_text(text: &str, start: usize, end: usize) -> (r: String)
    requires
        is_span(text@, start as int, end as int),
    ensures
        r@ == slice(text@, start as int, end as int),
{
    let ghost bytes = encode_utf8(text@);
    proof {
        encode_utf8_valid_utf8(text@);
        lemma_boundary_in_prefix(bytes, start as int, end as int);
    }
    let (prefix, _) = text.split_at(end);
    let (_, part) = prefix.split_at(start);
    proof {
        assert(encode_utf8(part@) =~= bytes.subrange(start as int, end as int));
        encode_utf8_decode_utf8(part@);
    }
    part.to_owned()
}

/// A part of a text from its start to its end is all of it.
pub proof fn lemma_whole(text: Seq<char>)
    ensures
        is_span(text, 0, encode_utf8(text).len() as int),
        slice(text, 0, encode_utf8(text).len() as int) == text,
{
    let bytes = encode_utf8(text);
    encode_utf8_valid_utf8(text);
    is_char_boundary_start_end_of_seq(bytes);
    assert(bytes.subrange(0, bytes.len() as int) =~= bytes);
    encode_utf8_decode_utf8(text);
}

} // verus!
