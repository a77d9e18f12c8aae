//! Decoding lines and making tokens of characters.

use crate::lines::{
    byte_lines, lemma_line_feed_from_bounds, line_after, line_at, line_feed_from, lines_from,
    CARRIAGE_RETURN,
};
use vstd::prelude::*;
use vstd::utf8::*;

verus! {

/// Every line is valid UTF-8.
pub open spec fn well_encoded(lines: Seq<Seq<u8>>) -> bool {
    forall|i: int| 0 <= i < lines.len() ==> valid_utf8(#[trigger] lines[i])
}

/// Decodes `bytes` with `std::str::from_utf8`.
///
/// Not proved: that the function accepts exactly the byte strings that are
/// valid UTF-8, and that the text it returns is the one they encode.
#[verifier::external_body]
pub(crate) fn decode<'a>(bytes: &'a [u8]) -> (text: Option<&'a str>)
    ensures
        text is Some <==> valid_utf8(bytes@),
        text matches Some(s) ==> s@ == decode_utf8(bytes@),
{
    match std::str::from_utf8(bytes) {
        Ok(text) => Some(text),
        Err(_) => None,
    }
}

/// The string that holds the one character `c`, made with `char::to_string`.
///
/// Not proved: that the string holds `c` and nothing else.
#[verifier::external_body]
pub(crate) fn char_token(c: char) -> (token: String)
    ensures
        token@ == seq![c],
{
    c.to_string()
}

/// A text has no more characters than its encoding has bytes.
pub proof fn lemma_decoded_length(bytes: Seq<u8>)
    requires
        valid_utf8(bytes),
    ensures
        decode_utf8(bytes).len() <= bytes.len(),
    decreases bytes.len(),
{
    if bytes.len() > 0 {
        let rest = pop_first_scalar(bytes);
        lemma_decoded_length(rest);
    }
}

/// A byte string with an ASCII byte at `index` is valid UTF-8 exactly when the
/// bytes in front of that byte are, and the bytes behind it.
pub proof fn lemma_valid_around_ascii(bytes: Seq<u8>, index: int)
    requires
        0 <= index < bytes.len(),
        bytes[index] <= 0x7f,
    ensures
        valid_utf8(bytes) <==> valid_utf8(bytes.subrange(0, index)) && valid_utf8(
            bytes.subrange(index + 1, bytes.len() as int),
        ),
{
    let front = bytes.subrange(0, index);
    let rest = bytes.subrange(index, bytes.len() as int);
    let back = bytes.subrange(index + 1, bytes.len() as int);
    assert(pop_first_scalar(rest) =~= back);
    if valid_utf8(bytes) {
        is_char_boundary_iff_not_is_continuation_byte(bytes, index);
        valid_utf8_split(bytes, index);
    }
    if valid_utf8(front) && valid_utf8(back) {
        let single = seq![bytes[index]];
        partial_valid_utf8_extend_ascii_block(single, 0, 1);
        assert(single.subrange(0, 1) =~= single);
        valid_utf8_concat(front, single);
        valid_utf8_concat(front + single, back);
        assert(bytes =~= front + single + back);
    }
}

/// The lines from a line start on are valid UTF-8 exactly when the input is
/// from there on.
pub proof fn lemma_lines_valid_from(input: Seq<u8>, from: int)
    requires
        0 <= from <= input.len(),
    ensures
        well_encoded(lines_from(input, from)) <==> valid_utf8(
            input.subrange(from, input.len() as int),
        ),
    decreases input.len() - from,
{
    let len = input.len() as int;
    let tail = input.subrange(from, len);
    if from < len {
        lemma_line_feed_from_bounds(input, from);
        let end = line_feed_from(input, from);
        let line = line_at(input, from);
        let next = line_after(input, from);
        let rest = lines_from(input, next);
        let lines = lines_from(input, from);
        lemma_lines_valid_from(input, next);
        assert(well_encoded(lines) <==> valid_utf8(line) && well_encoded(rest)) by {
            assert(lines[0] == line);
            assert forall|i: int| 0 <= i < rest.len() implies rest[i] == lines[i + 1] by {}
        }
        if end < len {
            let chunk = input.subrange(from, end);
            lemma_valid_around_ascii(tail, end - from);
            assert(tail.subrange(0, end - from) =~= chunk);
            assert(tail.subrange(end - from + 1, tail.len() as int) =~= input.subrange(next, len));
            if chunk.len() > 0 && chunk.last() == CARRIAGE_RETURN {
                lemma_valid_around_ascii(chunk, chunk.len() - 1);
            }
        }
    }
}

/// Every line of an input is valid UTF-8 exactly when the input is.
pub proof fn lemma_lines_valid_iff_input_valid(input: Seq<u8>)
    ensures
        well_encoded(byte_lines(input)) <==> valid_utf8(input),
{
    lemma_lines_valid_from(input, 0);
    assert(input.subrange(0, input.len() as int) =~= input);
}

} // verus!
