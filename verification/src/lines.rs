//! Cutting a byte string into lines.
//!
//! A line ends at a line feed. The line feed is not part of the line, and
//! neither is one carriage return that stands directly in front of it. Bytes
//! after the last line feed form a last line when there are any.

use vstd::prelude::*;
use vstd::slice::slice_subrange;

verus! {

/// The byte that ends a line.
pub const LINE_FEED: u8 = 10;

/// The byte that may precede the line feed of a line.
pub const CARRIAGE_RETURN: u8 = 13;

/// The index of the first line feed of `input` at or after `from`, or the
/// length of `input` where no line feed follows.
pub open spec fn line_feed_from(input: Seq<u8>, from: int) -> int
    decreases input.len() - from,
{
    if from >= input.len() || input[from] == LINE_FEED {
        from
    } else {
        line_feed_from(input, from + 1)
    }
}

/// `line` without one trailing carriage return.
pub open spec fn without_carriage_return(line: Seq<u8>) -> Seq<u8> {
    if line.len() > 0 && line.last() == CARRIAGE_RETURN {
        line.drop_last()
    } else {
        line
    }
}

/// The line of `input` that starts at the index `from`, without its
/// terminator.
pub open spec fn line_at(input: Seq<u8>, from: int) -> Seq<u8> {
    let end = line_feed_from(input, from);
    if end < input.len() {
        without_carriage_return(input.subrange(from, end))
    } else {
        input.subrange(from, input.len() as int)
    }
}

/// The index at which the line after the one at `from` starts, or the length
/// of `input` where the line at `from` is the last.
pub open spec fn line_after(input: Seq<u8>, from: int) -> int {
    let end = line_feed_from(input, from);
    if end < input.len() {
        end + 1
    } else {
        input.len() as int
    }
}

/// The lines of `input` that start at or after the index `from`, where `from`
/// is the start of a line.
pub open spec fn lines_from(input: Seq<u8>, from: int) -> Seq<Seq<u8>>
    decreases input.len() - from,
{
    if from < 0 || from >= input.len() {
        Seq::empty()
    } else {
        proof {
            lemma_line_feed_from_bounds(input, from);
        }
        seq![line_at(input, from)] + lines_from(input, line_after(input, from))
    }
}

/// The lines of `input`, in order, without their terminators.
pub open spec fn byte_lines(input: Seq<u8>) -> Seq<Seq<u8>> {
    lines_from(input, 0)
}

/// The first line feed at or after `from` lies between `from` and the end of
/// the input, and where it lies inside the input a line feed stands there.
pub proof fn lemma_line_feed_from_bounds(input: Seq<u8>, from: int)
    requires
        0 <= from <= input.len(),
    ensures
        from <= line_feed_from(input, from) <= input.len(),
        line_feed_from(input, from) < input.len() ==> input[line_feed_from(input, from)]
            == LINE_FEED,
    decreases input.len() - from,
{
    if from < input.len() && input[from] != LINE_FEED {
        lemma_line_feed_from_bounds(input, from + 1);
    }
}

/// A stretch without line feeds that ends at a line feed, or at the end of the
/// input, ends at the first line feed after its start.
pub proof fn lemma_line_feed_from_found(input: Seq<u8>, from: int, end: int)
    requires
        0 <= from <= end <= input.len(),
        forall|i: int| from <= i < end ==> input[i] != LINE_FEED,
        end < input.len() ==> input[end] == LINE_FEED,
    ensures
        line_feed_from(input, from) == end,
    decreases end - from,
{
    if from < end {
        lemma_line_feed_from_found(input, from + 1, end);
    }
}

/// No line feed stands between a line start and the first line feed after it.
pub proof fn lemma_no_line_feed_before(input: Seq<u8>, from: int, at: int)
    requires
        0 <= from <= at < line_feed_from(input, from),
    ensures
        at < input.len(),
        input[at] != LINE_FEED,
    decreases input.len() - from,
{
    if from < at {
        lemma_no_line_feed_before(input, from + 1, at);
    }
}

/// No line holds a line feed.
pub proof fn lemma_lines_hold_no_line_feed(input: Seq<u8>, from: int)
    requires
        0 <= from <= input.len(),
    ensures
        forall|i: int, j: int|
            #![trigger lines_from(input, from)[i][j]]
            0 <= i < lines_from(input, from).len() && 0 <= j < lines_from(input, from)[i].len()
                ==> lines_from(input, from)[i][j] != LINE_FEED,
    decreases input.len() - from,
{
    if from < input.len() {
        lemma_line_feed_from_bounds(input, from);
        let line = line_at(input, from);
        let next = line_after(input, from);
        let rest = lines_from(input, next);
        let lines = lines_from(input, from);
        lemma_lines_hold_no_line_feed(input, next);
        assert forall|i: int, j: int| 0 <= i < lines.len() && 0 <= j < lines[i].len() implies
            #[trigger] lines[i][j] != LINE_FEED by {
            if i == 0 {
                assert(lines[0] == line);
                lemma_no_line_feed_before(input, from, from + j);
            } else {
                assert(lines[i] == rest[i - 1]);
            }
        }
    }
}

/// Cuts off the line of `input` that starts at `start`: returns the line
/// without its terminator, and the index at which the next line starts.
///
/// The line and its terminator take up at least one byte, and no fewer bytes
/// than the line is long.
pub fn next_line<'a>(input: &'a [u8], start: usize) -> (cut: (&'a [u8], usize))
    requires
        start < input.len(),
    ensures
        cut.0@ == line_at(input@, start as int),
        cut.1 == line_after(input@, start as int),
        start < cut.1 <= input.len(),
        cut.0@.len() <= cut.1 - start,
{
    let mut end: usize = start;
    while end < input.len() && input[end] != LINE_FEED
        invariant
            start <= end <= input.len(),
            forall|i: int| start <= i < end ==> input@[i] != LINE_FEED,
        decreases input.len() - end,
    {
        end += 1;
    }
    proof {
        lemma_line_feed_from_found(input@, start as int, end as int);
    }
    if end < input.len() {
        let stop: usize = if end > start && input[end - 1] == CARRIAGE_RETURN {
            end - 1
        } else {
            end
        };
        (slice_subrange(input, start, stop), end + 1)
    } else {
        (slice_subrange(input, start, end), end)
    }
}

} // verus!
