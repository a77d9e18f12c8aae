//! Counting the tokens of a byte string.

use crate::lines::{byte_lines, lines_from, next_line};
use crate::option::CountOption;
use crate::table::{lemma_counts_sum_to_length, sum_of_counts, FrequencyTable};
use crate::text::{
    char_token, decode, lemma_decoded_length, lemma_lines_valid_iff_input_valid, well_encoded,
};
use crate::words::{word_matches, WordPattern};
use vstd::prelude::*;
use vstd::utf8::*;

verus! {

/// Why a byte string cannot be counted.
#[derive(Debug, Clone, Copy, PartialEq, Eq, Structural)]
pub enum CountError {
    /// A line of the input is not valid UTF-8.
    InvalidEncoding,
}

/// Every character of `line` as a token of its own.
pub open spec fn char_tokens(line: Seq<char>) -> Seq<Seq<char>> {
    line.map_values(|c: char| seq![c])
}

/// The tokens of one line.
pub open spec fn line_tokens(line: Seq<char>, option: CountOption) -> Seq<Seq<char>> {
    match option {
        CountOption::Char => char_tokens(line),
        CountOption::Word => word_matches(line),
        CountOption::Line => seq![line],
    }
}

/// The tokens of the lines `lines`, line after line.
pub open spec fn tokens_of_lines(lines: Seq<Seq<u8>>, option: CountOption) -> Seq<Seq<char>>
    decreases lines.len(),
{
    if lines.len() == 0 {
        Seq::empty()
    } else {
        tokens_of_lines(lines.drop_last(), option) + line_tokens(
            decode_utf8(lines.last()),
            option,
        )
    }
}

/// The tokens of `input`, in the order in which they stand there.
pub open spec fn tokens(input: Seq<u8>, option: CountOption) -> Seq<Seq<char>> {
    tokens_of_lines(byte_lines(input), option)
}

/// `result` is what counting `input` gives: where the input is valid UTF-8, a
/// table in which the tokens of the input were recorded in their order, and
/// the error where it is not.
pub open spec fn is_count_of(
    result: Result<FrequencyTable, CountError>,
    input: Seq<u8>,
    option: CountOption,
) -> bool {
    match result {
        Ok(table) => valid_utf8(input) && table.wf() && table.history() == tokens(input, option),
        Err(error) => !valid_utf8(input) && error == CountError::InvalidEncoding,
    }
}

/// The larger of the length of `line` and one: a bound on the number of tokens
/// that a line holds.
spec fn token_bound(line: Seq<char>) -> nat {
    if line.len() == 0 {
        1
    } else {
        line.len()
    }
}

/// Records every character of `line` as a token.
fn record_chars(table: &mut FrequencyTable, line: &str)
    requires
        old(table).wf(),
        old(table).history().len() + line@.len() <= usize::MAX,
    ensures
        final(table).wf(),
        final(table).history() == old(table).history() + char_tokens(line@),
{
    let ghost before = table.history();
    let ghost all = char_tokens(line@);
    for c in iter: line.chars()
        invariant
            iter.seq() == line@,
            all == char_tokens(line@),
            table.wf(),
            table.history() == before + all.take(iter.index()),
            before.len() + line@.len() <= usize::MAX,
    {
        table.record(char_token(c));
    }
}

/// Records the tokens of `line`.
fn record_line(table: &mut FrequencyTable, line: &str, option: CountOption, pattern: &WordPattern)
    requires
        old(table).wf(),
        old(table).history().len() + token_bound(line@) <= usize::MAX,
    ensures
        final(table).wf(),
        final(table).history() == old(table).history() + line_tokens(line@, option),
        line_tokens(line@, option).len() <= token_bound(line@),
{
    match option {
        CountOption::Char => {
            record_chars(table, line);
        },
        CountOption::Word => {
            let words = pattern.find(line);
            table.record_all(words);
        },
        CountOption::Line => {
            table.record(line.to_owned());
        },
    }
}

/// Counts the tokens of `input`.
///
/// The input is cut into lines, every line is decoded as UTF-8, and the tokens
/// that `option` selects are recorded line after line. The table is returned
/// when the input is valid UTF-8; otherwise nothing is returned but the error.
/// The counts of the table add up to the number of tokens of the input.
pub fn count(input: &[u8], option: CountOption) -> (result: Result<FrequencyTable, CountError>)
    ensures
        is_count_of(result, input@, option),
        result matches Ok(table) ==> sum_of_counts(table.distinct(), table@) == tokens(
            input@,
            option,
        ).len(),
{
    let pattern = WordPattern::new();
    let mut table = FrequencyTable::new();
    let mut start: usize = 0;
    let ghost mut done: Seq<Seq<u8>> = Seq::empty();
    while start < input.len()
        invariant
            start <= input.len(),
            done + lines_from(input@, start as int) == byte_lines(input@),
            well_encoded(done),
            table.wf(),
            table.history() == tokens_of_lines(done, option),
            table.history().len() <= start,
        decreases input.len() - start,
    {
        let cut = next_line(input, start);
        let bytes: &[u8] = cut.0;
        let next: usize = cut.1;
        match decode(bytes) {
            None => {
                proof {
                    assert(byte_lines(input@)[done.len() as int] == bytes@);
                    lemma_lines_valid_iff_input_valid(input@);
                }
                return Err(CountError::InvalidEncoding);
            },
            Some(line) => {
                proof {
                    lemma_decoded_length(bytes@);
                }
                record_line(&mut table, line, option, &pattern);
                proof {
                    assert(done.push(bytes@).drop_last() =~= done);
                    done = done.push(bytes@);
                }
                start = next;
            },
        }
    }
    proof {
        lemma_lines_valid_iff_input_valid(input@);
        lemma_counts_sum_to_length(tokens(input@, option));
    }
    Ok(table)
}

/// Counting is repeatable: two counts of one input with one option fail
/// together or succeed together, and where they succeed the two tables hold the
/// same tokens with the same counts, listed in the same order.
pub proof fn lemma_count_repeatable(
    input: Seq<u8>,
    option: CountOption,
    first: Result<FrequencyTable, CountError>,
    second: Result<FrequencyTable, CountError>,
)
    requires
        is_count_of(first, input, option),
        is_count_of(second, input, option),
    ensures
        match (first, second) {
            (Ok(a), Ok(b)) => a@ == b@ && a.distinct() == b.distinct() && a.history()
                == b.history(),
            (Err(e), Err(f)) => e == f,
            _ => false,
        },
{
}

} // verus!
