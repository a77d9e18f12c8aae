//! Words, as the `regex` crate finds them.
//!
//! Which characters belong to a word is decided by the Unicode tables of the
//! `regex` crate. The library does not restate them: it gives what the crate
//! finds in a line a name, [`word_matches`], and counts that.

use crate::table::texts;
use regex::Regex;
use vstd::prelude::*;

verus! {

/// A compiled regular expression of the `regex` crate. Nothing is known of
/// what it holds.
#[verifier::external_type_specification]
#[verifier::external_body]
pub struct ExRegex(Regex);

/// The successive non-overlapping matches of the pattern `\w+` in `line`, from
/// left to right, as the `regex` crate finds them.
pub uninterp spec fn word_matches(line: Seq<char>) -> Seq<Seq<char>>;

/// The pattern `\w+`, compiled.
///
/// The field is private and [`WordPattern::new`] is the only function that
/// makes a value, so every value holds this one pattern.
pub(crate) struct WordPattern {
    regex: Regex,
}

impl WordPattern {
    /// Compiles `\w+` with `regex::Regex::new`.
    ///
    /// Not proved: that the crate accepts this pattern, which is well formed
    /// and far below the crate's default size limit.
    #[verifier::external_body]
    pub(crate) fn new() -> (pattern: Self) {
        WordPattern { regex: Regex::new(r"\w+").unwrap() }
    }

    /// Collects the substrings that `regex::Regex::find_iter` yields for the
    /// pattern in `line`, in the order in which it yields them.
    ///
    /// Not proved: that the substrings are the same whenever the line is the
    /// same, which is what gives them the name [`word_matches`]; and that there
    /// are no more of them than the line has characters. The crate documents
    /// that the matches do not overlap, and that a match is empty only where
    /// the pattern matches the empty string, which `\w+` does not.
    #[verifier::external_body]
    pub(crate) fn find(&self, line: &str) -> (words: Vec<String>)
        ensures
            texts(words@) == word_matches(line@),
            words@.len() <= line@.len(),
    {
        self.regex.find_iter(line).map(|m| m.as_str().to_string()).collect()
    }
}

} // verus!
