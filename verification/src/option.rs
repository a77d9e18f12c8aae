//! The granularity at which text is counted.

use vstd::prelude::*;

verus! {

/// Selects what [`count`](crate::counter::count) treats as one token.
#[derive(Debug, Clone, Copy, PartialEq, Eq, Hash, Structural)]
pub enum CountOption {
    /// Every Unicode scalar value of a line is a token.
    Char,
    /// Every match of `\w+` in a line is a token.
    Word,
    /// Every line, without its terminator, is a token.
    Line,
}

impl Default for CountOption {
    /// Words are counted unless another option is chosen.
    fn default() -> (option: Self)
        ensures
            option == CountOption::Word,
    {
        CountOption::Word
    }
}

} // verus!
