//! Frequency tables over the characters, words or lines of UTF-8 text.
//!
//! [`count`] cuts a byte string into lines, decodes each line, takes the
//! tokens that the chosen [`CountOption`] asks for and returns a
//! [`FrequencyTable`] that maps every token to the number of times it occurs.

pub mod counter;
pub mod lines;
pub mod option;
pub mod table;
pub mod text;
pub mod words;

pub use counter::{count, CountError};
pub use lines::next_line;
pub use option::CountOption;
pub use table::FrequencyTable;
