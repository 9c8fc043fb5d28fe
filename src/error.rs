use vstd::prelude::*;

verus! {

/// Why one file, or one piece of text, could not be processed.
#[derive(Debug, Clone, PartialEq, Eq)]
pub enum Error {
    /// Reading or writing a file failed; holds the system's message.
    Io(String),
    /// The input path does not carry the subtitle extension.
    InvalidFile(String),
    /// The text does not follow the timestamp grammar.
    InvalidTimestamp(String),
    /// Delaying the timestamps of this line would move one before zero.
    NegativeTimestamp(String),
}

} // verus!
