//! What the web forms deliver, and what they are answered.

use vstd::prelude::*;
use vstd::string::StrSliceExecFns;

verus! {

/// What the backend is sent: an instance as text.
#[derive(Debug)]
pub struct InputData {
    pub json_str: String,
}

/// What the form is sent: an instance as text.
#[derive(Debug)]
pub struct Json {
    pub json_str: String,
}

/// What a sender is answered.
#[derive(Clone, Copy, Debug, PartialEq, Eq, Structural)]
pub enum Reply {
    /// Nothing was sent.
    Empty,
    /// No layout was drawn.
    NoSolution,
    /// Layouts were drawn.
    Found,
}

impl InputData {
    /// Whether no text was sent.
    pub fn is_empty(&self) -> (r: bool)
        ensures
            r == (self.json_str@.len() == 0),
    {
        self.json_str.as_str().unicode_len() == 0
    }
}

impl Json {
    /// Whether no text was sent.
    pub fn is_empty(&self) -> (r: bool)
        ensures
            r == (self.json_str@.len() == 0),
    {
        self.json_str.as_str().unicode_len() == 0
    }
}

/// The answer to a sender, from whether text was sent and how many layouts
/// were drawn for it.
pub fn reply_to(text_is_empty: bool, n_drawings: usize) -> (r: Reply)
    ensures
        r == if text_is_empty {
            Reply::Empty
        } else if n_drawings == 0 {
            Reply::NoSolution
        } else {
            Reply::Found
        },
{
    if text_is_empty {
        Reply::Empty
    } else if n_drawings == 0 {
        Reply::NoSolution
    } else {
        Reply::Found
    }
}

} // verus!
