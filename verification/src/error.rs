//! The error that filter construction and filter hooks report.

use vstd::prelude::*;

verus! {

/// A failure described by a message.
#[derive(Debug)]
pub struct FilterError {
    /// What went wrong, in words.
    pub message: String,
}

impl View for FilterError {
    type V = Seq<char>;

    open spec fn view(&self) -> Seq<char> {
        self.message@
    }
}

impl FilterError {
    /// An error that carries `message`.
    pub fn new(message: String) -> (r: FilterError)
        ensures
            r@ == message@,
    {
        FilterError { message }
    }

    /// An error whose message is the given text.
    pub fn from_text(message: &str) -> (r: FilterError)
        ensures
            r@ == message@,
    {
        FilterError { message: message.to_owned() }
    }

    /// The message.
    pub fn text(&self) -> (r: String)
        ensures
            r@ == self@,
    {
        self.message.clone()
    }
}

} // verus!
