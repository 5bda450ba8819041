//! The error a listener reports.
use vstd::prelude::*;
use vstd::std_specs::convert::FromSpecImpl;

verus! {

/// The failure a listener reports for one event.
///
/// A failing listener never stops its siblings and never aborts the dispatch; its error
/// is recorded in the dispatch result at the listener's position.
#[derive(Debug, Clone, PartialEq, Eq, Hash)]
pub struct ListenerError {
    message: String,
}

impl View for ListenerError {
    type V = Seq<char>;

    /// The text of the error.
    closed spec fn view(&self) -> Seq<char> {
        self.message@
    }
}

impl ListenerError {
    /// An error with the given text.
    pub fn new(message: String) -> (r: Self)
        ensures
            r@ == message@,
    {
        ListenerError { message }
    }

    /// The text of the error.
    pub fn message(&self) -> (r: &str)
        ensures
            r@ == self@,
    {
        self.message.as_str()
    }

    /// The text of the error, as an owned string.
    pub fn to_string(&self) -> (r: String)
        ensures
            r@ == self@,
    {
        self.message.clone()
    }
}

impl<'a> From<&'a str> for ListenerError {
    /// An error with the given text.
    fn from(message: &'a str) -> (r: Self)
        ensures
            r@ == message@,
    {
        ListenerError { message: message.to_owned() }
    }
}

impl<'a> FromSpecImpl<&'a str> for ListenerError {
    /// Only the text of the result is promised; see the `ensures` of `from`.
    open spec fn obeys_from_spec() -> bool {
        false
    }

    open spec fn from_spec(message: &'a str) -> Self {
        arbitrary()
    }
}

impl From<String> for ListenerError {
    /// An error with the given text.
    fn from(message: String) -> (r: Self)
        ensures
            r@ == message@,
    {
        ListenerError { message }
    }
}

impl FromSpecImpl<String> for ListenerError {
    open spec fn obeys_from_spec() -> bool {
        true
    }

    open spec fn from_spec(message: String) -> Self {
        ListenerError::holding(message)
    }
}

impl ListenerError {
    /// The error that holds exactly `message`.
    pub closed spec fn holding(message: String) -> Self {
        ListenerError { message }
    }
}

} // verus!
