//! The user as the library sees them.
//!
//! The contracts fix what the user is shown and asked, in order. What the user
//! answers is known only of a user who says so beforehand.

use crate::text::concat;
use vstd::prelude::*;
use vstd::string::*;

verus! {

/// Why talking to the user failed.
#[derive(Debug)]
pub enum InteractionError {
    Io(String),
}

impl InteractionError {
    /// The text of `message`.
    pub open spec fn text(&self) -> Seq<char> {
        match self {
            InteractionError::Io(m) => "IO error: "@ + m@,
        }
    }

    /// The error as a line of text.
    pub fn message(&self) -> (r: String)
        ensures
            r@ == self.text(),
    {
        match self {
            InteractionError::Io(m) => concat("IO error: ", m.as_str()),
        }
    }
}

/// One thing shown to the user or asked of them.
pub enum UiEvent {
    Print(Seq<char>),
    PrintError(Seq<char>),
    Confirm(Seq<char>),
}

/// What the library asks of the user.
pub trait UserInteraction {
    /// What was shown and asked so far, oldest first. An implementation that
    /// proves nothing of itself leaves it open.
    open spec fn events(&self) -> Seq<UiEvent> {
        arbitrary()
    }

    /// The answer that the next question gets, where that is known beforehand.
    /// A user at a terminal leaves it open; one who answers from a script does not.
    open spec fn next_answer(&self) -> Option<bool> {
        None
    }

    /// Asks the user to confirm; `Ok(true)` is a yes. Where the answer is known
    /// beforehand, it is the one given.
    fn confirm(&mut self, message: &str) -> (r: Result<bool, InteractionError>)
        ensures
            final(self).events() == old(self).events().push(UiEvent::Confirm(message@)),
            old(self).next_answer() matches Some(b) ==> r == Ok::<bool, InteractionError>(b),
    ;

    /// Shows a message.
    fn print(&mut self, message: &str)
        ensures
            final(self).events() == old(self).events().push(UiEvent::Print(message@)),
            final(self).next_answer() == old(self).next_answer(),
    ;

    /// Shows an error message.
    fn print_error(&mut self, message: &str)
        ensures
            final(self).events() == old(self).events().push(UiEvent::PrintError(message@)),
            final(self).next_answer() == old(self).next_answer(),
    ;
}

} // verus!
