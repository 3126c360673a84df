//! A user who answers from a script.
//!
//! The answers are given beforehand, and what is shown is kept for reading
//! back. It stands in for the user where the library is tried out.

use crate::ports::user_interaction::{InteractionError, UiEvent, UserInteraction};
use crate::text::{contains_text, occurs_in, views};
use vstd::prelude::*;
use vstd::string::*;

verus! {

/// A user who answers from what was put in.
pub struct ScriptedUser {
    confirm_responses: Vec<bool>,
    printed_messages: Vec<String>,
    error_messages: Vec<String>,
    events: Ghost<Seq<UiEvent>>,
}

impl ScriptedUser {
    /// The answers still to be given; the last one is given next.
    pub closed spec fn answers(&self) -> Seq<bool> {
        self.confirm_responses@
    }

    /// The messages shown so far, oldest first.
    pub closed spec fn printed(&self) -> Seq<Seq<char>> {
        views(self.printed_messages@)
    }

    /// The error messages shown so far, oldest first.
    pub closed spec fn errors(&self) -> Seq<Seq<char>> {
        views(self.error_messages@)
    }

    /// A user who has been shown nothing and will answer no.
    pub fn new() -> (r: Self)
        ensures
            r.events() == Seq::<UiEvent>::empty(),
            r.answers() == Seq::<bool>::empty(),
            r.printed() == Seq::<Seq<char>>::empty(),
            r.errors() == Seq::<Seq<char>>::empty(),
    {
        let r = ScriptedUser {
            confirm_responses: Vec::new(),
            printed_messages: Vec::new(),
            error_messages: Vec::new(),
            events: Ghost(Seq::empty()),
        };
        assert(r.printed() =~= Seq::empty());
        assert(r.errors() =~= Seq::empty());
        r
    }

    /// Puts in the answer to the next question.
    pub fn set_confirm(&mut self, response: bool)
        ensures
            final(self).answers() == old(self).answers().push(response),
            final(self).events() == old(self).events(),
            final(self).printed() == old(self).printed(),
            final(self).errors() == old(self).errors(),
    {
        self.confirm_responses.push(response);
    }

    /// The messages shown so far, oldest first.
    pub fn get_printed_messages(&self) -> (r: Vec<String>)
        ensures
            views(r@) == self.printed(),
    {
        copy_texts(&self.printed_messages)
    }

    /// The error messages shown so far, oldest first.
    pub fn get_error_messages(&self) -> (r: Vec<String>)
        ensures
            views(r@) == self.errors(),
    {
        copy_texts(&self.error_messages)
    }

    /// Whether `expected` occurs in a message that was shown.
    pub fn has_printed(&self, expected: &str) -> (r: bool)
        ensures
            r == exists|i: int|
                0 <= i < self.printed().len() && occurs_in(expected@, #[trigger] self.printed()[i]),
    {
        let mut i: usize = 0;
        while i < self.printed_messages.len()
            invariant
                i <= self.printed_messages.len(),
                forall|j: int| 0 <= j < i ==> !occurs_in(expected@, #[trigger] self.printed()[j]),
            decreases self.printed_messages.len() - i,
        {
            assert(self.printed()[i as int] == self.printed_messages@[i as int]@);
            if contains_text(self.printed_messages[i].as_str(), expected) {
                return true;
            }
            i = i + 1;
        }
        false
    }
}

/// A copy of `texts`.
fn copy_texts(texts: &Vec<String>) -> (r: Vec<String>)
    ensures
        views(r@) == views(texts@),
{
    let mut r: Vec<String> = Vec::new();
    let mut i: usize = 0;
    assert(views(r@) =~= views(texts@).take(0));
    while i < texts.len()
        invariant
            i <= texts.len(),
            views(r@) == views(texts@).take(i as int),
        decreases texts.len() - i,
    {
        proof {
            crate::text::lemma_views_push(r@, texts@[i as int]);
        }
        r.push(texts[i].clone());
        i = i + 1;
        assert(views(r@) =~= views(texts@).take(i as int));
    }
    assert(views(texts@).take(texts.len() as int) =~= views(texts@));
    r
}

impl UserInteraction for ScriptedUser {
    closed spec fn events(&self) -> Seq<UiEvent> {
        self.events@
    }

    /// The answer put in last, or no where none is left.
    open spec fn next_answer(&self) -> Option<bool> {
        Some(
            if self.answers().len() > 0 {
                self.answers().last()
            } else {
                false
            },
        )
    }

    /// Gives the answer put in last, or no where none is left.
    fn confirm(&mut self, message: &str) -> (r: Result<bool, InteractionError>)
        ensures
            r == Ok::<bool, InteractionError>(
                if old(self).answers().len() > 0 {
                    old(self).answers().last()
                } else {
                    false
                },
            ),
            final(self).answers() == if old(self).answers().len() > 0 {
                old(self).answers().drop_last()
            } else {
                old(self).answers()
            },
            final(self).printed() == old(self).printed(),
            final(self).errors() == old(self).errors(),
    {
        self.events = Ghost(self.events@.push(UiEvent::Confirm(message@)));
        match self.confirm_responses.pop() {
            Some(response) => Ok(response),
            None => Ok(false),
        }
    }

    /// Keeps the message.
    fn print(&mut self, message: &str)
        ensures
            final(self).printed() == old(self).printed().push(message@),
            final(self).answers() == old(self).answers(),
            final(self).errors() == old(self).errors(),
    {
        self.events = Ghost(self.events@.push(UiEvent::Print(message@)));
        let m = String::from_str(message);
        proof {
            crate::text::lemma_views_push(self.printed_messages@, m);
        }
        self.printed_messages.push(m);
    }

    /// Keeps the error message.
    fn print_error(&mut self, message: &str)
        ensures
            final(self).errors() == old(self).errors().push(message@),
            final(self).answers() == old(self).answers(),
            final(self).printed() == old(self).printed(),
    {
        self.events = Ghost(self.events@.push(UiEvent::PrintError(message@)));
        let m = String::from_str(message);
        proof {
            crate::text::lemma_views_push(self.error_messages@, m);
        }
        self.error_messages.push(m);
    }
}

} // verus!
