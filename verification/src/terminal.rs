//! Talking to the user at a terminal: the words, not the reading and writing.

use crate::text::{chars_of, concat, trim, trimmed};
use crate::utils::prompt::{is_letter, matches_letter, question};
use vstd::prelude::*;
use vstd::string::*;

verus! {

/// Whether what the user typed begins, after any white space, with `y` or `Y`.
pub open spec fn begins_with_yes(input: Seq<char>) -> bool {
    trim(input).len() > 0 && is_letter(trim(input)[0], 'y')
}

/// The question as it is put to the user.
pub fn question_text(message: &str) -> (r: String)
    ensures
        r@ == question(message@),
{
    concat(message, " [y/N]: ")
}

/// Whether the line that the user typed means yes: anything that begins with `y`
/// or `Y`. An empty line is no.
pub fn means_yes(input: &str) -> (r: bool)
    ensures
        r == begins_with_yes(input@),
{
    let answer = trimmed(input);
    let a = chars_of(answer.as_str());
    a.len() > 0 && matches_letter(a[0], 'y')
}

/// Puts `message` as a question and reads the answer from `input`, the line that
/// the user typed. Returns the question as it is shown and whether the
/// answer is yes.
pub fn confirm_stream(input: &str, message: &str) -> (r: (String, bool))
    ensures
        r.0@ == question(message@),
        r.1 == begins_with_yes(input@),
{
    (question_text(message), means_yes(input))
}

} // verus!
