//! Asking the user yes or no.

use crate::text::{chars_of, concat, trim, trimmed};
use vstd::prelude::*;
use vstd::string::*;

verus! {

/// The question as it is put to the user.
pub open spec fn question(message: Seq<char>) -> Seq<char> {
    message + " [y/N]: "@
}

/// Whether `c` is `letter`, a small letter, or the capital of it.
pub open spec fn is_letter(c: char, letter: char) -> bool {
    c == letter || (c as u32) + 32 == (letter as u32)
}

/// Whether what the user typed is `y` or `yes`, in small or capital letters and
/// with white space around it.
pub open spec fn says_yes(input: Seq<char>) -> bool {
    let a = trim(input);
    (a.len() == 1 && is_letter(a[0], 'y')) || (a.len() == 3 && is_letter(a[0], 'y') && is_letter(
        a[1],
        'e',
    ) && is_letter(a[2], 's'))
}

/// Tells whether `c` is the small letter `small` or its capital.
pub fn matches_letter(c: char, small: char) -> (b: bool)
    ensures
        b == is_letter(c, small),
{
    c == small || (c as u32) + 32 == (small as u32)
}

/// Puts `message` as a question and reads the answer from `input`, the line that
/// the user typed. Returns the question as it is shown and whether the
/// answer is yes: `y` or `yes`. Anything else, an empty line too, is no.
pub fn confirm_stream(input: &str, message: &str) -> (r: (String, bool))
    ensures
        r.0@ == question(message@),
        r.1 == says_yes(input@),
{
    let shown = concat(message, " [y/N]: ");
    let answer = trimmed(input);
    let a = chars_of(answer.as_str());
    let yes = if a.len() == 1 {
        matches_letter(a[0], 'y')
    } else if a.len() == 3 {
        matches_letter(a[0], 'y') && matches_letter(a[1], 'e') && matches_letter(a[2], 's')
    } else {
        false
    };
    (shown, yes)
}

} // verus!
