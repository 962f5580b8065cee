//! The operator's answer to the question whether the commands are to run.

use vstd::prelude::*;

use crate::text::{to_chars, trim, trimmed};

verus! {

/// Whether `answer` says yes: apart from white space around it, it is the
/// one letter `y`.
pub open spec fn says_yes(answer: Seq<char>) -> bool {
    trimmed(answer) == seq!['y']
}

/// Whether the operator agreed. Only `y` counts; anything else, `Y` and
/// `yes` too, declines.
pub fn is_confirmation(answer: &str) -> (agreed: bool)
    ensures
        agreed == says_yes(answer@),
{
    let chars = to_chars(answer);
    let kept = trim(chars.as_slice());
    let agreed = kept.len() == 1 && kept[0] == 'y';
    assert(agreed ==> kept@ =~= seq!['y']);
    agreed
}

} // verus!
