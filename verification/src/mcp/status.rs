//! What a goal says of its own proof.

use vstd::prelude::*;

use crate::json::{opt_text, Json, JsonView};
use crate::text::same;

verus! {

/// The verdict that WP reached on a goal: the normalized spelling where there
/// is one, else the one on the wire.
pub open spec fn goal_status(goal: JsonView) -> Option<Seq<char>> {
    match goal.text_at("normalized_status"@) {
        Some(status) => Some(status),
        None => goal.text_at("status"@),
    }
}

/// The verdict that WP reached on a goal, whatever its property came to.
pub fn own_status(goal: &Json) -> (r: Option<&str>)
    ensures
        opt_text(r) == goal_status(goal@),
{
    match goal.text_at("normalized_status") {
        Some(status) => Some(status),
        None => goal.text_at("status"),
    }
}

/// Whether a verdict says that the goal is proved.
pub open spec fn proved(status: Seq<char>) -> bool {
    status == "valid"@ || status == "VALID"@
}

/// Whether a verdict says that the goal is proved, in either spelling.
pub fn is_proved(status: &str) -> (r: bool)
    ensures
        r == proved(status@),
{
    same(status, "valid") || same(status, "VALID")
}

/// Whether WP proved the goal. One without a verdict is not proved.
pub fn own_status_is_proved(goal: &Json) -> (r: bool)
    ensures
        r == match goal_status(goal@) {
            Some(status) => proved(status),
            None => false,
        },
{
    match own_status(goal) {
        Some(status) => is_proved(status),
        None => false,
    }
}

} // verus!
