//! What is sent to the report writer and how its answer is unwrapped.

pub mod stock;

use crate::text::{remove_all, without};
use vstd::prelude::*;

verus! {

/// An answer without the code fences that a model may wrap its JSON in: the
/// opening fence with its language tag and line break, then every closing
/// fence with the line break before it, then every fence that is left.
pub open spec fn unfenced(response: Seq<char>) -> Seq<char> {
    without(without(without(response, "```json\n"@), "\n```"@), "```"@)
}

/// Takes the code fences out of an answer, leaving the JSON that they wrapped.
pub fn strip_code_fences(response: &str) -> (r: String)
    ensures
        r@ == unfenced(response@),
{
    let opened = remove_all(response, "```json\n");
    let closed = remove_all(opened.as_str(), "\n```");
    remove_all(closed.as_str(), "```")
}

} // verus!
