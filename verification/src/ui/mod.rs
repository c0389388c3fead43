//! Text helpers of the interactive views.

pub mod agents;
pub mod spans;
pub mod tools;
pub mod transcript;

use vstd::prelude::*;
use vstd::view::View as _;
use crate::strings::{chars_of, concat_str, prefix_chars, take_chars};
use crate::format::sat_sub3;

verus! {

/// `s` itself when it has at most `max_len` characters, otherwise its first
/// `max_len - 3` characters followed by "...".
pub open spec fn spec_truncate_chars(s: Seq<char>, max_len: int) -> Seq<char> {
    if s.len() <= max_len {
        s
    } else {
        take_chars(s, sat_sub3(max_len)) + "..."@
    }
}

/// Truncate text to max length with ellipsis, counting characters.
pub fn truncate(s: &str, max_len: usize) -> (res: String)
    ensures
        res@ == spec_truncate_chars(s@, max_len as int),
{
    let v = chars_of(s);
    if v.len() <= max_len {
        String::from_str(s)
    } else {
        let head = prefix_chars(s, max_len.saturating_sub(3));
        concat_str(head.as_str(), "...")
    }
}

} // verus!
