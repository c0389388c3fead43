//! Helpers of the transcript view.

use vstd::prelude::*;
use vstd::view::View as _;
use crate::strings::{byte_len, prefix_bytes_str, str_byte_len, concat_str};
use crate::format::sat_sub3;
use vstd::utf8::{decode_utf8, encode_utf8, is_char_boundary};

verus! {

/// `s` itself when its UTF-8 form has at most `max_len` bytes, otherwise the
/// characters of its first `max_len - 3` bytes followed by "...".
pub open spec fn spec_truncate_bytes(s: Seq<char>, max_len: int) -> Seq<char> {
    if byte_len(s) <= max_len {
        s
    } else {
        decode_utf8(encode_utf8(s).subrange(0, sat_sub3(max_len))) + "..."@
    }
}

/// Truncate a string to a maximum length in bytes, adding "..." if
/// truncated. The cut must fall on a character boundary.
pub fn truncate_str(s: &str, max_len: usize) -> (res: String)
    requires
        byte_len(s@) > max_len ==> is_char_boundary(encode_utf8(s@), sat_sub3(max_len as int)),
    ensures
        res@ == spec_truncate_bytes(s@, max_len as int),
{
    if str_byte_len(s) <= max_len {
        String::from_str(s)
    } else {
        let head = prefix_bytes_str(s, max_len.saturating_sub(3));
        concat_str(head, "...")
    }
}

} // verus!
