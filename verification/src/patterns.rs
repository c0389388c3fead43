//! Regular expressions, compiled by the `regex` crate and used for finding
//! tool names in log messages and for normalising warning messages.

use vstd::prelude::*;
use vstd::view::View as _;

verus! {

#[verifier::external_type_specification]
#[verifier::external_body]
pub struct ExRegex(regex::Regex);

/// Whether `regex::Regex::new` accepts a pattern (it refuses invalid
/// patterns and those that compile beyond its size limit).
pub uninterp spec fn regex_compiles(pattern: Seq<char>) -> bool;

/// What `regex::Regex::replace_all` makes of `text`: every non-overlapping
/// match of the pattern, leftmost first, replaced by `rep` (with `$`
/// references expanded).
pub uninterp spec fn regex_replace_all(pattern: Seq<char>, text: Seq<char>, rep: Seq<char>) -> Seq<char>;

/// The text of capture group `group` of the leftmost match of the pattern
/// in `text` (`regex::Regex::captures` followed by `Captures::get`); `None`
/// when nothing matches or the group took no part in the match.
pub uninterp spec fn regex_capture(pattern: Seq<char>, text: Seq<char>, group: int) -> Option<Seq<char>>;

/// A compiled regular expression together with the pattern it was compiled
/// from. Values are made only by `compile_pattern`.
pub struct Pattern {
    source: String,
    re: regex::Regex,
}

impl Pattern {
    /// The pattern this expression was compiled from.
    pub closed spec fn source(self) -> Seq<char> {
        self.source@
    }
}

/// `regex::Regex::new`: compiles `source`, or gives `None` where the crate
/// refuses the pattern. The result keeps the pattern it was compiled from.
#[verifier::external_body]
pub(crate) fn compile_pattern(source: &str) -> (r: Option<Pattern>)
    ensures
        r is Some <==> regex_compiles(source@),
        r matches Some(p) ==> p.source() == source@,
{
    regex::Regex::new(source).ok().map(|re| Pattern { source: source.to_string(), re })
}

/// `regex::Regex::replace_all` with a text replacement.
#[verifier::external_body]
pub(crate) fn replace_all(p: &Pattern, text: &str, rep: &str) -> (r: String)
    ensures
        r@ == regex_replace_all(p.source(), text@, rep@),
{
    p.re.replace_all(text, rep).into_owned()
}

pub open spec fn opt_seq(o: Option<String>) -> Option<Seq<char>> {
    match o {
        Some(s) => Some(s@),
        None => None,
    }
}

/// `regex::Regex::captures` and the text of one of its groups.
#[verifier::external_body]
pub(crate) fn capture_group(p: &Pattern, text: &str, group: usize) -> (r: Option<String>)
    ensures
        opt_seq(r) == regex_capture(p.source(), text@, group as int),
{
    p.re.captures(text).and_then(|c| c.get(group)).map(|m| m.as_str().to_string())
}

} // verus!
