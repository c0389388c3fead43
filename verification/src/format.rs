//! Text formatting shared by the reports: truncation and word wrapping.

use vstd::prelude::*;
use vstd::view::View as _;
use crate::strings::{byte_len, chars_of, concat_str, prefix_chars, str_byte_len, take_chars};
use crate::thresholds::TEXT_PREVIEW_SHORT;

verus! {

pub open spec fn sat_sub3(n: int) -> int {
    if n > 3 { n - 3 } else { 0 }
}

/// `text` itself when its UTF-8 form has at most `max_len` bytes, otherwise
/// its first `max_len - 3` characters followed by "...".
pub open spec fn spec_truncate(text: Seq<char>, max_len: int) -> Seq<char> {
    if byte_len(text) <= max_len {
        text
    } else {
        take_chars(text, sat_sub3(max_len)) + "..."@
    }
}

/// Truncate text to a maximum length, adding "..." if truncated.
pub fn truncate(text: &str, max_len: usize) -> (res: String)
    ensures
        res@ == spec_truncate(text@, max_len as int),
{
    if str_byte_len(text) <= max_len {
        String::from_str(text)
    } else {
        let head = prefix_chars(text, max_len.saturating_sub(3));
        concat_str(head.as_str(), "...")
    }
}

/// Truncate text to the default short preview length.
pub fn truncate_short(text: &str) -> (res: String)
    ensures
        res@ == spec_truncate(text@, TEXT_PREVIEW_SHORT as int),
{
    truncate(text, TEXT_PREVIEW_SHORT)
}

/// A truncated text has at most `max_len` characters when `max_len` leaves
/// room for the "...".
pub proof fn lemma_truncate_len(text: Seq<char>, max_len: int)
    requires
        max_len >= 3,
    ensures
        spec_truncate(text, max_len).len() <= max_len,
        byte_len(text) <= max_len ==> spec_truncate(text, max_len) == text,
{
    crate::strings::lemma_byte_len_ge_len(text);
    reveal_strlit("...");
}

} // verus!

verus! {

use crate::strings::{
    chars_byte_len, chars_concat, chars_eq, chars_views, split_words, string_from_chars,
    strings_views, trim, trim_chars, words_of,
};

/// Lines produced so far and the line being filled.
pub struct WrapState {
    pub lines: Seq<Seq<char>>,
    pub current: Seq<char>,
}

/// One step of greedy wrapping: a word that would make the line longer than
/// `max_width` bytes (counting the separating space) starts a new line, and
/// the full line is kept unless it holds nothing beyond the prefix;
/// otherwise the word is appended, after a space unless the line is only the
/// prefix.
pub open spec fn wrap_step(st: WrapState, word: Seq<char>, max_width: int, prefix: Seq<char>) -> WrapState {
    if byte_len(st.current) + byte_len(word) + 1 > max_width {
        WrapState {
            lines: if trim(st.current) != trim(prefix) { st.lines.push(st.current) } else { st.lines },
            current: prefix + word,
        }
    } else {
        WrapState {
            lines: st.lines,
            current: (if byte_len(st.current) > byte_len(prefix) { st.current.push(' ') } else { st.current })
                + word,
        }
    }
}

pub open spec fn wrap_words(words: Seq<Seq<char>>, k: int, max_width: int, prefix: Seq<char>) -> WrapState
    decreases k,
{
    if k <= 0 {
        WrapState { lines: Seq::empty(), current: prefix }
    } else {
        wrap_step(wrap_words(words, k - 1, max_width, prefix), words[k - 1], max_width, prefix)
    }
}

/// The lines of `text` wrapped greedily at `max_width` bytes, each starting
/// with `prefix`; the last line is kept when it holds more than the prefix.
pub open spec fn spec_word_wrap(text: Seq<char>, max_width: int, prefix: Seq<char>) -> Seq<Seq<char>> {
    let words = words_of(text);
    let st = wrap_words(words, words.len() as int, max_width, prefix);
    if byte_len(trim(st.current)) > byte_len(trim(prefix)) {
        st.lines.push(st.current)
    } else {
        st.lines
    }
}

/// Word wrap text to a given width with prefix.
pub fn word_wrap(text: &str, max_width: usize, prefix: &str) -> (lines: Vec<String>)
    ensures
        strings_views(lines@) == spec_word_wrap(text@, max_width as int, prefix@),
{
    let tv = chars_of(text);
    let pv = chars_of(prefix);
    let words = split_words(&tv);
    let ghost wv = chars_views(words@);
    let ptrim = trim_chars(&pv);
    let ptrim_bytes = chars_byte_len(&ptrim);
    let p_bytes = chars_byte_len(&pv);
    let mut lines: Vec<String> = Vec::new();
    let mut current: Vec<char> = chars_concat(&pv, &Vec::new());
    proof {
        assert(current@ =~= pv@);
    }
    let mut k: usize = 0;
    assert(strings_views(lines@) =~= Seq::<Seq<char>>::empty());
    while k < words.len()
        invariant
            0 <= k <= words.len(),
            wv == chars_views(words@),
            wv == words_of(tv@),
            tv@ == text@,
            pv@ == prefix@,
            ptrim@ == trim(prefix@),
            p_bytes == byte_len(prefix@),
            (WrapState { lines: strings_views(lines@), current: current@ }) == wrap_words(
                wv,
                k as int,
                max_width as int,
                prefix@,
            ),
        decreases words.len() - k,
    {
        let word = &words[k];
        assert(wv[k as int] == word@);
        let cb = chars_byte_len(&current);
        let wb = chars_byte_len(word);
        assert(current@.len() == current.len() && word@.len() == word.len());
        if cb + wb + 1 > max_width as u128 {
            let ctrim = trim_chars(&current);
            if !chars_eq(&ctrim, &ptrim) {
                let ghost before = lines@;
                lines.push(string_from_chars(current.as_slice()));
                proof {
                    assert(strings_views(lines@) =~= strings_views(before).push(current@));
                }
            }
            current = chars_concat(&pv, word);
        } else {
            if cb > p_bytes {
                current.push(' ');
            }
            current = chars_concat(&current, word);
        }
        k = k + 1;
    }
    let ctrim = trim_chars(&current);
    if chars_byte_len(&ctrim) > ptrim_bytes {
        let ghost before = lines@;
        lines.push(string_from_chars(current.as_slice()));
        proof {
            assert(strings_views(lines@) =~= strings_views(before).push(current@));
        }
    }
    lines
}

} // verus!
