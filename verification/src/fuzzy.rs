//! Scores and match positions from `nucleo-matcher`, and display widths from
//! `unicode-width`, as named results.

use nucleo_matcher::pattern::{CaseMatching, Normalization, Pattern};
use nucleo_matcher::{Matcher, Utf32Str};
use unicode_width::{UnicodeWidthChar, UnicodeWidthStr};
use vstd::prelude::*;
use vstd::utf8::encode_utf8;


verus! {

/// The score that `nucleo-matcher` gives `item` for the pattern `term`, parsed
/// with case ignored and smart normalization; `None` when it does not match.
pub uninterp spec fn fuzzy_score(term: Seq<char>, item: Seq<char>) -> Option<u32>;

/// Parses `term` with `Pattern::parse` (case ignored, smart normalization) and
/// calls `Pattern::score` on `item` with a default `Matcher`. The score is
/// named, not spelled out.
#[verifier::external_body]
pub(crate) fn pattern_score(term: &str, item: &str) -> (r: Option<u32>)
    ensures
        r == fuzzy_score(term@, item@),
{
    let mut matcher = Matcher::default();
    let mut buf = Vec::new();
    let haystack = Utf32Str::new(item, &mut buf);
    Pattern::parse(term, CaseMatching::Ignore, Normalization::Smart).score(haystack, &mut matcher)
}

/// The positions that `nucleo-matcher` reports as matched when `text` is
/// matched against the pattern `term`, in the order reported. They index the
/// haystack that `Utf32Str::new` builds: the bytes of `text` when its
/// graphemes all start with an ASCII character, else one entry per grapheme.
pub uninterp spec fn fuzzy_indices(term: Seq<char>, text: Seq<char>) -> Seq<u32>;

/// Parses `term` as `pattern_score` does and calls `Pattern::indices` on
/// `text` with an empty buffer; the buffer's content is named. The crate
/// documents the indices as those of matched haystack entries, so each is
/// below the haystack's length, which is at most the byte length of `text`
/// and is its character count when `text` is ASCII.
#[verifier::external_body]
pub(crate) fn pattern_indices(term: &str, text: &str) -> (r: Vec<u32>)
    ensures
        r@ == fuzzy_indices(term@, text@),
        forall|k: int| 0 <= k < r@.len() ==> (#[trigger] r@[k] as int) < encode_utf8(text@).len(),
        vstd::string::is_ascii(text) ==> forall|k: int|
            0 <= k < r@.len() ==> (#[trigger] r@[k] as int) < text@.len(),
{
    let mut matcher = Matcher::default();
    let mut buf = Vec::new();
    let haystack = Utf32Str::new(text, &mut buf);
    let mut indices = Vec::new();
    Pattern::parse(term, CaseMatching::Ignore, Normalization::Smart).indices(
        haystack,
        &mut matcher,
        &mut indices,
    );
    indices
}

/// The display width of `c` in columns, `None` for control characters.
pub uninterp spec fn char_width(c: char) -> Option<usize>;

/// Calls `UnicodeWidthChar::width`.
#[verifier::external_body]
pub(crate) fn display_width_of_char(c: char) -> (r: Option<usize>)
    ensures
        r == char_width(c),
{
    UnicodeWidthChar::width(c)
}

/// The display width of the text `s` in columns.
pub uninterp spec fn text_width(s: Seq<char>) -> usize;

/// Calls `UnicodeWidthStr::width`.
#[verifier::external_body]
pub(crate) fn display_width_of_text(s: &str) -> (r: usize)
    ensures
        r == text_width(s@),
{
    UnicodeWidthStr::width(s)
}

} // verus!
