//! Matching of paths and names against patterns with wildcards.

use crate::text::SLASH;
use vstd::prelude::*;

verus! {

pub const STAR: u8 = 42;

pub const QUESTION: u8 = 63;

/// Whether `text` from `j` on matches `pattern` from `i` on. A `?` stands
/// for one character other than the separator, a `*` for any run of such
/// characters, and `**` for any run of characters at all; every other
/// character stands for itself.
pub open spec fn matches_from(pattern: Seq<u8>, i: int, text: Seq<u8>, j: int) -> bool
    decreases pattern.len() - i, text.len() - j,
{
    if i < 0 || j < 0 || j > text.len() {
        false
    } else if i >= pattern.len() {
        j == text.len()
    } else if pattern[i] == STAR {
        if i + 1 < pattern.len() && pattern[i + 1] == STAR {
            matches_from(pattern, i + 2, text, j) || (j < text.len() && matches_from(
                pattern,
                i,
                text,
                j + 1,
            ))
        } else {
            matches_from(pattern, i + 1, text, j) || (j < text.len() && text[j] != SLASH
                && matches_from(pattern, i, text, j + 1))
        }
    } else if pattern[i] == QUESTION {
        j < text.len() && text[j] != SLASH && matches_from(pattern, i + 1, text, j + 1)
    } else {
        j < text.len() && text[j] == pattern[i] && matches_from(pattern, i + 1, text, j + 1)
    }
}

/// Whether all of `text` matches all of `pattern`.
pub open spec fn glob_matches(pattern: Seq<u8>, text: Seq<u8>) -> bool {
    matches_from(pattern, 0, text, 0)
}

fn match_at(pattern: &[u8], i: usize, text: &[u8], j: usize) -> (r: bool)
    requires
        i <= pattern@.len(),
        j <= text@.len(),
    ensures
        r == matches_from(pattern@, i as int, text@, j as int),
    decreases pattern@.len() - i, text@.len() - j,
{
    if i >= pattern.len() {
        return j == text.len();
    }
    let p = pattern[i];
    if p == STAR {
        if i + 1 < pattern.len() && pattern[i + 1] == STAR {
            match_at(pattern, i + 2, text, j) || (j < text.len() && match_at(
                pattern,
                i,
                text,
                j + 1,
            ))
        } else {
            match_at(pattern, i + 1, text, j) || (j < text.len() && text[j] != SLASH && match_at(
                pattern,
                i,
                text,
                j + 1,
            ))
        }
    } else if p == QUESTION {
        j < text.len() && text[j] != SLASH && match_at(pattern, i + 1, text, j + 1)
    } else {
        j < text.len() && text[j] == p && match_at(pattern, i + 1, text, j + 1)
    }
}

/// Whether all of `text` matches all of `pattern`.
pub fn glob(pattern: &[u8], text: &[u8]) -> (r: bool)
    ensures
        r == glob_matches(pattern@, text@),
{
    match_at(pattern, 0, text, 0)
}

/// A pattern without wildcards matches itself.
pub proof fn lemma_literal_matches_itself(text: Seq<u8>, i: int)
    requires
        0 <= i <= text.len(),
        forall|k: int| 0 <= k < text.len() ==> #[trigger] text[k] != STAR && text[k] != QUESTION,
    ensures
        matches_from(text, i, text, i),
    decreases text.len() - i,
{
    if i < text.len() {
        lemma_literal_matches_itself(text, i + 1);
    }
}

} // verus!
