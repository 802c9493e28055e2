//! Text as it arrives in forms: trimming and splitting into lines.

use vstd::prelude::*;

verus! {

/// What `char::is_whitespace` returns: whether a character has the Unicode
/// property `White_Space`. The property is a table of code points, so it is
/// named here rather than written out.
pub uninterp spec fn is_white_space(c: char) -> bool;

/// `text` without its leading white space.
pub open spec fn trim_start(text: Seq<char>) -> Seq<char>
    decreases text.len(),
{
    if text.len() > 0 && is_white_space(text.first()) {
        trim_start(text.drop_first())
    } else {
        text
    }
}

/// `text` without its trailing white space.
pub open spec fn trim_end(text: Seq<char>) -> Seq<char>
    decreases text.len(),
{
    if text.len() > 0 && is_white_space(text.last()) {
        trim_end(text.drop_last())
    } else {
        text
    }
}

/// `text` without leading and trailing white space.
pub open spec fn trimmed(text: Seq<char>) -> Seq<char> {
    trim_end(trim_start(text))
}

/// An optional text trimmed, and dropped if nothing is left of it.
pub open spec fn cleaned(text: Option<Seq<char>>) -> Option<Seq<char>> {
    match text {
        Some(t) => if trimmed(t).len() == 0 {
            None
        } else {
            Some(trimmed(t))
        },
        None => None,
    }
}

/// What `str::lines` yields for a text, line by line: the text split at
/// `\n` or `\r\n`, line endings left out, a final line ending optional.
pub uninterp spec fn lines_of(text: Seq<char>) -> Seq<Seq<char>>;

/// The values of a list of texts.
pub open spec fn text_views(texts: Seq<String>) -> Seq<Seq<char>> {
    Seq::new(texts.len(), |i: int| texts[i]@)
}

/// Calls `str::trim`.
///
/// Trusted: the result is the text with every leading and trailing
/// character removed for which `char::is_whitespace` holds, as the
/// documentation of `str::trim` says; what is left neither starts nor ends
/// with such a character.
#[verifier::external_body]
pub(crate) fn trim(text: &str) -> (kept: String)
    ensures
        kept@ == trimmed(text@),
        kept@.len() > 0 ==> !is_white_space(kept@.first()) && !is_white_space(kept@.last()),
{
    text.trim().to_string()
}

/// Calls `str::lines` and collects what it yields.
///
/// Trusted: the lines come in the order of the text; how the text is split
/// is left to the name `lines_of`.
#[verifier::external_body]
pub(crate) fn lines(text: &str) -> (found: Vec<String>)
    ensures
        text_views(found@) == lines_of(text@),
{
    text.lines().map(|line| line.to_string()).collect()
}

/// An optional text trimmed, and dropped if nothing is left of it.
pub fn clean(text: Option<String>) -> (kept: Option<String>)
    ensures
        crate::session::text_view(kept) == cleaned(crate::session::text_view(text)),
{
    match text {
        Some(t) => {
            let t = trim(t.as_str());
            if t.as_str().is_empty() {
                None
            } else {
                Some(t)
            }
        },
        None => None,
    }
}

} // verus!
