//! Edits of a text at a character position.

use vstd::prelude::*;
use vstd::string::{StrSliceExecFns, StringExecFns};

verus! {

/// `String::push` appends the given character to the end of the string.
pub assume_specification[ String::push ](text: &mut String, ch: char)
    ensures
        final(text)@ == old(text)@.push(ch),
;

/// The text with `ch` put in before the character at position `at`
/// (at the end, when `at` is the length). Positions count characters.
pub fn insert_char(text: &str, at: usize, ch: char) -> (edited: String)
    requires
        at <= text@.len(),
    ensures
        edited@ == text@.insert(at as int, ch),
{
    let count = text.unicode_len();
    let mut edited = String::new();
    edited.append(text.substring_char(0, at));
    edited.push(ch);
    edited.append(text.substring_char(at, count));
    assert(edited@ =~= text@.insert(at as int, ch));
    edited
}

/// The text without the character at position `at`. Positions count
/// characters.
pub fn remove_char(text: &str, at: usize) -> (edited: String)
    requires
        at < text@.len(),
    ensures
        edited@ == text@.remove(at as int),
{
    let count = text.unicode_len();
    let mut edited = String::new();
    edited.append(text.substring_char(0, at));
    edited.append(text.substring_char(at + 1, count));
    assert(edited@ =~= text@.remove(at as int));
    edited
}

/// The text before position `at`. Positions count characters.
pub fn text_before(text: &str, at: usize) -> (head: &str)
    requires
        at <= text@.len(),
    ensures
        head@ == text@.take(at as int),
{
    text.substring_char(0, at)
}

/// How many characters of a snippet a row shows before it is cut short.
pub const PREVIEW_CHARS: usize = 50;

/// What a row shows of a snippet: all of it, or, where it is longer than
/// `PREVIEW_CHARS` characters, that many characters and three dots.
pub open spec fn preview_of(content: Seq<char>) -> Seq<char> {
    if content.len() > PREVIEW_CHARS {
        content.take(PREVIEW_CHARS as int) + seq!['.', '.', '.']
    } else {
        content
    }
}

/// What a row shows of a snippet.
pub fn preview(content: &str) -> (shown: String)
    ensures
        shown@ == preview_of(content@),
{
    if content.unicode_len() > PREVIEW_CHARS {
        let mut shown = String::new();
        shown.append(content.substring_char(0, PREVIEW_CHARS));
        shown.append("...");
        proof {
            reveal_strlit("...");
            assert("..."@ =~= seq!['.', '.', '.']);
            assert(shown@ =~= preview_of(content@));
        }
        shown
    } else {
        content.to_owned()
    }
}

} // verus!
