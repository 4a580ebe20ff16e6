//! Small helpers on text: the characters of a string slice, the suffix test,
//! and building a `String` from characters or from UTF-8 bytes.

use vstd::prelude::*;
use vstd::utf8::{decode_utf8, valid_utf8};

verus! {

/// `text` ends with `suffix`, character by character.
pub open spec fn ends_with(text: Seq<char>, suffix: Seq<char>) -> bool {
    &&& suffix.len() <= text.len()
    &&& text.subrange(text.len() - suffix.len(), text.len() as int) == suffix
}

/// Collects `chars` into a `String` with `Iterator::collect`; the string holds
/// exactly those characters, in order.
#[verifier::external_body]
pub(crate) fn string_of_chars(chars: &Vec<char>) -> (text: String)
    ensures
        text@ == chars@,
{
    chars.iter().collect()
}

/// Calls `String::from_utf8`: the bytes become a `String` exactly where they
/// are UTF-8, and the string then holds the characters that they encode.
#[verifier::external_body]
pub(crate) fn string_from_utf8(bytes: Vec<u8>) -> (text: Option<String>)
    ensures
        text is Some <==> valid_utf8(bytes@),
        text matches Some(t) ==> t@ == decode_utf8(bytes@),
{
    String::from_utf8(bytes).ok()
}

/// The characters of `text`, in order.
pub fn chars_of(text: &str) -> (chars: Vec<char>)
    ensures
        chars@ == text@,
{
    broadcast use vstd::string::group_string_axioms;
    let mut chars: Vec<char> = Vec::new();
    for c in it: text.chars()
        invariant
            it.seq() == text@,
            chars@ == it.seq().take(it.index()),
    {
        chars.push(c);
    }
    chars
}

/// Whether `text` ends with `suffix`.
pub fn text_ends_with(text: &str, suffix: &str) -> (found: bool)
    ensures
        found == ends_with(text@, suffix@),
{
    let body = chars_of(text);
    let tail = chars_of(suffix);
    if tail.len() > body.len() {
        return false;
    }
    let offset: usize = body.len() - tail.len();
    let mut i: usize = 0;
    while i < tail.len()
        invariant
            body@ == text@,
            tail@ == suffix@,
            offset + tail.len() == body.len(),
            i <= tail.len(),
            forall|j: int| 0 <= j < i ==> body@[offset + j] == tail@[j],
        decreases tail.len() - i,
    {
        if body[offset + i] != tail[i] {
            assert(text@.subrange(text@.len() - suffix@.len(), text@.len() as int)[i as int]
                != suffix@[i as int]);
            return false;
        }
        i += 1;
    }
    assert(text@.subrange(text@.len() - suffix@.len(), text@.len() as int) =~= suffix@);
    true
}

} // verus!
