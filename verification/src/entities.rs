//! Decoding of the four character references that the grade report uses.

use crate::text::{from_chars, replace_all, replace_chars, to_chars};
use vstd::prelude::*;

verus! {

/// `s` with the four character references decoded, one after the other:
/// first every `&nbsp;` is removed, then every `&amp;` becomes `&`, then
/// every `&lt;` becomes `<`, then every `&gt;` becomes `>`. A later step sees
/// what an earlier one produced, so `&amp;lt;` ends as `<`. No other
/// reference is decoded.
pub open spec fn decode_entities(s: Seq<char>) -> Seq<char> {
    let no_space = replace_all(s, "&nbsp;"@, ""@);
    let ampersand = replace_all(no_space, "&amp;"@, "&"@);
    let less = replace_all(ampersand, "&lt;"@, "<"@);
    replace_all(less, "&gt;"@, ">"@)
}

/// Decodes the character references `&nbsp;`, `&amp;`, `&lt;` and `&gt;`
/// in `text`.
pub fn decode_chars(text: &Vec<char>) -> (decoded: Vec<char>)
    ensures
        decoded@ == decode_entities(text@),
{
    let no_space = replace_chars(text, &to_chars("&nbsp;"), &to_chars(""));
    let ampersand = replace_chars(&no_space, &to_chars("&amp;"), &to_chars("&"));
    let less = replace_chars(&ampersand, &to_chars("&lt;"), &to_chars("<"));
    replace_chars(&less, &to_chars("&gt;"), &to_chars(">"))
}

/// Decodes the character references `&nbsp;`, `&amp;`, `&lt;` and `&gt;`
/// in `s`.
pub fn html_entities(s: &str) -> (decoded: String)
    ensures
        decoded@ == decode_entities(s@),
{
    from_chars(&decode_chars(&to_chars(s)))
}

} // verus!
