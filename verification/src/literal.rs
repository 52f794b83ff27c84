//! Decoding of string literal tokens.

use vstd::prelude::*;

verus! {

/// The string that the source text `text` of a (raw) string literal stands
/// for, with every escape resolved; `None` where `text` is not a string
/// literal.
pub uninterp spec fn string_literal_value(text: Seq<char>) -> Option<Seq<char>>;

/// Whether `c` is encoded as a single byte.
pub open spec fn single_byte(c: char) -> bool {
    c <= '\u{7F}'
}

/// The value of a literal token with source text `text`, as this library
/// reads it: that of the string literal, unless the text ends in a
/// character of more than one byte, which is never taken for one.
pub open spec fn string_value(text: Seq<char>) -> Option<Seq<char>> {
    if text.len() > 0 && !single_byte(text.last()) {
        None
    } else {
        string_literal_value(text)
    }
}

/// Calls `litrs::StringLit::parse` on `text` and takes the literal's value
/// out. The result is the value that the literal stands for, or `None` where
/// litrs reports that `text` is no string literal. litrs slices its input one
/// byte before the end, so a text ending inside a longer character is kept
/// away from it.
#[verifier::external_body]
fn parse_string_literal(text: &str) -> (value: Option<String>)
    requires
        text@.len() > 0 ==> single_byte(text@.last()),
    ensures
        value is Some <==> string_literal_value(text@) is Some,
        value matches Some(v) ==> string_literal_value(text@) == Some(v@),
{
    match litrs::StringLit::parse(text) {
        Ok(lit) => Some(lit.into_value().into_owned()),
        Err(_) => None,
    }
}

/// The last character of `s`, if there is one.
pub fn last_char(s: &str) -> (last: Option<char>)
    ensures
        last is Some <==> s@.len() > 0,
        last matches Some(c) ==> c == s@.last(),
{
    let mut last: Option<char> = None;
    for c in it: s.chars()
        invariant
            it.seq() == s@,
            last is Some <==> it.index() > 0,
            last matches Some(l) ==> l == s@[it.index() - 1],
    {
        last = Some(c);
    }
    last
}

/// Decodes the source text of a literal token as a string literal.
pub fn string_literal(text: &str) -> (value: Option<String>)
    ensures
        value is Some <==> string_value(text@) is Some,
        value matches Some(v) ==> string_value(text@) == Some(v@),
{
    match last_char(text) {
        Some(c) if c > '\u{7F}' => None,
        _ => parse_string_literal(text),
    }
}

} // verus!
