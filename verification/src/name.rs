//! The character classes of XML names.

use vstd::prelude::*;

verus! {

/// Whether `c` may begin an XML name (the `NameStartChar` production).
pub open spec fn name_start_char(c: char) -> bool {
    ||| c == ':'
    ||| 'A' <= c <= 'Z'
    ||| c == '_'
    ||| 'a' <= c <= 'z'
    ||| '\u{C0}' <= c <= '\u{D6}'
    ||| '\u{D8}' <= c <= '\u{F6}'
    ||| '\u{F8}' <= c <= '\u{2FF}'
    ||| '\u{370}' <= c <= '\u{37D}'
    ||| '\u{37F}' <= c <= '\u{1FFF}'
    ||| '\u{200C}' <= c <= '\u{200D}'
    ||| '\u{2070}' <= c <= '\u{218F}'
    ||| '\u{2C00}' <= c <= '\u{2FEF}'
    ||| '\u{3001}' <= c <= '\u{D7FF}'
    ||| '\u{F900}' <= c <= '\u{FDCF}'
    ||| '\u{FDF0}' <= c <= '\u{FFFD}'
    ||| '\u{10000}' <= c <= '\u{EFFFF}'
}

/// Whether `c` may continue an XML name (the `NameChar` production).
pub open spec fn name_char(c: char) -> bool {
    ||| name_start_char(c)
    ||| c == '-'
    ||| c == '.'
    ||| '0' <= c <= '9'
    ||| c == '\u{B7}'
    ||| '\u{300}' <= c <= '\u{36F}'
    ||| '\u{203F}' <= c <= '\u{2040}'
}

/// Whether `s` is an XML name: one name-start character followed by any
/// number of name characters.
pub open spec fn name(s: Seq<char>) -> bool {
    &&& s.len() > 0
    &&& name_start_char(s[0])
    &&& forall|i: int| 0 < i < s.len() ==> name_char(#[trigger] s[i])
}

pub fn is_name_start_char(c: char) -> (b: bool)
    ensures
        b == name_start_char(c),
{
    matches!(c,
        ':'
        | 'A'..='Z'
        | '_'
        | 'a'..='z'
        | '\u{C0}'..='\u{D6}'
        | '\u{D8}'..='\u{F6}'
        | '\u{F8}'..='\u{2FF}'
        | '\u{370}'..='\u{37D}'
        | '\u{37F}'..='\u{1FFF}'
        | '\u{200C}'..='\u{200D}'
        | '\u{2070}'..='\u{218F}'
        | '\u{2C00}'..='\u{2FEF}'
        | '\u{3001}'..='\u{D7FF}'
        | '\u{F900}'..='\u{FDCF}'
        | '\u{FDF0}'..='\u{FFFD}'
        | '\u{10000}'..='\u{EFFFF}'
    )
}

pub fn is_name_char(c: char) -> (b: bool)
    ensures
        b == name_char(c),
{
    is_name_start_char(c) || matches!(c,
        '-'
        | '.'
        | '0'..='9'
        | '\u{B7}'
        | '\u{0300}'..='\u{036F}'
        | '\u{203F}'..='\u{2040}'
    )
}

pub fn is_name(s: &str) -> (b: bool)
    ensures
        b == name(s@),
{
    let mut first = true;
    for c in it: s.chars()
        invariant
            it.seq() == s@,
            first == (it.index() == 0),
            !first ==> name(s@.take(it.index())),
    {
        if first {
            if !is_name_start_char(c) {
                return false;
            }
            first = false;
        } else if !is_name_char(c) {
            return false;
        }
    }
    assert(s@.take(s@.len() as int) =~= s@);
    !first
}

} // verus!
