//! Contracts for the string operations of the standard library that the
//! crate uses.

use vstd::prelude::*;
use vstd::string::StringSliceAdditionalSpecFns;
use vstd::utf8::{
    encode_scalar,
    encode_utf8,
    encode_utf8_decode_utf8,
    encode_utf8_first_scalar,
    encode_utf8_valid_utf8,
    is_char_boundary,
    pop_first_scalar,
};

verus! {

/// `String::push` appends one character.
pub assume_specification[ String::push ](s: &mut String, ch: char)
    ensures
        final(s)@ == old(s)@.push(ch),
;

/// `==` on string slices compares their characters.
pub assume_specification[ <str as PartialEq>::eq ](a: &str, b: &str) -> (equal: bool)
    ensures
        equal == (a@ == b@),
;

/// `String::truncate` keeps the first `new_len` bytes of the UTF-8 encoding
/// and does nothing where the string is no longer than that. It panics
/// where the cut would fall inside a character, so that is kept away.
pub assume_specification[ String::truncate ](s: &mut String, new_len: usize)
    requires
        new_len <= encode_utf8(old(s)@).len() ==> is_char_boundary(
            encode_utf8(old(s)@),
            new_len as int,
        ),
    ensures
        new_len <= encode_utf8(old(s)@).len() ==> encode_utf8(final(s)@) == encode_utf8(
            old(s)@,
        ).subrange(0, new_len as int),
        new_len > encode_utf8(old(s)@).len() ==> final(s)@ == old(s)@,
;

/// The encoding of a concatenation is the concatenation of the encodings.
pub proof fn lemma_encode_concat(a: Seq<char>, b: Seq<char>)
    ensures
        encode_utf8(a + b) == encode_utf8(a) + encode_utf8(b),
    decreases a.len(),
{
    if a.len() == 0 {
        assert(a + b =~= b);
        assert(encode_utf8(a) + encode_utf8(b) =~= encode_utf8(b));
    } else {
        assert((a + b).drop_first() =~= a.drop_first() + b);
        lemma_encode_concat(a.drop_first(), b);
        assert(encode_utf8(a + b) =~= encode_utf8(a) + encode_utf8(b));
    }
}

/// In the encoding of a concatenation, a character begins where the
/// encoding of the first part ends.
pub proof fn lemma_boundary_between(a: Seq<char>, b: Seq<char>)
    ensures
        is_char_boundary(encode_utf8(a + b), encode_utf8(a).len() as int),
    decreases a.len(),
{
    let bytes = encode_utf8(a + b);
    encode_utf8_valid_utf8(a + b);
    if a.len() == 0 {
    } else {
        let rest = a.drop_first() + b;
        assert((a + b).drop_first() =~= rest);
        encode_utf8_first_scalar(a + b);
        let first = encode_scalar(a[0] as u32);
        assert(bytes == first + encode_utf8(rest));
        assert(pop_first_scalar(bytes) =~= encode_utf8(rest));
        lemma_boundary_between(a.drop_first(), b);
        lemma_encode_concat(a, b);
        assert(encode_utf8(a).len() == first.len() + encode_utf8(a.drop_first()).len());
        assert(first.len() > 0);
    }
}

/// Whether `s` ends with `suffix`.
pub open spec fn ends_with(s: Seq<char>, suffix: Seq<char>) -> bool {
    suffix.len() <= s.len() && s.skip(s.len() - suffix.len()) == suffix
}

/// Calls `str::ends_with` with a string slice as the pattern: whether the
/// characters of `s` end with those of `suffix`.
#[verifier::external_body]
pub(crate) fn str_ends_with(s: &str, suffix: &str) -> (b: bool)
    ensures
        b == ends_with(s@, suffix@),
{
    s.ends_with(suffix)
}

/// Removes `suffix` from the end of `buf`.
pub fn remove_suffix(buf: &mut String, suffix: &str)
    requires
        ends_with(old(buf)@, suffix@),
    ensures
        final(buf)@ == old(buf)@.take(old(buf)@.len() - suffix@.len()),
{
    let ghost kept = buf@.take(buf@.len() - suffix@.len());
    proof {
        assert(buf@ =~= kept + suffix@);
        lemma_encode_concat(kept, suffix@);
        lemma_boundary_between(kept, suffix@);
    }
    let new_len = buf.as_str().as_bytes().len() - suffix.as_bytes().len();
    assert(new_len == encode_utf8(kept).len());
    buf.truncate(new_len);
    proof {
        assert(encode_utf8(buf@) =~= encode_utf8(kept));
        encode_utf8_decode_utf8(buf@);
        encode_utf8_decode_utf8(kept);
    }
}

/// Whether two string slices hold the same characters.
pub fn same(a: &str, b: &str) -> (equal: bool)
    ensures
        equal == (a@ == b@),
{
    *a == *b
}

} // verus!
