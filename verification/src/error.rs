//! The error type shared by the grammar and the serializer.

use vstd::prelude::*;
use vstd::string::StringExecFns;
use crate::token::Span;

verus! {

/// A failure: a human-readable message and, where known, the position it
/// refers to.
#[derive(Debug)]
pub struct Error {
    pub span: Option<Span>,
    pub msg: String,
}

/// The mathematical content of an [`Error`].
pub struct ErrorView {
    pub span: Option<Span>,
    pub msg: Seq<char>,
}

impl View for Error {
    type V = ErrorView;

    open spec fn view(&self) -> ErrorView {
        ErrorView { span: self.span, msg: self.msg@ }
    }
}

impl Error {
    /// An error with the given message at the given position.
    pub fn new(span: Option<Span>, msg: &str) -> (e: Error)
        ensures
            e@ == (ErrorView { span, msg: msg@ }),
    {
        Error { span, msg: String::from_str(msg) }
    }

    /// The message of this error.
    pub fn message(&self) -> (m: &str)
        ensures
            m@ == self@.msg,
    {
        self.msg.as_str()
    }
}

/// The text `'c'`: the character between single quotes.
pub open spec fn quoted_char(c: char) -> Seq<char> {
    seq!['\'', c, '\'']
}

/// The text `'s'`: the string between single quotes.
pub open spec fn quoted(s: Seq<char>) -> Seq<char> {
    seq!['\''] + s + seq!['\'']
}

/// Appends `'s'` to `out`.
pub fn push_quoted(out: &mut String, s: &str)
    ensures
        final(out)@ == old(out)@ + quoted(s@),
{
    out.push('\'');
    out.append(s);
    out.push('\'');
    assert(out@ =~= old(out)@ + quoted(s@));
}

/// Appends `'c'` to `out`.
pub fn push_quoted_char(out: &mut String, c: char)
    ensures
        final(out)@ == old(out)@ + quoted_char(c),
{
    out.push('\'');
    out.push(c);
    out.push('\'');
    assert(out@ =~= old(out)@ + quoted_char(c));
}

} // verus!
