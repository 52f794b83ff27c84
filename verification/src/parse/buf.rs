//! The lookahead token buffer.

use vstd::prelude::*;
use vstd::string::StringExecFns;
use crate::error::{push_quoted_char, Error};
use crate::grammar;
use crate::grammar::lift;
use crate::literal::string_literal;
use crate::token::{Delimiter, Group, Ident, Punct, Span, Token};

verus! {

/// A cursor over a token sequence with one token of lookahead beyond the
/// current one.
pub struct ParseBuf {
    /// The remaining tokens, last one first.
    rev: Vec<Token>,
    /// Where an end-of-input error points.
    span: Option<Span>,
}

impl View for ParseBuf {
    type V = Seq<Token>;

    /// The tokens that remain, the current one first.
    closed spec fn view(&self) -> Seq<Token> {
        self.rev@.reverse()
    }
}

/// Moves the tokens of `tokens` into a new vector in reverse order.
fn reversed(tokens: Vec<Token>) -> (rev: Vec<Token>)
    ensures
        rev@ == tokens@.reverse(),
{
    let mut tokens = tokens;
    let ghost all = tokens@;
    let mut rev: Vec<Token> = Vec::new();
    while tokens.len() > 0
        invariant
            tokens@.len() + rev@.len() == all.len(),
            forall|i: int| 0 <= i < tokens@.len() ==> tokens@[i] == all[i],
            forall|i: int| 0 <= i < rev@.len() ==> rev@[i] == all[all.len() - 1 - i],
        decreases tokens@.len(),
    {
        let t = tokens.pop().unwrap();
        rev.push(t);
    }
    assert(rev@ =~= all.reverse());
    rev
}

impl ParseBuf {
    /// The position that an end-of-input error is reported at.
    pub closed spec fn eof_span(&self) -> Option<Span> {
        self.span
    }

    /// A buffer over a whole token sequence.
    pub fn from_stream(tokens: Vec<Token>) -> (buf: ParseBuf)
        ensures
            buf@ == tokens@,
            buf.eof_span() is None,
    {
        Self::new_impl(tokens, None)
    }

    /// A buffer over the tokens inside a group. Running out of tokens is
    /// reported at the group.
    pub fn from_group(group: Group) -> (buf: ParseBuf)
        ensures
            buf@ == group.stream@,
            buf.eof_span() == Some(group.span),
    {
        Self::new_impl(group.stream, Some(group.span))
    }

    fn new_impl(tokens: Vec<Token>, span: Option<Span>) -> (buf: ParseBuf)
        ensures
            buf@ == tokens@,
            buf.eof_span() == span,
    {
        let rev = reversed(tokens);
        assert(rev@.reverse() =~= tokens@);
        ParseBuf { rev, span }
    }

    /// The error for running out of tokens.
    pub fn eof_err(&self) -> (e: Error)
        ensures
            e@ == grammar::eof_error(self.eof_span()),
    {
        Error::new(self.span, "unexpected end of input")
    }

    /// The current token.
    pub fn curr(&self) -> (res: Result<&Token, Error>)
        ensures
            match res {
                Ok(t) => self@.len() > 0 && *t == self@[0],
                Err(e) => self@.len() == 0 && e@ == grammar::eof_error(self.eof_span()),
            },
    {
        let n = self.rev.len();
        if n > 0 {
            Ok(&self.rev[n - 1])
        } else {
            Err(self.eof_err())
        }
    }

    /// The token after the current one.
    pub fn next(&self) -> (res: Result<&Token, Error>)
        ensures
            match res {
                Ok(t) => self@.len() > 1 && *t == self@[1],
                Err(e) => self@.len() <= 1 && e@ == grammar::eof_error(self.eof_span()),
            },
    {
        let n = self.rev.len();
        if n > 1 {
            Ok(&self.rev[n - 2])
        } else {
            Err(self.eof_err())
        }
    }

    /// Advances by one token and returns the one that was current.
    pub fn bump(&mut self) -> (res: Result<Token, Error>)
        ensures
            lift(res, final(self)@) == grammar::bump(old(self)@, old(self).eof_span()),
            final(self).eof_span() == old(self).eof_span(),
    {
        match self.rev.pop() {
            Some(t) => {
                assert(self@ =~= old(self)@.drop_first());
                Ok(t)
            },
            None => Err(self.eof_err()),
        }
    }

    /// Advances by one token, which must be the punctuation character `c`.
    pub fn expect_punct(&mut self, c: char) -> (res: Result<Punct, Error>)
        ensures
            lift(res, final(self)@) == grammar::expect_punct(old(self)@, old(self).eof_span(), c),
            final(self).eof_span() == old(self).eof_span(),
    {
        match self.bump()? {
            Token::Punct(p) if p.ch == c => Ok(p),
            other => {
                let mut msg = String::from_str("expected ");
                push_quoted_char(&mut msg, c);
                Err(Error { span: Some(other.span()), msg })
            },
        }
    }

    /// Advances by one token, which must be an identifier.
    pub fn expect_ident(&mut self) -> (res: Result<Ident, Error>)
        ensures
            lift(res, final(self)@) == grammar::expect_ident(old(self)@, old(self).eof_span()),
            final(self).eof_span() == old(self).eof_span(),
    {
        match self.bump()? {
            Token::Ident(i) => Ok(i),
            other => Err(Error::new(Some(other.span()), "expected identifier")),
        }
    }

    /// Advances by one token, which must be a string literal, and returns
    /// the string it stands for.
    pub fn expect_string_lit(&mut self) -> (res: Result<String, Error>)
        ensures
            grammar::lift_view(res, final(self)@) == grammar::expect_string_lit(
                old(self)@,
                old(self).eof_span(),
            ),
            final(self).eof_span() == old(self).eof_span(),
    {
        let token = self.bump()?;
        let value = match &token {
            Token::Literal(l) => string_literal(l.text.as_str()),
            _ => None,
        };
        match value {
            Some(v) => Ok(v),
            None => Err(Error::new(Some(token.span()), "expected string literal")),
        }
    }

    /// Advances by one token, which must be a group delimited by `delim`.
    pub fn expect_group(&mut self, delim: Delimiter) -> (res: Result<Group, Error>)
        ensures
            lift(res, final(self)@) == grammar::expect_group(
                old(self)@,
                old(self).eof_span(),
                delim,
            ),
            final(self).eof_span() == old(self).eof_span(),
    {
        match self.bump()? {
            Token::Group(g) if g.delimiter == delim => Ok(g),
            other => {
                let mut msg = String::from_str("expected ");
                msg.append(delimiter_name(delim));
                msg.append(" delimited group");
                Err(Error { span: Some(other.span()), msg })
            },
        }
    }

    /// Requires that no token is left.
    pub fn expect_eof(&self) -> (res: Result<(), Error>)
        ensures
            grammar::view_result(res) == grammar::expect_eof(self@),
    {
        let n = self.rev.len();
        if n > 0 {
            return Err(Error::new(Some(self.rev[n - 1].span()), "unexpected extra token"));
        }
        Ok(())
    }

    /// Takes all remaining tokens out, in order.
    pub fn collect_rest(self) -> (rest: Vec<Token>)
        ensures
            rest@ == self@,
    {
        reversed(self.rev)
    }
}

/// The name of a delimiter as it appears in messages.
pub fn delimiter_name(d: Delimiter) -> (name: &'static str)
    ensures
        name@ == grammar::delimiter_name(d),
{
    match d {
        Delimiter::Parenthesis => "Parenthesis",
        Delimiter::Brace => "Brace",
        Delimiter::Bracket => "Bracket",
        Delimiter::Invisible => "None",
    }
}

} // verus!
