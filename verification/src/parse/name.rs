//! The name parser.

use vstd::prelude::*;
use vstd::string::{StrSliceExecFns, StringExecFns};
use crate::ast::Name;
use crate::error::{push_quoted, Error};
use crate::grammar;
use crate::grammar::lift_view;
use crate::literal::string_literal;
use crate::name::is_name;
use crate::parse::buf::ParseBuf;
use crate::token::Token;

verus! {

/// Whether a literal with source text `text` counts as a word of a name.
pub fn is_word_literal(text: &str) -> (b: bool)
    ensures
        b == grammar::word_literal(text@),
{
    if text.is_empty() {
        false
    } else {
        let c = text.get_char(0);
        '0' <= c && c <= '9'
    }
}

impl Name {
    /// Reads one name from the front of `buf`.
    ///
    /// A tokenizer splits a name such as `foo:bar-baz` into several tokens
    /// and does not tell whether they stood together in the source. The
    /// tokens are put together again by the rule of
    /// [`grammar::name_tokens`]. A single string literal is taken as the
    /// whole name instead.
    pub fn parse(buf: &mut ParseBuf) -> (res: Result<Name, Error>)
        ensures
            lift_view(res, final(buf)@) == grammar::parse_name(old(buf)@, old(buf).eof_span()),
            final(buf).eof_span() == old(buf).eof_span(),
            res matches Ok(n) ==> n.well_formed(),
    {
        let first = buf.curr()?;
        let start = first.span();
        let literal = match first {
            Token::Literal(l) => string_literal(l.text.as_str()),
            _ => None,
        };
        if let Some(value) = literal {
            let _ = buf.bump();
            if !is_name(value.as_str()) {
                return Err(
                    Error::new(
                        Some(start),
                        "string contains characters that are not allowed in XML names",
                    ),
                );
            }
            return Ok(Name(value));
        }
        let mut out = String::new();
        let mut may_word = true;
        loop
            invariant
                grammar::name_tokens(buf@, out@, may_word) == grammar::name_tokens(
                    old(buf)@,
                    Seq::empty(),
                    true,
                ),
                buf.eof_span() == old(buf).eof_span(),
            ensures
                grammar::name_tokens(old(buf)@, Seq::empty(), true) == (out@, buf@),
                buf.eof_span() == old(buf).eof_span(),
            decreases buf@.len(),
        {
            match buf.curr() {
                Ok(Token::Ident(i)) => {
                    if !may_word {
                        break ;
                    }
                    may_word = false;
                    out.append(i.text.as_str());
                    let _ = buf.bump();
                },
                Ok(Token::Literal(l)) => {
                    if !(may_word && is_word_literal(l.text.as_str())) {
                        break ;
                    }
                    may_word = false;
                    out.append(l.text.as_str());
                    let _ = buf.bump();
                },
                Ok(Token::Punct(p)) => {
                    let c = p.ch;
                    if !(c == ':' || c == '-' || c == '.') {
                        break ;
                    }
                    may_word = true;
                    out.push(c);
                    let _ = buf.bump();
                },
                _ => {
                    break ;
                },
            }
        }
        if out.as_str().is_empty() {
            match buf.curr() {
                Ok(t) => Err(Error::new(Some(t.span()), "expected name")),
                Err(e) => Err(e),
            }
        } else if !is_name(out.as_str()) {
            let mut msg = String::from_str("name ");
            push_quoted(&mut msg, out.as_str());
            msg.append(" is not a valid XML name");
            Err(Error { span: Some(start), msg })
        } else {
            Ok(Name(out))
        }
    }
}

} // verus!
