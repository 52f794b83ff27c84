//! The parser for a whole markup expression.

use vstd::prelude::*;
use vstd::string::StringExecFns;
use crate::ast::{tokens_view, Element, Input, Prolog};
use crate::error::{push_quoted, Error};
use crate::grammar;
use crate::grammar::{lift_view, view_result};
use crate::parse::buf::ParseBuf;
use crate::text::same;
use crate::token::{Delimiter, Group, Token};

verus! {

/// What [`parse_directive`] returned, over views.
pub open spec fn tokens_result(res: Result<Vec<Token>, Error>) -> Result<
    Seq<Token>,
    crate::error::ErrorView,
> {
    match res {
        Ok(t) => Ok(t@),
        Err(e) => Err(e@),
    }
}

/// Reads the inside of a directive `#[key = expr]` and returns the
/// expression of the format.
pub fn parse_directive(group: Group) -> (res: Result<Vec<Token>, Error>)
    ensures
        tokens_result(res) == grammar::directive(group),
{
    let mut inner = ParseBuf::from_group(group);
    let key = inner.expect_ident()?;
    if same(key.text.as_str(), "format") {
        let _ = inner.expect_punct('=')?;
        Ok(inner.collect_rest())
    } else {
        let mut msg = String::from_str("unsupported global attribute ");
        push_quoted(&mut msg, key.text.as_str());
        Err(Error { span: Some(key.span), msg })
    }
}

/// Takes the tokens before the first comma out of the buffer.
pub fn take_until_comma(buf: &mut ParseBuf) -> (tokens: Vec<Token>)
    ensures
        tokens@ == old(buf)@.take(grammar::comma_index(old(buf)@) as int),
        final(buf)@ == old(buf)@.skip(grammar::comma_index(old(buf)@) as int),
        grammar::comma_index(old(buf)@) <= old(buf)@.len(),
        final(buf).eof_span() == old(buf).eof_span(),
{
    let mut tokens: Vec<Token> = Vec::new();
    loop
        invariant
            buf.eof_span() == old(buf).eof_span(),
            tokens@.len() <= old(buf)@.len(),
            tokens@ == old(buf)@.take(tokens@.len() as int),
            buf@ == old(buf)@.skip(tokens@.len() as int),
            grammar::comma_index(old(buf)@) == tokens@.len() + grammar::comma_index(buf@),
        ensures
            tokens@ == old(buf)@.take(grammar::comma_index(old(buf)@) as int),
            buf@ == old(buf)@.skip(grammar::comma_index(old(buf)@) as int),
            grammar::comma_index(old(buf)@) <= old(buf)@.len(),
            buf.eof_span() == old(buf).eof_span(),
        decreases buf@.len(),
    {
        let more = match buf.curr() {
            Ok(t) => !t.is_punct(','),
            Err(_) => false,
        };
        if !more {
            break ;
        }
        match buf.bump() {
            Ok(t) => {
                tokens.push(t);
                assert(tokens@ =~= old(buf)@.take(tokens@.len() as int));
                assert(buf@ =~= old(buf)@.skip(tokens@.len() as int));
            },
            Err(_) => {},
        }
    }
    tokens
}

impl Input {
    /// Reads one markup expression from the front of `buf`.
    pub fn parse(buf: &mut ParseBuf) -> (res: Result<Input, Error>)
        ensures
            lift_view(res, final(buf)@) == grammar::input(
                old(buf)@,
                old(buf).eof_span(),
                None,
                None,
            ),
            final(buf).eof_span() == old(buf).eof_span(),
            res matches Ok(i) ==> i@.root.well_formed(),
    {
        let mut buffer: Option<Vec<Token>> = None;
        let mut format: Option<Vec<Token>> = None;
        let ghost eof = buf.eof_span();
        loop
            invariant
                buf.eof_span() == eof,
                eof == old(buf).eof_span(),
                grammar::input(buf@, eof, tokens_view(buffer), tokens_view(format))
                    == grammar::input(old(buf)@, eof, None, None),
            ensures
                buf.eof_span() == eof,
                eof == old(buf).eof_span(),
                grammar::input_body(buf@, eof, tokens_view(buffer), tokens_view(format))
                    == grammar::input(old(buf)@, eof, None, None),
            decreases buf@.len(),
        {
            let ghost before = buf@;
            let ghost target = grammar::input(before, eof, tokens_view(buffer), tokens_view(format));
            let first = buf.curr()?;
            if first.is_punct('#') {
                let _ = buf.bump();
                let group = buf.expect_group(Delimiter::Bracket)?;
                let expr = parse_directive(group)?;
                format = Some(expr);
                assert(target == grammar::input(buf@, eof, tokens_view(buffer), Some(expr@)));
            } else if first.is_punct('<') {
                assert(target == grammar::input_body(
                    before,
                    eof,
                    tokens_view(buffer),
                    tokens_view(format),
                ));
                break ;
            } else {
                let tokens = take_until_comma(buf);
                let _ = buf.bump()?;
                assert(buf@ =~= before.skip(grammar::comma_index(before) as int + 1));
                buffer = Some(tokens);
                assert(target == grammar::input(buf@, eof, Some(tokens@), tokens_view(format)));
            }
        }
        let prolog = if buf.next()?.is_punct('?') {
            Some(Prolog::parse(buf)?)
        } else {
            None
        };
        let _ = buf.expect_punct('<')?;
        let root = Element::parse(buf)?;
        Ok(Input { buffer, format, prolog, root })
    }

    /// Reads a whole token sequence as one markup expression.
    pub fn parse_input(tokens: Vec<Token>) -> (res: Result<Input, Error>)
        ensures
            view_result(res) == grammar::parse_input(tokens@),
            res matches Ok(i) ==> i@.root.well_formed(),
    {
        let mut buf = ParseBuf::from_stream(tokens);
        let out = Input::parse(&mut buf)?;
        buf.expect_eof()?;
        Ok(out)
    }
}

} // verus!
