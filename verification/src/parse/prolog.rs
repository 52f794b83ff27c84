//! The prolog parser.

use vstd::prelude::*;
use vstd::string::StringExecFns;
use crate::ast::Prolog;
use crate::error::{push_quoted, Error};
use crate::grammar;
use crate::grammar::{done, lift_view, rethrow, Parsed};
use crate::parse::buf::ParseBuf;
use crate::text::same;
use crate::token::Token;

verus! {

/// What [`parse_prolog_attr`] returned, as an outcome of the grammar.
pub open spec fn lift_option(res: Result<Option<String>, Error>, rest: Seq<Token>) -> Parsed<
    Option<Seq<char>>,
> {
    match res {
        Ok(Some(v)) => done(Some(v@), rest),
        Ok(None) => done(None, rest),
        Err(e) => rethrow(e@, rest),
    }
}

/// Reads the prolog attribute `name="value"`, unless the prolog ends here.
pub fn parse_prolog_attr(buf: &mut ParseBuf, name: &str) -> (res: Result<Option<String>, Error>)
    ensures
        lift_option(res, final(buf)@) == grammar::prolog_attr(
            old(buf)@,
            old(buf).eof_span(),
            name@,
        ),
        final(buf).eof_span() == old(buf).eof_span(),
{
    if buf.curr()?.is_punct('?') {
        return Ok(None);
    }
    let ident = buf.expect_ident()?;
    if !same(ident.text.as_str(), name) {
        let mut msg = String::from_str("expected ");
        push_quoted(&mut msg, name);
        msg.append(" (prolog attributes have a fixed order)");
        return Err(Error { span: Some(ident.span), msg });
    }
    let _ = buf.expect_punct('=')?;
    let value = buf.expect_string_lit()?;
    Ok(Some(value))
}

impl Prolog {
    /// Reads the prolog. The buffer stands at its `<`, which `?` follows.
    pub fn parse(buf: &mut ParseBuf) -> (res: Result<Prolog, Error>)
        ensures
            lift_view(res, final(buf)@) == grammar::prolog(old(buf)@, old(buf).eof_span()),
            final(buf).eof_span() == old(buf).eof_span(),
    {
        let _ = buf.bump();
        let _ = buf.bump();
        let ident = buf.expect_ident()?;
        if !same(ident.text.as_str(), "xml") {
            return Err(Error::new(Some(ident.span), "expected 'xml'"));
        }
        let next_span = buf.curr()?.span();
        let version = match parse_prolog_attr(buf, "version")? {
            Some(v) => v,
            None => {
                return Err(Error::new(Some(next_span), "expected 'version'"));
            },
        };
        let encoding = parse_prolog_attr(buf, "encoding")?;
        let standalone = if encoding.is_some() {
            parse_prolog_attr(buf, "standalone")?
        } else {
            None
        };
        let _ = buf.expect_punct('?')?;
        let _ = buf.expect_punct('>')?;
        match encoding {
            Some(enc) if !same(enc.as_str(), "UTF-8") => {
                return Err(Error::new(None, "only encoding 'UTF-8' is allowed"));
            },
            _ => {},
        }
        Ok(Prolog { version, standalone })
    }
}

} // verus!
