//! The parsers for elements, their attributes and their children.

use vstd::prelude::*;
use vstd::string::StringExecFns;
use crate::ast::{
    attrs_view,
    children_view,
    Attr,
    AttrValue,
    AttrView,
    Child,
    ChildView,
    Element,
    Name,
};
use crate::error::{push_quoted, Error};
use crate::grammar;
use crate::grammar::{done, lift_view, rethrow, view_result, Parsed};
use crate::literal::string_literal;
use crate::parse::buf::ParseBuf;
use crate::token::{Delimiter, Group, Token};

verus! {

impl AttrValue {
    /// Reads one attribute value: a string literal or a brace group.
    pub fn parse(buf: &mut ParseBuf) -> (res: Result<AttrValue, Error>)
        ensures
            lift_view(res, final(buf)@) == grammar::attr_value(old(buf)@, old(buf).eof_span()),
            final(buf).eof_span() == old(buf).eof_span(),
    {
        match buf.bump()? {
            Token::Literal(l) => match string_literal(l.text.as_str()) {
                Some(v) => Ok(AttrValue::Literal(v)),
                None => Err(Error::new(Some(l.span), "expected string literal")),
            },
            Token::Group(g) if g.delimiter == Delimiter::Brace => Ok(AttrValue::Expr(g.stream)),
            other => Err(
                Error::new(
                    Some(other.span()),
                    "expected attribute value: string literal or {...}",
                ),
            ),
        }
    }
}

/// Reads the inside of a fill attribute `{..expr}`.
fn parse_fill(group: Group) -> (res: Result<Attr, Error>)
    ensures
        view_result(res) == grammar::fill(group),
{
    let mut inner = ParseBuf::from_group(group);
    let _ = inner.expect_punct('.')?;
    let _ = inner.expect_punct('.')?;
    Ok(Attr::Fill(inner.collect_rest()))
}

/// What [`parse_attrs`] returned, as an outcome of the grammar.
pub open spec fn lift_attrs(res: Result<(Vec<Attr>, bool), Error>, rest: Seq<Token>) -> Parsed<
    (Seq<AttrView>, bool),
> {
    match res {
        Ok((list, empty)) => done((attrs_view(list@), empty), rest),
        Err(e) => rethrow(e@, rest),
    }
}

/// Reads the attribute list of a start tag up to and including `>` or `/>`.
/// Returns the attributes and whether the tag was self-closing.
pub fn parse_attrs(buf: &mut ParseBuf) -> (res: Result<(Vec<Attr>, bool), Error>)
    ensures
        lift_attrs(res, final(buf)@) == grammar::attrs(
            old(buf)@,
            old(buf).eof_span(),
            Seq::empty(),
        ),
        final(buf).eof_span() == old(buf).eof_span(),
{
    let mut attrs: Vec<Attr> = Vec::new();
    let ghost eof = buf.eof_span();
    assert(attrs_view(attrs@) =~= Seq::empty());
    loop
        invariant
            buf.eof_span() == eof,
            eof == old(buf).eof_span(),
            grammar::attrs(buf@, eof, attrs_view(attrs@)) == grammar::attrs(
                old(buf)@,
                eof,
                Seq::empty(),
            ),
        decreases buf@.len(),
    {
        let ghost before = buf@;
        let ghost acc = attrs_view(attrs@);
        match buf.curr()? {
            Token::Punct(p) if p.ch == '>' => {
                let _ = buf.bump();
                return Ok((attrs, false));
            },
            Token::Punct(p) if p.ch == '/' => {
                let _ = buf.bump();
                let _ = buf.expect_punct('>')?;
                return Ok((attrs, true));
            },
            Token::Group(g) if g.delimiter == Delimiter::Brace => {
                let group = buf.expect_group(Delimiter::Brace)?;
                let fill = parse_fill(group)?;
                attrs.push(fill);
                assert(attrs_view(attrs@) =~= acc.push(fill@));
            },
            _ => {
                let name = Name::parse(buf)?;
                let _ = buf.expect_punct('=')?;
                let value = AttrValue::parse(buf)?;
                let attr = Attr::Single(name, value);
                attrs.push(attr);
                assert(attrs_view(attrs@) =~= acc.push(attr@));
                proof {
                    grammar::lemma_single_attr(before, eof);
                }
            },
        }
    }
}

/// Reads the inside of a continuation `{|arg| body}`.
fn parse_closure(group: Group) -> (res: Result<Child, Error>)
    ensures
        view_result(res) == grammar::closure(group),
{
    let mut inner = ParseBuf::from_group(group);
    let _ = inner.expect_punct('|')?;
    let arg = inner.expect_ident()?;
    let _ = inner.expect_punct('|')?;
    let body = inner.collect_rest();
    Ok(Child::Closure { arg, body })
}

impl Child {
    /// Reads one child of an element.
    pub fn parse(buf: &mut ParseBuf) -> (res: Result<Child, Error>)
        ensures
            lift_view(res, final(buf)@) == grammar::child(old(buf)@, old(buf).eof_span()),
            final(buf).eof_span() == old(buf).eof_span(),
        decreases old(buf)@.len(), 0nat,
    {
        let token = buf.bump()?;
        if token.is_punct('<') {
            let element = Element::parse(buf)?;
            return Ok(Child::Element(element));
        }
        match token {
            Token::Literal(l) => match string_literal(l.text.as_str()) {
                Some(v) => Ok(Child::Text(v)),
                None => Err(Error::new(Some(l.span), "expected string literal")),
            },
            Token::Group(g) if g.delimiter == Delimiter::Brace => {
                if g.stream.len() > 0 && g.stream[0].is_punct('|') {
                    parse_closure(g)
                } else {
                    Ok(Child::TextExpr(g.stream))
                }
            },
            other => Err(
                Error::new(
                    Some(other.span()),
                    "expected element child: string literal, {...} or '<'",
                ),
            ),
        }
    }
}

/// What [`parse_children`] returned, as an outcome of the grammar.
pub open spec fn lift_children(res: Result<Vec<Child>, Error>, rest: Seq<Token>) -> Parsed<
    Seq<ChildView>,
> {
    match res {
        Ok(list) => done(children_view(list@), rest),
        Err(e) => rethrow(e@, rest),
    }
}

/// Reads the children of an element up to its end tag, which is left in
/// the buffer.
pub fn parse_children(buf: &mut ParseBuf) -> (res: Result<Vec<Child>, Error>)
    ensures
        lift_children(res, final(buf)@) == grammar::children(
            old(buf)@,
            old(buf).eof_span(),
            Seq::empty(),
        ),
        final(buf).eof_span() == old(buf).eof_span(),
    decreases old(buf)@.len(), 1nat,
{
    let mut children: Vec<Child> = Vec::new();
    let ghost eof = buf.eof_span();
    assert(children_view(children@) =~= Seq::empty());
    loop
        invariant
            buf.eof_span() == eof,
            eof == old(buf).eof_span(),
            buf@.len() <= old(buf)@.len(),
            grammar::children(buf@, eof, children_view(children@)) == grammar::children(
                old(buf)@,
                eof,
                Seq::empty(),
            ),
        decreases buf@.len(),
    {
        let ghost before = buf@;
        let ghost acc = children_view(children@);
        if buf.curr()?.is_punct('<') {
            if buf.next()?.is_punct('/') {
                return Ok(children);
            }
        }
        let child = Child::parse(buf)?;
        proof {
            grammar::lemma_child(before, eof);
        }
        children.push(child);
        assert(children_view(children@) =~= acc.push(child@));
    }
}

/// Reads the end tag of the element `name`: `</>` or `</name>`.
pub fn parse_end_tag(buf: &mut ParseBuf, name: &Name) -> (res: Result<(), Error>)
    ensures
        grammar::lift(res, final(buf)@) == grammar::end_tag(
            old(buf)@,
            old(buf).eof_span(),
            name@,
        ),
        final(buf).eof_span() == old(buf).eof_span(),
{
    let lt = buf.expect_punct('<')?;
    let _ = buf.expect_punct('/')?;
    if buf.curr()?.is_punct('>') {
        let _ = buf.bump();
        return Ok(());
    }
    let end = Name::parse(buf)?;
    if end.0 != name.0 {
        let mut msg = String::from_str("end tag ");
        push_quoted(&mut msg, end.as_str());
        msg.append(" does not match start tag ");
        push_quoted(&mut msg, name.as_str());
        return Err(Error { span: Some(lt.span), msg });
    }
    let _ = buf.expect_punct('>')?;
    Ok(())
}

impl Element {
    /// Reads one element whose opening `<` was consumed already.
    pub fn parse(buf: &mut ParseBuf) -> (res: Result<Element, Error>)
        ensures
            lift_view(res, final(buf)@) == grammar::element(old(buf)@, old(buf).eof_span()),
            final(buf).eof_span() == old(buf).eof_span(),
            res matches Ok(e) ==> e@.well_formed(),
        decreases old(buf)@.len(), 2nat,
    {
        let ghost eof = buf.eof_span();
        let name = Name::parse(buf)?;
        let ghost after_name = buf@;
        let (attrs, empty) = parse_attrs(buf)?;
        proof {
            grammar::lemma_parse_name(old(buf)@, eof);
            grammar::lemma_attrs(after_name, eof, Seq::empty());
            grammar::lemma_element(old(buf)@, eof);
        }
        if empty {
            let e = Element { name, attrs, children: Vec::new(), empty: true };
            assert(e@.children =~= Seq::empty());
            return Ok(e);
        }
        let children = parse_children(buf)?;
        parse_end_tag(buf, &name)?;
        let e = Element { name, attrs, children, empty: false };
        assert(e@.children =~= children_view(e.children@));
        Ok(e)
    }
}

} // verus!
