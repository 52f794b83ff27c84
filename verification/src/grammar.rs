//! The markup grammar as mathematical functions over token sequences.
//!
//! Each function takes the tokens that remain and the position that an
//! end-of-input error is reported at, and gives the outcome together with
//! the tokens that remain afterwards. The executable parsers are proved to
//! compute exactly these functions.

use vstd::prelude::*;
use crate::ast::{AttrValueView, AttrView, ChildView, ElementView, InputView, PrologView};
use crate::error::{quoted, quoted_char, Error, ErrorView};
use crate::literal::string_value;
use crate::name::name;
use crate::token::{Delimiter, Group, Ident, Punct, Span, Token};

verus! {

/// The outcome of one parsing step.
pub struct Parsed<T> {
    /// The value recognised, or the error.
    pub result: Result<T, ErrorView>,
    /// The tokens that were not consumed.
    pub rest: Seq<Token>,
}

/// A successful step.
pub open spec fn done<T>(value: T, rest: Seq<Token>) -> Parsed<T> {
    Parsed { result: Ok(value), rest }
}

/// A failed step.
pub open spec fn failed<T>(span: Option<Span>, msg: Seq<char>, rest: Seq<Token>) -> Parsed<T> {
    Parsed { result: Err(ErrorView { span, msg }), rest }
}

/// A failed step that passes an earlier error on.
pub open spec fn rethrow<T>(e: ErrorView, rest: Seq<Token>) -> Parsed<T> {
    Parsed { result: Err(e), rest }
}

/// What an executable step returned, as an outcome.
pub open spec fn lift<T>(res: Result<T, Error>, rest: Seq<Token>) -> Parsed<T> {
    match res {
        Ok(v) => done(v, rest),
        Err(e) => rethrow(e@, rest),
    }
}

/// What an executable step returned, as an outcome over the value's view.
pub open spec fn lift_view<T: View>(res: Result<T, Error>, rest: Seq<Token>) -> Parsed<T::V> {
    match res {
        Ok(v) => done(v@, rest),
        Err(e) => rethrow(e@, rest),
    }
}

/// What an executable function returned, over the views of value and error.
pub open spec fn view_result<T: View>(res: Result<T, Error>) -> Result<T::V, ErrorView> {
    match res {
        Ok(v) => Ok(v@),
        Err(e) => Err(e@),
    }
}

/// The error for running out of tokens.
pub open spec fn eof_error(eof: Option<Span>) -> ErrorView {
    ErrorView { span: eof, msg: "unexpected end of input"@ }
}

/// Takes the first token.
pub open spec fn bump(s: Seq<Token>, eof: Option<Span>) -> Parsed<Token> {
    if s.len() == 0 {
        rethrow(eof_error(eof), s)
    } else {
        done(s[0], s.drop_first())
    }
}

/// The message for a missing punctuation character.
pub open spec fn expected_punct_msg(c: char) -> Seq<char> {
    "expected "@ + quoted_char(c)
}

/// Takes the first token, which must be the punctuation character `c`.
pub open spec fn expect_punct(s: Seq<Token>, eof: Option<Span>, c: char) -> Parsed<Punct> {
    if s.len() == 0 {
        rethrow(eof_error(eof), s)
    } else {
        match s[0] {
            Token::Punct(p) if p.ch == c => done(p, s.drop_first()),
            other => failed(Some(other.span()), expected_punct_msg(c), s.drop_first()),
        }
    }
}

/// Takes the first token, which must be an identifier.
pub open spec fn expect_ident(s: Seq<Token>, eof: Option<Span>) -> Parsed<Ident> {
    if s.len() == 0 {
        rethrow(eof_error(eof), s)
    } else {
        match s[0] {
            Token::Ident(i) => done(i, s.drop_first()),
            other => failed(Some(other.span()), "expected identifier"@, s.drop_first()),
        }
    }
}

/// The decoded text of `t` where it is a string literal.
pub open spec fn string_token_value(t: Token) -> Option<Seq<char>> {
    match t {
        Token::Literal(l) => string_value(l.text@),
        _ => None,
    }
}

/// Takes the first token, which must be a string literal, and decodes it.
pub open spec fn expect_string_lit(s: Seq<Token>, eof: Option<Span>) -> Parsed<Seq<char>> {
    if s.len() == 0 {
        rethrow(eof_error(eof), s)
    } else {
        match string_token_value(s[0]) {
            Some(v) => done(v, s.drop_first()),
            None => failed(Some(s[0].span()), "expected string literal"@, s.drop_first()),
        }
    }
}

/// The name of a delimiter as it appears in messages.
pub open spec fn delimiter_name(d: Delimiter) -> Seq<char> {
    match d {
        Delimiter::Parenthesis => "Parenthesis"@,
        Delimiter::Brace => "Brace"@,
        Delimiter::Bracket => "Bracket"@,
        Delimiter::Invisible => "None"@,
    }
}

/// The message for a missing group.
pub open spec fn expected_group_msg(d: Delimiter) -> Seq<char> {
    "expected "@ + delimiter_name(d) + " delimited group"@
}

/// Takes the first token, which must be a group delimited by `d`.
pub open spec fn expect_group(s: Seq<Token>, eof: Option<Span>, d: Delimiter) -> Parsed<Group> {
    if s.len() == 0 {
        rethrow(eof_error(eof), s)
    } else {
        match s[0] {
            Token::Group(g) if g.delimiter == d => done(g, s.drop_first()),
            other => failed(Some(other.span()), expected_group_msg(d), s.drop_first()),
        }
    }
}

/// Requires that no token is left.
pub open spec fn expect_eof(s: Seq<Token>) -> Result<(), ErrorView> {
    if s.len() == 0 {
        Ok(())
    } else {
        Err(ErrorView { span: Some(s[0].span()), msg: "unexpected extra token"@ })
    }
}

/// Whether `c` is a decimal digit.
pub open spec fn digit(c: char) -> bool {
    '0' <= c <= '9'
}

/// Whether `c` is a punctuation character that may stand inside a name.
pub open spec fn name_punct(c: char) -> bool {
    c == ':' || c == '-' || c == '.'
}

/// Whether a literal with source text `text` counts as a word of a name:
/// only one that begins with a decimal digit does.
pub open spec fn word_literal(text: Seq<char>) -> bool {
    text.len() > 0 && digit(text[0])
}

/// Gathers the tokens of a name that a tokenizer split up.
///
/// A word (an identifier or a number) is taken only at the start or after
/// punctuation: two words in a row were separated in the source. Punctuation
/// out of `: - .` is always taken. `out` is the text gathered so far and
/// `may_word` whether a word may follow. Gives the text and the tokens left.
pub open spec fn name_tokens(s: Seq<Token>, out: Seq<char>, may_word: bool) -> (
    Seq<char>,
    Seq<Token>,
)
    decreases s.len(),
{
    if s.len() == 0 {
        (out, s)
    } else {
        match s[0] {
            Token::Ident(i) => if may_word {
                name_tokens(s.drop_first(), out + i.text@, false)
            } else {
                (out, s)
            },
            Token::Literal(l) => if may_word && word_literal(l.text@) {
                name_tokens(s.drop_first(), out + l.text@, false)
            } else {
                (out, s)
            },
            Token::Punct(p) => if name_punct(p.ch) {
                name_tokens(s.drop_first(), out.push(p.ch), true)
            } else {
                (out, s)
            },
            Token::Group(_) => (out, s),
        }
    }
}

/// The message for a string literal that is no name.
pub open spec fn invalid_name_string_msg() -> Seq<char> {
    "string contains characters that are not allowed in XML names"@
}

/// The message for gathered text that is no name.
pub open spec fn invalid_name_msg(text: Seq<char>) -> Seq<char> {
    "name "@ + quoted(text) + " is not a valid XML name"@
}

/// A name: either one string literal holding it whole, or the tokens that
/// [`name_tokens`] gathers. Either way the text must be an XML name.
pub open spec fn parse_name(s: Seq<Token>, eof: Option<Span>) -> Parsed<Seq<char>> {
    if s.len() == 0 {
        rethrow(eof_error(eof), s)
    } else {
        match string_token_value(s[0]) {
            Some(v) => if name(v) {
                done(v, s.drop_first())
            } else {
                failed(Some(s[0].span()), invalid_name_string_msg(), s.drop_first())
            },
            None => {
                let (out, rest) = name_tokens(s, Seq::empty(), true);
                if out.len() == 0 {
                    if rest.len() == 0 {
                        rethrow(eof_error(eof), rest)
                    } else {
                        failed(Some(rest[0].span()), "expected name"@, rest)
                    }
                } else if !name(out) {
                    failed(Some(s[0].span()), invalid_name_msg(out), rest)
                } else {
                    done(out, rest)
                }
            },
        }
    }
}

/// The message for a token that is no attribute value.
pub open spec fn expected_attr_value_msg() -> Seq<char> {
    "expected attribute value: string literal or {...}"@
}

/// An attribute value: a string literal or a brace group.
pub open spec fn attr_value(s: Seq<Token>, eof: Option<Span>) -> Parsed<AttrValueView> {
    if s.len() == 0 {
        rethrow(eof_error(eof), s)
    } else {
        match s[0] {
            Token::Literal(l) => match string_value(l.text@) {
                Some(v) => done(AttrValueView::Literal(v), s.drop_first()),
                None => failed(Some(l.span), "expected string literal"@, s.drop_first()),
            },
            Token::Group(g) if g.delimiter == Delimiter::Brace => done(
                AttrValueView::Expr(g.stream@),
                s.drop_first(),
            ),
            other => failed(Some(other.span()), expected_attr_value_msg(), s.drop_first()),
        }
    }
}

/// The inside of a fill attribute `{..expr}`: two dots, then the expression.
pub open spec fn fill(g: Group) -> Result<AttrView, ErrorView> {
    let eof = Some(g.span);
    let d1 = expect_punct(g.stream@, eof, '.');
    match d1.result {
        Err(e) => Err(e),
        Ok(_) => {
            let d2 = expect_punct(d1.rest, eof, '.');
            match d2.result {
                Err(e) => Err(e),
                Ok(_) => Ok(AttrView::Fill(d2.rest)),
            }
        },
    }
}

/// One `name=value` attribute.
pub open spec fn single_attr(s: Seq<Token>, eof: Option<Span>) -> Parsed<AttrView> {
    let n = parse_name(s, eof);
    match n.result {
        Err(e) => rethrow(e, n.rest),
        Ok(name) => {
            let eq = expect_punct(n.rest, eof, '=');
            match eq.result {
                Err(e) => rethrow(e, eq.rest),
                Ok(_) => {
                    let v = attr_value(eq.rest, eof);
                    match v.result {
                        Err(e) => rethrow(e, v.rest),
                        Ok(value) => done(AttrView::Single(name, value), v.rest),
                    }
                },
            }
        },
    }
}

/// The attribute list of a start tag up to and including its end, `>` or
/// `/>`. `acc` holds the attributes read so far. Gives all attributes and
/// whether the tag was self-closing.
pub open spec fn attrs(s: Seq<Token>, eof: Option<Span>, acc: Seq<AttrView>) -> Parsed<
    (Seq<AttrView>, bool),
>
    decreases s.len(),
{
    if s.len() == 0 {
        rethrow(eof_error(eof), s)
    } else {
        match s[0] {
            Token::Punct(p) if p.ch == '>' => done((acc, false), s.drop_first()),
            Token::Punct(p) if p.ch == '/' => {
                let close = expect_punct(s.drop_first(), eof, '>');
                match close.result {
                    Err(e) => rethrow(e, close.rest),
                    Ok(_) => done((acc, true), close.rest),
                }
            },
            Token::Group(g) if g.delimiter == Delimiter::Brace => match fill(g) {
                Err(e) => rethrow(e, s.drop_first()),
                Ok(a) => attrs(s.drop_first(), eof, acc.push(a)),
            },
            _ => {
                let a = single_attr(s, eof);
                match a.result {
                    Err(e) => rethrow(e, a.rest),
                    Ok(attr) => {
                        proof {
                            lemma_single_attr(s, eof);
                        }
                        attrs(a.rest, eof, acc.push(attr))
                    },
                }
            },
        }
    }
}

/// The inside of a continuation `{|arg| body}`.
pub open spec fn closure(g: Group) -> Result<ChildView, ErrorView> {
    let eof = Some(g.span);
    let open = expect_punct(g.stream@, eof, '|');
    match open.result {
        Err(e) => Err(e),
        Ok(_) => {
            let ident = expect_ident(open.rest, eof);
            match ident.result {
                Err(e) => Err(e),
                Ok(arg) => {
                    let close = expect_punct(ident.rest, eof, '|');
                    match close.result {
                        Err(e) => Err(e),
                        Ok(_) => Ok(ChildView::Closure { arg, body: close.rest }),
                    }
                },
            }
        },
    }
}

/// The message for a token that starts no child.
pub open spec fn expected_child_msg() -> Seq<char> {
    "expected element child: string literal, {...} or '<'"@
}

/// The message for an end tag that names another element.
pub open spec fn mismatch_msg(end: Seq<char>, start: Seq<char>) -> Seq<char> {
    "end tag "@ + quoted(end) + " does not match start tag "@ + quoted(start)
}

/// The end tag of the element `name`: `</>` or `</name>`.
pub open spec fn end_tag(s: Seq<Token>, eof: Option<Span>, name: Seq<char>) -> Parsed<()> {
    let lt = expect_punct(s, eof, '<');
    match lt.result {
        Err(e) => rethrow(e, lt.rest),
        Ok(lt_token) => {
            let slash = expect_punct(lt.rest, eof, '/');
            match slash.result {
                Err(e) => rethrow(e, slash.rest),
                Ok(_) => if slash.rest.len() == 0 {
                    rethrow(eof_error(eof), slash.rest)
                } else if slash.rest[0].is_punct('>') {
                    done((), slash.rest.drop_first())
                } else {
                    let n = parse_name(slash.rest, eof);
                    match n.result {
                        Err(e) => rethrow(e, n.rest),
                        Ok(end) => if end != name {
                            failed(Some(lt_token.span), mismatch_msg(end, name), n.rest)
                        } else {
                            let gt = expect_punct(n.rest, eof, '>');
                            match gt.result {
                                Err(e) => rethrow(e, gt.rest),
                                Ok(_) => done((), gt.rest),
                            }
                        },
                    }
                },
            }
        },
    }
}

/// One child of an element: literal text, an embedded expression, a
/// continuation or a nested element.
pub open spec fn child(s: Seq<Token>, eof: Option<Span>) -> Parsed<ChildView>
    decreases s.len(), 0nat,
{
    if s.len() == 0 {
        rethrow(eof_error(eof), s)
    } else {
        match s[0] {
            Token::Literal(l) => match string_value(l.text@) {
                Some(v) => done(ChildView::Text(v), s.drop_first()),
                None => failed(Some(l.span), "expected string literal"@, s.drop_first()),
            },
            Token::Group(g) if g.delimiter == Delimiter::Brace => if g.stream@.len() > 0
                && g.stream@[0].is_punct('|') {
                match closure(g) {
                    Ok(c) => done(c, s.drop_first()),
                    Err(e) => rethrow(e, s.drop_first()),
                }
            } else {
                done(ChildView::TextExpr(g.stream@), s.drop_first())
            },
            Token::Punct(p) if p.ch == '<' => {
                let e = element(s.drop_first(), eof);
                match e.result {
                    Ok(e_view) => done(ChildView::Element(e_view), e.rest),
                    Err(err) => rethrow(err, e.rest),
                }
            },
            other => failed(Some(other.span()), expected_child_msg(), s.drop_first()),
        }
    }
}

/// The children of an element up to, and not including, its end tag, which
/// begins where `<` is followed by `/`. `acc` holds the children read so far.
///
/// The test that a child took a token is what makes this definition end; by
/// [`lemma_child`] it never fails.
pub open spec fn children(s: Seq<Token>, eof: Option<Span>, acc: Seq<ChildView>) -> Parsed<
    Seq<ChildView>,
>
    decreases s.len(), 1nat,
{
    if s.len() == 0 {
        rethrow(eof_error(eof), s)
    } else if s[0].is_punct('<') && s.len() == 1 {
        rethrow(eof_error(eof), s)
    } else if s[0].is_punct('<') && s[1].is_punct('/') {
        done(acc, s)
    } else {
        let c = child(s, eof);
        match c.result {
            Err(e) => rethrow(e, c.rest),
            Ok(c_view) => if c.rest.len() < s.len() {
                children(c.rest, eof, acc.push(c_view))
            } else {
                rethrow(eof_error(eof), c.rest)
            },
        }
    }
}

/// An element whose opening `<` was consumed: name, attributes and, unless
/// it is self-closing, children and the end tag.
pub open spec fn element(s: Seq<Token>, eof: Option<Span>) -> Parsed<ElementView>
    decreases s.len(), 2nat,
{
    let n = parse_name(s, eof);
    match n.result {
        Err(e) => rethrow(e, n.rest),
        Ok(name) => {
            let a = attrs(n.rest, eof, Seq::empty());
            match a.result {
                Err(e) => rethrow(e, a.rest),
                Ok((attrs, empty)) => if empty {
                    done(ElementView { name, attrs, children: Seq::empty(), empty: true }, a.rest)
                } else {
                    proof {
                        lemma_parse_name(s, eof);
                        lemma_attrs(n.rest, eof, Seq::empty());
                    }
                    let c = children(a.rest, eof, Seq::empty());
                    match c.result {
                        Err(e) => rethrow(e, c.rest),
                        Ok(children) => {
                            let end = end_tag(c.rest, eof, name);
                            match end.result {
                                Err(e) => rethrow(e, end.rest),
                                Ok(_) => done(
                                    ElementView { name, attrs, children, empty: false },
                                    end.rest,
                                ),
                            }
                        },
                    }
                },
            }
        },
    }
}

/// The message for a prolog attribute out of place.
pub open spec fn prolog_attr_msg(name: Seq<char>) -> Seq<char> {
    "expected "@ + quoted(name) + " (prolog attributes have a fixed order)"@
}

/// The prolog attribute `name="value"`, unless the prolog ends here.
pub open spec fn prolog_attr(s: Seq<Token>, eof: Option<Span>, name: Seq<char>) -> Parsed<
    Option<Seq<char>>,
> {
    if s.len() == 0 {
        rethrow(eof_error(eof), s)
    } else if s[0].is_punct('?') {
        done(None, s)
    } else {
        let key = expect_ident(s, eof);
        match key.result {
            Err(e) => rethrow(e, key.rest),
            Ok(ident) => if ident.text@ != name {
                failed(Some(ident.span), prolog_attr_msg(name), key.rest)
            } else {
                let eq = expect_punct(key.rest, eof, '=');
                match eq.result {
                    Err(e) => rethrow(e, eq.rest),
                    Ok(_) => {
                        let v = expect_string_lit(eq.rest, eof);
                        match v.result {
                            Err(e) => rethrow(e, v.rest),
                            Ok(value) => done(Some(value), v.rest),
                        }
                    },
                }
            },
        }
    }
}

/// The end of the prolog, `?>`, after its attributes. An encoding other
/// than UTF-8 is refused here.
pub open spec fn prolog_end(
    s: Seq<Token>,
    eof: Option<Span>,
    version: Seq<char>,
    encoding: Option<Seq<char>>,
    standalone: Option<Seq<char>>,
) -> Parsed<PrologView> {
    let q = expect_punct(s, eof, '?');
    match q.result {
        Err(e) => rethrow(e, q.rest),
        Ok(_) => {
            let gt = expect_punct(q.rest, eof, '>');
            match gt.result {
                Err(e) => rethrow(e, gt.rest),
                Ok(_) => if encoding matches Some(enc) && enc != "UTF-8"@ {
                    failed(None, "only encoding 'UTF-8' is allowed"@, gt.rest)
                } else {
                    done(PrologView { version, standalone }, gt.rest)
                },
            }
        },
    }
}

/// The prolog `<?xml version=".." encoding=".." standalone=".." ?>`, the
/// attributes in this order, `standalone` only after `encoding`.
pub open spec fn prolog(s: Seq<Token>, eof: Option<Span>) -> Parsed<PrologView> {
    let after_open = bump(bump(s, eof).rest, eof).rest;
    let xml = expect_ident(after_open, eof);
    match xml.result {
        Err(e) => rethrow(e, xml.rest),
        Ok(ident) => if ident.text@ != "xml"@ {
            failed(Some(ident.span), "expected 'xml'"@, xml.rest)
        } else if xml.rest.len() == 0 {
            rethrow(eof_error(eof), xml.rest)
        } else {
            let v = prolog_attr(xml.rest, eof, "version"@);
            match v.result {
                Err(e) => rethrow(e, v.rest),
                Ok(None) => failed(Some(xml.rest[0].span()), "expected 'version'"@, v.rest),
                Ok(Some(version)) => {
                    let enc = prolog_attr(v.rest, eof, "encoding"@);
                    match enc.result {
                        Err(e) => rethrow(e, enc.rest),
                        Ok(None) => prolog_end(enc.rest, eof, version, None, None),
                        Ok(Some(encoding)) => {
                            let sa = prolog_attr(enc.rest, eof, "standalone"@);
                            match sa.result {
                                Err(e) => rethrow(e, sa.rest),
                                Ok(standalone) => prolog_end(
                                    sa.rest,
                                    eof,
                                    version,
                                    Some(encoding),
                                    standalone,
                                ),
                            }
                        },
                    }
                },
            }
        },
    }
}

/// The message for a directive with an unknown key.
pub open spec fn unsupported_attr_msg(key: Seq<char>) -> Seq<char> {
    "unsupported global attribute "@ + quoted(key)
}

/// The inside of a directive `#[key = expr]`. Only the key `format` is
/// known; the result is its expression.
pub open spec fn directive(g: Group) -> Result<Seq<Token>, ErrorView> {
    let eof = Some(g.span);
    let key = expect_ident(g.stream@, eof);
    match key.result {
        Err(e) => Err(e),
        Ok(k) => if k.text@ == "format"@ {
            let eq = expect_punct(key.rest, eof, '=');
            match eq.result {
                Err(e) => Err(e),
                Ok(_) => Ok(eq.rest),
            }
        } else {
            Err(ErrorView { span: Some(k.span), msg: unsupported_attr_msg(k.text@) })
        },
    }
}

/// How many tokens stand before the first comma of `s`.
pub open spec fn comma_index(s: Seq<Token>) -> nat
    decreases s.len(),
{
    if s.len() == 0 || s[0].is_punct(',') {
        0
    } else {
        1 + comma_index(s.drop_first())
    }
}

/// The markup proper, from its first `<`: an optional prolog and the root
/// element.
pub open spec fn input_body(
    s: Seq<Token>,
    eof: Option<Span>,
    buffer: Option<Seq<Token>>,
    format: Option<Seq<Token>>,
) -> Parsed<InputView> {
    if s.len() < 2 {
        rethrow(eof_error(eof), s)
    } else {
        let p = if s[1].is_punct('?') {
            let p = prolog(s, eof);
            match p.result {
                Ok(v) => done(Some(v), p.rest),
                Err(e) => rethrow(e, p.rest),
            }
        } else {
            done(None, s)
        };
        match p.result {
            Err(e) => rethrow(e, p.rest),
            Ok(prolog) => {
                let lt = expect_punct(p.rest, eof, '<');
                match lt.result {
                    Err(e) => rethrow(e, lt.rest),
                    Ok(_) => {
                        let root = element(lt.rest, eof);
                        match root.result {
                            Err(e) => rethrow(e, root.rest),
                            Ok(root_view) => done(
                                InputView { buffer, format, prolog, root: root_view },
                                root.rest,
                            ),
                        }
                    },
                }
            },
        }
    }
}

/// A markup expression: directives `#[..]` and the expression of a document
/// to append to, which ends at a comma, in any order and number, then the
/// markup proper. `buffer` and `format` hold what was read so far; a later
/// one replaces an earlier one.
pub open spec fn input(
    s: Seq<Token>,
    eof: Option<Span>,
    buffer: Option<Seq<Token>>,
    format: Option<Seq<Token>>,
) -> Parsed<InputView>
    decreases s.len(),
{
    if s.len() == 0 {
        rethrow(eof_error(eof), s)
    } else {
        match s[0] {
            Token::Punct(p) if p.ch == '#' => {
                let g = expect_group(s.drop_first(), eof, Delimiter::Bracket);
                match g.result {
                    Err(e) => rethrow(e, g.rest),
                    Ok(group) => match directive(group) {
                        Err(e) => rethrow(e, g.rest),
                        Ok(expr) => input(g.rest, eof, buffer, Some(expr)),
                    },
                }
            },
            Token::Punct(p) if p.ch == '<' => input_body(s, eof, buffer, format),
            _ => {
                let i = comma_index(s) as int;
                if i >= s.len() {
                    rethrow(eof_error(eof), s.skip(i))
                } else {
                    input(s.skip(i + 1), eof, Some(s.take(i)), format)
                }
            },
        }
    }
}

/// A whole token sequence as one markup expression, nothing left over.
pub open spec fn parse_input(s: Seq<Token>) -> Result<InputView, ErrorView> {
    let p = input(s, None, None, None);
    match p.result {
        Err(e) => Err(e),
        Ok(i) => match expect_eof(p.rest) {
            Err(e) => Err(e),
            Ok(_) => Ok(i),
        },
    }
}

/// Whether `t` is a word of a name: an identifier, or a literal that begins
/// with a digit.
pub open spec fn is_word(t: Token) -> bool {
    match t {
        Token::Ident(_) => true,
        Token::Literal(l) => word_literal(l.text@),
        _ => false,
    }
}

/// Whether `t` is punctuation that may stand inside a name.
pub open spec fn is_name_punct(t: Token) -> bool {
    t matches Token::Punct(p) && name_punct(p.ch)
}

/// The text that `t` adds to a name.
pub open spec fn piece(t: Token) -> Seq<char> {
    match t {
        Token::Ident(i) => i.text@,
        Token::Literal(l) => l.text@,
        Token::Punct(p) => seq![p.ch],
        Token::Group(_) => Seq::empty(),
    }
}

/// The texts of the tokens of `s`, one after the other.
pub open spec fn pieces(s: Seq<Token>) -> Seq<char>
    decreases s.len(),
{
    if s.len() == 0 {
        Seq::empty()
    } else {
        piece(s[0]) + pieces(s.drop_first())
    }
}

/// Whether the first `n` tokens of `s` can stand together in one name: each
/// is a word or name punctuation, and no word follows a word. Where
/// `may_word` is false, the first token is no word either.
pub open spec fn joined(s: Seq<Token>, n: int, may_word: bool) -> bool {
    &&& 0 <= n <= s.len()
    &&& forall|i: int| 0 <= i < n ==> is_word(#[trigger] s[i]) || is_name_punct(s[i])
    &&& forall|i: int| 0 < i < n ==> !(is_word(s[i - 1]) && is_word(#[trigger] s[i]))
    &&& n > 0 && is_word(s[0]) ==> may_word
}

/// What [`name_tokens`] takes is the longest run of tokens that can stand
/// together in one name, and what it gives is their text.
pub proof fn lemma_name_tokens_longest(s: Seq<Token>, out: Seq<char>, may_word: bool)
    ensures
        ({
            let (text, rest) = name_tokens(s, out, may_word);
            let n = s.len() - rest.len();
            &&& rest == s.skip(n)
            &&& text == out + pieces(s.take(n))
            &&& joined(s, n, may_word)
            &&& !joined(s, n + 1, may_word)
        }),
    decreases s.len(),
{
    let (text, rest) = name_tokens(s, out, may_word);
    if s.len() == 0 {
        assert(s.skip(0) =~= s);
        assert(pieces(s.take(0)) =~= Seq::empty());
        assert(out + pieces(s.take(0)) =~= out);
    } else {
        let t = s[0];
        let taken = (is_word(t) && may_word) || is_name_punct(t);
        if !taken {
            assert(rest == s);
            assert(s.skip(0) =~= s);
            assert(s.take(0) =~= Seq::empty());
            assert(out + pieces(s.take(0)) =~= out);
            assert(!joined(s, 1, may_word));
        } else {
            let tail = s.drop_first();
            let next_out = out + piece(t);
            assert(t matches Token::Punct(p) ==> out.push(p.ch) =~= next_out);
            let next_word = !is_word(t);
            lemma_name_tokens_longest(tail, next_out, next_word);
            lemma_name_tokens(tail, next_out, next_word);
            assert(name_tokens(s, out, may_word) == name_tokens(tail, next_out, next_word));
            let m = tail.len() - rest.len();
            let n = m + 1;
            assert(s.skip(n) =~= tail.skip(m));
            assert(s.take(n)[0] == t);
            assert(s.take(n).drop_first() =~= tail.take(m));
            assert(out + pieces(s.take(n)) =~= next_out + pieces(tail.take(m)));
            assert(joined(s, n, may_word)) by {
                assert forall|i: int| 0 <= i < n implies is_word(#[trigger] s[i])
                    || is_name_punct(s[i]) by {
                    if i > 0 {
                        assert(s[i] == tail[i - 1]);
                    }
                }
                assert forall|i: int| 0 < i < n implies !(is_word(s[i - 1]) && is_word(
                    #[trigger] s[i],
                )) by {
                    assert(s[i] == tail[i - 1]);
                    if i > 1 {
                        assert(s[i - 1] == tail[i - 2]);
                    }
                }
            }
            assert(!joined(s, n + 1, may_word)) by {
                if joined(s, n + 1, may_word) {
                    assert forall|i: int| 0 <= i < m + 1 implies is_word(#[trigger] tail[i])
                        || is_name_punct(tail[i]) by {
                        assert(tail[i] == s[i + 1]);
                    }
                    assert forall|i: int| 0 < i < m + 1 implies !(is_word(tail[i - 1])
                        && is_word(#[trigger] tail[i])) by {
                        assert(tail[i] == s[i + 1]);
                        assert(tail[i - 1] == s[i]);
                    }
                    if m + 1 > 0 && is_word(tail[0]) {
                        assert(tail[0] == s[1]);
                        assert(!(is_word(s[0]) && is_word(s[1])));
                    }
                    assert(joined(tail, m + 1, next_word));
                }
            }
        }
    }
}

/// Gathering name tokens only consumes tokens, and changes the text only
/// if it consumes one.
pub proof fn lemma_name_tokens(s: Seq<Token>, out: Seq<char>, may_word: bool)
    ensures
        name_tokens(s, out, may_word).1.len() <= s.len(),
        name_tokens(s, out, may_word).1.len() == s.len() ==> name_tokens(s, out, may_word).0
            == out,
    decreases s.len(),
{
    if s.len() > 0 {
        match s[0] {
            Token::Ident(i) => if may_word {
                lemma_name_tokens(s.drop_first(), out + i.text@, false);
            },
            Token::Literal(l) => if may_word && word_literal(l.text@) {
                lemma_name_tokens(s.drop_first(), out + l.text@, false);
            },
            Token::Punct(p) => if name_punct(p.ch) {
                lemma_name_tokens(s.drop_first(), out.push(p.ch), true);
            },
            Token::Group(_) => {},
        }
    }
}

/// A name that was read is an XML name and took at least one token.
pub proof fn lemma_parse_name(s: Seq<Token>, eof: Option<Span>)
    ensures
        parse_name(s, eof).rest.len() <= s.len(),
        parse_name(s, eof).result matches Ok(n) ==> name(n) && parse_name(s, eof).rest.len()
            < s.len(),
{
    lemma_name_tokens(s, Seq::empty(), true);
}

/// An attribute that was read has an XML name and took at least one token.
pub proof fn lemma_single_attr(s: Seq<Token>, eof: Option<Span>)
    ensures
        single_attr(s, eof).rest.len() <= s.len(),
        single_attr(s, eof).result matches Ok(a) ==> a.well_formed() && single_attr(
            s,
            eof,
        ).rest.len() < s.len(),
{
    lemma_parse_name(s, eof);
}

/// An attribute list that was read holds XML names only and took at least
/// one token.
pub proof fn lemma_attrs(s: Seq<Token>, eof: Option<Span>, acc: Seq<AttrView>)
    requires
        forall|i: int| 0 <= i < acc.len() ==> (#[trigger] acc[i]).well_formed(),
    ensures
        attrs(s, eof, acc).rest.len() <= s.len(),
        attrs(s, eof, acc).result matches Ok((list, _)) ==> {
            &&& attrs(s, eof, acc).rest.len() < s.len()
            &&& forall|i: int| 0 <= i < list.len() ==> (#[trigger] list[i]).well_formed()
        },
    decreases s.len(),
{
    if s.len() > 0 {
        match s[0] {
            Token::Punct(p) if p.ch == '>' => {},
            Token::Punct(p) if p.ch == '/' => {},
            Token::Group(g) if g.delimiter == Delimiter::Brace => {
                match fill(g) {
                    Err(_) => {},
                    Ok(a) => {
                        lemma_attrs(s.drop_first(), eof, acc.push(a));
                    },
                }
            },
            _ => {
                lemma_single_attr(s, eof);
                let a = single_attr(s, eof);
                match a.result {
                    Err(_) => {},
                    Ok(attr) => {
                        lemma_attrs(a.rest, eof, acc.push(attr));
                    },
                }
            },
        }
    }
}

/// An end tag never gives tokens back.
pub proof fn lemma_end_tag(s: Seq<Token>, eof: Option<Span>, name: Seq<char>)
    ensures
        end_tag(s, eof, name).rest.len() <= s.len(),
        end_tag(s, eof, name).result is Ok ==> end_tag(s, eof, name).rest.len() < s.len(),
{
    let lt = expect_punct(s, eof, '<');
    let slash = expect_punct(lt.rest, eof, '/');
    lemma_parse_name(slash.rest, eof);
}

/// A child that was read holds XML names only and took at least one token.
pub proof fn lemma_child(s: Seq<Token>, eof: Option<Span>)
    ensures
        child(s, eof).rest.len() <= s.len(),
        child(s, eof).result matches Ok(c) ==> c.well_formed() && child(s, eof).rest.len()
            < s.len(),
    decreases s.len(), 0nat,
{
    if s.len() > 0 {
        match s[0] {
            Token::Punct(p) if p.ch == '<' => {
                lemma_element(s.drop_first(), eof);
            },
            _ => {},
        }
    }
}

/// Children that were read hold XML names only; reading them never gives
/// tokens back.
pub proof fn lemma_children(s: Seq<Token>, eof: Option<Span>, acc: Seq<ChildView>)
    requires
        forall|i: int| 0 <= i < acc.len() ==> (#[trigger] acc[i]).well_formed(),
    ensures
        children(s, eof, acc).rest.len() <= s.len(),
        children(s, eof, acc).result matches Ok(list) ==> forall|i: int|
            0 <= i < list.len() ==> (#[trigger] list[i]).well_formed(),
    decreases s.len(), 1nat,
{
    if s.len() == 0 {
    } else if s[0].is_punct('<') && s.len() == 1 {
    } else if s[0].is_punct('<') && s[1].is_punct('/') {
    } else {
        lemma_child(s, eof);
        let c = child(s, eof);
        match c.result {
            Err(_) => {},
            Ok(c_view) => {
                lemma_children(c.rest, eof, acc.push(c_view));
            },
        }
    }
}

/// An element that was read holds XML names only and took at least one
/// token.
pub proof fn lemma_element(s: Seq<Token>, eof: Option<Span>)
    ensures
        element(s, eof).rest.len() <= s.len(),
        element(s, eof).result matches Ok(e) ==> e.well_formed() && element(s, eof).rest.len()
            < s.len(),
    decreases s.len(), 2nat,
{
    lemma_parse_name(s, eof);
    let n = parse_name(s, eof);
    match n.result {
        Err(_) => {},
        Ok(name) => {
            lemma_attrs(n.rest, eof, Seq::empty());
            let a = attrs(n.rest, eof, Seq::empty());
            match a.result {
                Err(_) => {},
                Ok((list, empty)) => {
                    if !empty {
                        lemma_children(a.rest, eof, Seq::empty());
                        let c = children(a.rest, eof, Seq::empty());
                        match c.result {
                            Err(_) => {},
                            Ok(cs) => {
                                lemma_end_tag(c.rest, eof, name);
                            },
                        }
                    }
                },
            }
        },
    }
}

} // verus!
