//! The driver: from the description of a markup expression to the calls
//! that write it.

use vstd::prelude::*;
use vstd::string::StringExecFns;
use crate::ast::{
    Attr,
    AttrValue,
    AttrValueView,
    AttrView,
    Child,
    ChildView,
    Element,
    ElementView,
    Input,
    InputView,
};
use crate::document::Version;
use crate::error::{push_quoted, quoted, Error, ErrorView};
use crate::grammar::view_result;
use crate::name::name;
use crate::text::same;
use crate::token::{Ident, Token};

verus! {

/// One call on the document under construction.
#[derive(Debug)]
pub enum Call<'a> {
    /// `open_tag(name)`
    OpenTag(&'a str),
    /// `attr(name, value)`, the value literal or a host expression.
    Attr(&'a str, &'a AttrValue),
    /// `attrs(expr)`, the pairs given by a host expression.
    Attrs(&'a Vec<Token>),
    /// `close_start_tag()`
    CloseStartTag,
    /// `close_empty_elem_tag()`
    CloseEmptyElemTag,
    /// `text(value)` with literal text.
    Text(&'a str),
    /// `text(expr)` with the text given by a host expression.
    TextExpr(&'a Vec<Token>),
    /// Host code `body` that is handed the document as `arg`.
    Closure { arg: &'a Ident, body: &'a Vec<Token> },
    /// `end_tag(name)`
    EndTag(&'a str),
}

/// The mathematical content of a [`Call`].
pub enum CallView {
    OpenTag(Seq<char>),
    Attr(Seq<char>, AttrValueView),
    Attrs(Seq<Token>),
    CloseStartTag,
    CloseEmptyElemTag,
    Text(Seq<char>),
    TextExpr(Seq<Token>),
    Closure { arg: Ident, body: Seq<Token> },
    EndTag(Seq<char>),
}

impl<'a> View for Call<'a> {
    type V = CallView;

    open spec fn view(&self) -> CallView {
        match *self {
            Call::OpenTag(n) => CallView::OpenTag(n@),
            Call::Attr(n, v) => CallView::Attr(n@, v@),
            Call::Attrs(e) => CallView::Attrs(e@),
            Call::CloseStartTag => CallView::CloseStartTag,
            Call::CloseEmptyElemTag => CallView::CloseEmptyElemTag,
            Call::Text(t) => CallView::Text(t@),
            Call::TextExpr(e) => CallView::TextExpr(e@),
            Call::Closure { arg, body } => CallView::Closure { arg: *arg, body: body@ },
            Call::EndTag(n) => CallView::EndTag(n@),
        }
    }
}

/// The views of a sequence of calls.
pub open spec fn calls_view(calls: Seq<Call<'_>>) -> Seq<CallView> {
    calls.map_values(|c: Call| c@)
}

/// The call that writes one entry of an attribute list.
pub open spec fn attr_call(a: AttrView) -> CallView {
    match a {
        AttrView::Single(n, v) => CallView::Attr(n, v),
        AttrView::Fill(e) => CallView::Attrs(e),
    }
}

/// The calls that write an attribute list, in source order.
pub open spec fn attr_calls(attrs: Seq<AttrView>) -> Seq<CallView> {
    attrs.map_values(|a: AttrView| attr_call(a))
}

/// The calls that write one child.
pub open spec fn child_calls(c: ChildView) -> Seq<CallView>
    decreases c,
{
    match c {
        ChildView::Text(t) => seq![CallView::Text(t)],
        ChildView::TextExpr(e) => seq![CallView::TextExpr(e)],
        ChildView::Closure { arg, body } => seq![CallView::Closure { arg, body }],
        ChildView::Element(e) => element_calls(e),
    }
}

/// The calls that write children, in order.
pub open spec fn children_calls(children: Seq<ChildView>) -> Seq<CallView>
    decreases children,
{
    if children.len() == 0 {
        Seq::empty()
    } else {
        children_calls(children.drop_last()) + child_calls(children.last())
    }
}

/// The calls that write an element: the start tag with its attributes, then
/// either the end of an empty-element tag, or the end of the start tag, the
/// children and the end tag.
pub open spec fn element_calls(e: ElementView) -> Seq<CallView>
    decreases e,
{
    seq![CallView::OpenTag(e.name)] + attr_calls(e.attrs) + if e.empty {
        seq![CallView::CloseEmptyElemTag]
    } else {
        seq![CallView::CloseStartTag] + children_calls(e.children) + seq![
            CallView::EndTag(e.name),
        ]
    }
}

/// Appends the calls that write `elem` to `out`.
pub fn emit_element<'a>(elem: &'a Element, out: &mut Vec<Call<'a>>)
    ensures
        calls_view(final(out)@) == calls_view(old(out)@) + element_calls(elem@),
    decreases elem,
{
    let ghost start = calls_view(out@);
    out.push(Call::OpenTag(elem.name.as_str()));
    assert(calls_view(out@) =~= start + seq![CallView::OpenTag(elem@.name)]);
    let n = elem.attrs.len();
    let mut i: usize = 0;
    while i < n
        invariant
            n == elem.attrs@.len(),
            i <= n,
            calls_view(out@) == start + seq![CallView::OpenTag(elem@.name)] + attr_calls(
                elem@.attrs.take(i as int),
            ),
        decreases n - i,
    {
        let ghost before = calls_view(out@);
        let call = match &elem.attrs[i] {
            Attr::Single(name, value) => Call::Attr(name.as_str(), value),
            Attr::Fill(expr) => Call::Attrs(expr),
        };
        out.push(call);
        assert(call@ == attr_call(elem@.attrs[i as int]));
        assert(calls_view(out@) =~= before.push(call@));
        assert(attr_calls(elem@.attrs.take(i + 1)) =~= attr_calls(
            elem@.attrs.take(i as int),
        ).push(call@));
        i += 1;
    }
    assert(elem@.attrs.take(n as int) =~= elem@.attrs);
    let ghost head = calls_view(out@);
    if elem.empty {
        out.push(Call::CloseEmptyElemTag);
        assert(calls_view(out@) =~= head + seq![CallView::CloseEmptyElemTag]);
        assert(head + seq![CallView::CloseEmptyElemTag] =~= start + element_calls(elem@));
        return ;
    }
    out.push(Call::CloseStartTag);
    assert(calls_view(out@) =~= head + seq![CallView::CloseStartTag]);
    let m = elem.children.len();
    let mut j: usize = 0;
    assert(elem@.children.take(0) =~= Seq::empty());
    while j < m
        invariant
            m == elem.children@.len(),
            m == elem@.children.len(),
            j <= m,
            calls_view(out@) == head + seq![CallView::CloseStartTag] + children_calls(
                elem@.children.take(j as int),
            ),
        decreases m - j,
    {
        let ghost before = calls_view(out@);
        let ghost done = elem@.children.take(j as int);
        let ghost next = elem@.children.take(j + 1);
        assert(next.drop_last() =~= done);
        assert(next.last() == elem@.children[j as int]);
        match &elem.children[j] {
            Child::Text(text) => {
                out.push(Call::Text(text.as_str()));
                assert(calls_view(out@) =~= before + child_calls(elem@.children[j as int]));
            },
            Child::TextExpr(expr) => {
                out.push(Call::TextExpr(expr));
                assert(calls_view(out@) =~= before + child_calls(elem@.children[j as int]));
            },
            Child::Closure { arg, body } => {
                out.push(Call::Closure { arg, body });
                assert(calls_view(out@) =~= before + child_calls(elem@.children[j as int]));
            },
            Child::Element(child) => {
                emit_element(child, out);
            },
        }
        j += 1;
    }
    assert(elem@.children.take(m as int) =~= elem@.children);
    let ghost body = calls_view(out@);
    out.push(Call::EndTag(elem.name.as_str()));
    assert(calls_view(out@) =~= body + seq![CallView::EndTag(elem@.name)]);
    assert(calls_view(out@) =~= start + element_calls(elem@));
}

/// Where the calls of a program write to.
#[derive(Debug)]
pub enum Target<'a> {
    /// A document that exists already, given by a host expression.
    Existing(&'a Vec<Token>),
    /// A new document, made with these arguments and handed back at the end.
    New { version: Version, standalone: Option<bool>, format: Option<&'a Vec<Token>> },
}

/// The mathematical content of a [`Target`].
pub enum TargetView {
    Existing(Seq<Token>),
    New { version: Version, standalone: Option<bool>, format: Option<Seq<Token>> },
}

impl<'a> View for Target<'a> {
    type V = TargetView;

    open spec fn view(&self) -> TargetView {
        match *self {
            Target::Existing(b) => TargetView::Existing(b@),
            Target::New { version, standalone, format } => TargetView::New {
                version,
                standalone,
                format: match format {
                    Some(f) => Some(f@),
                    None => None,
                },
            },
        }
    }
}

/// What a markup expression does: the document it writes to and the calls
/// it makes on it, in order.
#[derive(Debug)]
pub struct Program<'a> {
    pub target: Target<'a>,
    pub calls: Vec<Call<'a>>,
}

/// The mathematical content of a [`Program`].
pub struct ProgramView {
    pub target: TargetView,
    pub calls: Seq<CallView>,
}

impl<'a> View for Program<'a> {
    type V = ProgramView;

    open spec fn view(&self) -> ProgramView {
        ProgramView { target: self.target@, calls: calls_view(self.calls@) }
    }
}

/// The version that the prolog text `v` names.
pub open spec fn version_of(v: Seq<char>) -> Option<Version> {
    if v == "1.0"@ {
        Some(Version::V1_0)
    } else if v == "1.1"@ {
        Some(Version::V1_1)
    } else {
        None
    }
}

/// The flag that the prolog text `s` of `standalone` names.
pub open spec fn standalone_of(s: Seq<char>) -> Option<bool> {
    if s == "yes"@ {
        Some(true)
    } else if s == "no"@ {
        Some(false)
    } else {
        None
    }
}

/// The message for an expression with neither document nor prolog.
pub open spec fn no_target_msg() -> Seq<char> {
    "you have to specify either a buffer to write into or an XML prolog"@
}

/// The document that an expression writes to: the one it names, else a new
/// one made from the prolog, which then must be there and hold a known
/// version and, if any, a known standalone value.
pub open spec fn target_of(input: InputView) -> Result<TargetView, ErrorView> {
    match input.buffer {
        Some(b) => Ok(TargetView::Existing(b)),
        None => match input.prolog {
            None => Err(ErrorView { span: None, msg: no_target_msg() }),
            Some(p) => match version_of(p.version) {
                None => Err(
                    ErrorView { span: None, msg: "invalid version "@ + quoted(p.version) },
                ),
                Some(version) => match p.standalone {
                    None => Ok(
                        TargetView::New { version, standalone: None, format: input.format },
                    ),
                    Some(s) => match standalone_of(s) {
                        None => Err(
                            ErrorView {
                                span: None,
                                msg: "invalid standalone value "@ + quoted(s),
                            },
                        ),
                        Some(flag) => Ok(
                            TargetView::New {
                                version,
                                standalone: Some(flag),
                                format: input.format,
                            },
                        ),
                    },
                },
            },
        },
    }
}

/// The program of an expression: its target and the calls of its root
/// element.
pub open spec fn program_of(input: InputView) -> Result<ProgramView, ErrorView> {
    match target_of(input) {
        Err(e) => Err(e),
        Ok(target) => Ok(ProgramView { target, calls: element_calls(input.root) }),
    }
}

/// Finds the document that `input` writes to.
pub fn emit_target<'a>(input: &'a Input) -> (res: Result<Target<'a>, Error>)
    ensures
        view_result(res) == target_of(input@),
{
    if let Some(buffer) = &input.buffer {
        return Ok(Target::Existing(buffer));
    }
    let prolog = match &input.prolog {
        Some(p) => p,
        None => {
            return Err(
                Error::new(
                    None,
                    "you have to specify either a buffer to write into or an XML prolog",
                ),
            );
        },
    };
    let version = if same(prolog.version.as_str(), "1.0") {
        Version::V1_0
    } else if same(prolog.version.as_str(), "1.1") {
        Version::V1_1
    } else {
        let mut msg = String::from_str("invalid version ");
        push_quoted(&mut msg, prolog.version.as_str());
        return Err(Error { span: None, msg });
    };
    let standalone = match &prolog.standalone {
        None => None,
        Some(s) => {
            if same(s.as_str(), "yes") {
                Some(true)
            } else if same(s.as_str(), "no") {
                Some(false)
            } else {
                let mut msg = String::from_str("invalid standalone value ");
                push_quoted(&mut msg, s.as_str());
                return Err(Error { span: None, msg });
            }
        },
    };
    let format = match &input.format {
        Some(f) => Some(f),
        None => None,
    };
    Ok(Target::New { version, standalone, format })
}

/// Turns the description of a markup expression into its program.
pub fn emit<'a>(input: &'a Input) -> (res: Result<Program<'a>, Error>)
    ensures
        view_result(res) == program_of(input@),
{
    let target = emit_target(input)?;
    let mut calls: Vec<Call<'a>> = Vec::new();
    assert(calls_view(calls@) =~= Seq::empty());
    emit_element(&input.root, &mut calls);
    assert(calls_view(calls@) =~= element_calls(input@.root));
    Ok(Program { target, calls })
}

} // verus!
