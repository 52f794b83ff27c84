//! Writing a program whose calls need no host: the calls are made on a
//! document one by one, each tested first.

use vstd::prelude::*;
use vstd::string::StringExecFns;
use crate::ast::{
    AttrValue,
    AttrValueView,
    AttrView,
    ChildView,
    ElementView,
    Input,
    InputView,
};
use crate::balance::{depth_after, depth_step, lemma_concat, lemma_element_calls_balanced, lemma_single};
use crate::document::{
    attr_text,
    empty_close,
    end_tag_text,
    indent,
    lemma_ends_with_indent,
    line_break,
    prolog_text,
    repeated,
    Document,
    Format,
};
use crate::emit::{
    attr_call,
    attr_calls,
    calls_view,
    child_calls,
    children_calls,
    element_calls,
    emit,
    program_of,
    Call,
    CallView,
    Target,
    TargetView,
};
use crate::error::{push_quoted, Error, ErrorView};
use crate::escape::escaped;
use crate::grammar::{invalid_name_msg, view_result};
use crate::name::{is_name, name};
use crate::text::ends_with;

verus! {

/// What the calls change of a document: its text and its nesting depth.
pub struct State {
    pub text: Seq<char>,
    pub depth: nat,
}

/// The state of a document.
pub open spec fn state_of(doc: &Document) -> State {
    State { text: doc@, depth: doc.depth() as nat }
}

/// Whether `call` can be made on a document in state `s`: it must need no
/// host, hand over an XML name where it hands over a name, and find the
/// document as the operation asks.
pub open spec fn runnable(s: State, format: Format, call: CallView) -> bool {
    match call {
        CallView::OpenTag(n) => name(n),
        CallView::Attr(n, AttrValueView::Literal(_)) => name(n),
        CallView::CloseStartTag => s.depth < u32::MAX,
        CallView::CloseEmptyElemTag => true,
        CallView::Text(_) => true,
        CallView::EndTag(_) => {
            &&& s.depth > 0
            &&& format matches Format::Pretty { indentation } ==> ends_with(
                s.text,
                indentation@,
            )
        },
        _ => false,
    }
}

/// The state after `call`, made in state `s`.
pub open spec fn after(s: State, format: Format, call: CallView) -> State {
    match call {
        CallView::OpenTag(n) => State { text: s.text + seq!['<'] + n, depth: s.depth },
        CallView::Attr(n, AttrValueView::Literal(v)) => State {
            text: s.text + attr_text(n, v),
            depth: s.depth,
        },
        CallView::CloseStartTag => State {
            text: s.text + seq!['>'] + line_break(format, s.depth + 1),
            depth: s.depth + 1,
        },
        CallView::CloseEmptyElemTag => State {
            text: s.text + empty_close(format) + line_break(format, s.depth),
            depth: s.depth,
        },
        CallView::Text(t) => State {
            text: s.text + escaped(t, false) + line_break(format, s.depth),
            depth: s.depth,
        },
        CallView::EndTag(n) => State {
            text: s.text.take(s.text.len() - indent(format).len()) + end_tag_text(n)
                + line_break(format, (s.depth - 1) as nat),
            depth: (s.depth - 1) as nat,
        },
        _ => s,
    }
}

/// Makes `calls` in order as far as they can be made. Gives the state after
/// the last call made and the number of calls made.
pub open spec fn run_spec(s: State, format: Format, calls: Seq<CallView>) -> (State, nat)
    decreases calls.len(),
{
    if calls.len() == 0 || !runnable(s, format, calls[0]) {
        (s, 0)
    } else {
        let r = run_spec(after(s, format, calls[0]), format, calls.drop_first());
        (r.0, r.1 + 1)
    }
}

/// Why `call` cannot be made.
pub open spec fn refusal(call: CallView) -> Seq<char> {
    match call {
        CallView::OpenTag(n) => invalid_name_msg(n),
        CallView::Attr(n, AttrValueView::Literal(_)) => invalid_name_msg(n),
        CallView::CloseStartTag => "elements are nested too deeply"@,
        CallView::EndTag(_) => "end tag without an open element"@,
        _ => "a host expression cannot be evaluated here"@,
    }
}

/// The error for a name that is no XML name.
fn invalid_name(text: &str) -> (e: Error)
    ensures
        e@ == (ErrorView { span: None, msg: invalid_name_msg(text@) }),
{
    let mut msg = String::from_str("name ");
    push_quoted(&mut msg, text);
    msg.append(" is not a valid XML name");
    Error { span: None, msg }
}

/// Makes one call on `doc`, if it can be made.
pub fn step(doc: &mut Document, call: &Call<'_>) -> (res: Result<(), Error>)
    ensures
        final(doc).format() == old(doc).format(),
        res is Ok <==> runnable(state_of(old(doc)), old(doc).format(), call@),
        res is Ok ==> state_of(final(doc)) == after(
            state_of(old(doc)),
            old(doc).format(),
            call@,
        ),
        res matches Err(e) ==> state_of(final(doc)) == state_of(old(doc)) && e@ == (ErrorView {
            span: None,
            msg: refusal(call@),
        }),
{
    match call {
        Call::OpenTag(n) => {
            if !is_name(n) {
                return Err(invalid_name(n));
            }
            doc.open_tag(n);
            Ok(())
        },
        Call::Attr(n, AttrValue::Literal(v)) => {
            if !is_name(n) {
                return Err(invalid_name(n));
            }
            doc.attr(n, v.as_str());
            Ok(())
        },
        Call::CloseStartTag => {
            if doc.depth() == u32::MAX {
                return Err(Error::new(None, "elements are nested too deeply"));
            }
            doc.close_start_tag();
            Ok(())
        },
        Call::CloseEmptyElemTag => {
            doc.close_empty_elem_tag();
            Ok(())
        },
        Call::Text(t) => {
            doc.text(t);
            Ok(())
        },
        Call::EndTag(n) => {
            if !doc.can_end_tag() {
                return Err(Error::new(None, "end tag without an open element"));
            }
            doc.end_tag(n);
            Ok(())
        },
        _ => Err(Error::new(None, "a host expression cannot be evaluated here")),
    }
}

/// Makes `calls` on `doc` in order and stops at the first that cannot be
/// made.
pub fn run(doc: &mut Document, calls: &[Call<'_>]) -> (res: Result<(), Error>)
    ensures
        final(doc).format() == old(doc).format(),
        state_of(final(doc)) == run_spec(
            state_of(old(doc)),
            old(doc).format(),
            calls_view(calls@),
        ).0,
        res is Ok <==> run_spec(
            state_of(old(doc)),
            old(doc).format(),
            calls_view(calls@),
        ).1 == calls@.len(),
        res matches Err(e) ==> {
            let made = run_spec(
                state_of(old(doc)),
                old(doc).format(),
                calls_view(calls@),
            ).1 as int;
            made < calls@.len() && e@ == (ErrorView {
                span: None,
                msg: refusal(calls@[made]@),
            })
        },
{
    let n = calls.len();
    let mut i: usize = 0;
    let ghost all = calls_view(calls@);
    let ghost format = doc.format();
    let ghost start = state_of(doc);
    assert(all.skip(0) =~= all);
    while i < n
        invariant
            n == calls@.len(),
            i <= n,
            all == calls_view(calls@),
            doc.format() == format,
            format == old(doc).format(),
            start == state_of(old(doc)),
            run_spec(start, format, all).0 == run_spec(
                state_of(doc),
                format,
                all.skip(i as int),
            ).0,
            run_spec(start, format, all).1 == run_spec(
                state_of(doc),
                format,
                all.skip(i as int),
            ).1 + i,
        decreases n - i,
    {
        let ghost rest = all.skip(i as int);
        assert(rest[0] == calls@[i as int]@);
        assert(rest.drop_first() =~= all.skip(i + 1));
        match step(doc, &calls[i]) {
            Ok(_) => {},
            Err(e) => {
                return Err(e);
            },
        }
        i += 1;
    }
    assert(all.skip(n as int) =~= Seq::empty());
    Ok(())
}

/// Whether an attribute needs no host: it has a literal value.
pub open spec fn static_attr(a: AttrView) -> bool {
    a matches AttrView::Single(_, AttrValueView::Literal(_))
}

/// Whether a child needs no host: it is literal text or an element that
/// needs none.
pub open spec fn static_child(c: ChildView) -> bool
    decreases c,
{
    match c {
        ChildView::Text(_) => true,
        ChildView::Element(e) => static_element(e),
        _ => false,
    }
}

/// Whether an element needs no host anywhere.
pub open spec fn static_element(e: ElementView) -> bool
    decreases e,
{
    &&& forall|i: int| 0 <= i < e.attrs.len() ==> static_attr(#[trigger] e.attrs[i])
    &&& forall|i: int| 0 <= i < e.children.len() ==> static_child(#[trigger] e.children[i])
}

/// How many levels of open elements a child adds at most.
pub open spec fn child_height(c: ChildView) -> nat
    decreases c,
{
    match c {
        ChildView::Element(e) => height(e),
        _ => 0,
    }
}

/// The largest height among children.
pub open spec fn children_height(children: Seq<ChildView>) -> nat
    decreases children,
{
    if children.len() == 0 {
        0
    } else {
        let init = children_height(children.drop_last());
        let last = child_height(children.last());
        if init >= last {
            init
        } else {
            last
        }
    }
}

/// How many levels of open elements writing `e` adds at most.
pub open spec fn height(e: ElementView) -> nat
    decreases e,
{
    if e.empty {
        0
    } else {
        1 + children_height(e.children)
    }
}

/// The attributes of a start tag as they are written.
pub open spec fn attrs_rendered(attrs: Seq<AttrView>) -> Seq<char>
    decreases attrs.len(),
{
    if attrs.len() == 0 {
        Seq::empty()
    } else {
        attrs_rendered(attrs.drop_last()) + match attrs.last() {
            AttrView::Single(n, AttrValueView::Literal(v)) => attr_text(n, v),
            _ => Seq::empty(),
        }
    }
}

/// A child at depth `depth` as it is written, without the line break after
/// it.
pub open spec fn child_text(c: ChildView, format: Format, depth: nat) -> Seq<char>
    decreases c,
{
    match c {
        ChildView::Text(t) => escaped(t, false),
        ChildView::Element(e) => element_text(e, format, depth),
        _ => Seq::empty(),
    }
}

/// Children at depth `depth` as they are written, each after a line break.
pub open spec fn children_text(children: Seq<ChildView>, format: Format, depth: nat) -> Seq<
    char,
>
    decreases children,
{
    if children.len() == 0 {
        Seq::empty()
    } else {
        children_text(children.drop_last(), format, depth) + line_break(format, depth)
            + child_text(children.last(), format, depth)
    }
}

/// An element at depth `depth` as it is written, without the line break
/// after it: its children one level deeper, its end tag in line with its
/// start tag.
pub open spec fn element_text(e: ElementView, format: Format, depth: nat) -> Seq<char>
    decreases e,
{
    seq!['<'] + e.name + attrs_rendered(e.attrs) + if e.empty {
        empty_close(format)
    } else {
        seq!['>'] + children_text(e.children, format, depth + 1) + line_break(format, depth)
            + end_tag_text(e.name)
    }
}

/// Calls that all can be made, followed by more calls: the second part
/// starts where the first ends.
pub proof fn lemma_run_concat(s: State, format: Format, a: Seq<CallView>, b: Seq<CallView>)
    requires
        run_spec(s, format, a).1 == a.len(),
    ensures
        run_spec(s, format, a + b).0 == run_spec(run_spec(s, format, a).0, format, b).0,
        run_spec(s, format, a + b).1 == a.len() + run_spec(
            run_spec(s, format, a).0,
            format,
            b,
        ).1,
    decreases a.len(),
{
    if a.len() == 0 {
        assert(a + b =~= b);
    } else {
        assert((a + b)[0] == a[0]);
        assert((a + b).drop_first() =~= a.drop_first() + b);
        lemma_run_concat(after(s, format, a[0]), format, a.drop_first(), b);
    }
}

/// One call that can be made.
pub proof fn lemma_run_single(s: State, format: Format, call: CallView)
    requires
        runnable(s, format, call),
    ensures
        run_spec(s, format, seq![call]) == (after(s, format, call), 1nat),
{
    let one = seq![call];
    assert(one[0] == call);
    assert(one.drop_first() =~= Seq::empty());
    assert(run_spec(after(s, format, call), format, one.drop_first()) == (
        after(s, format, call),
        0nat,
    ));
}

/// Calls that all can be made, followed by one that can be made after them.
pub proof fn lemma_run_push(s: State, format: Format, a: Seq<CallView>, call: CallView)
    requires
        run_spec(s, format, a).1 == a.len(),
        runnable(run_spec(s, format, a).0, format, call),
    ensures
        run_spec(s, format, a.push(call)) == (
            after(run_spec(s, format, a).0, format, call),
            (a.len() + 1) as nat,
        ),
{
    lemma_run_single(run_spec(s, format, a).0, format, call);
    lemma_run_concat(s, format, a, seq![call]);
    assert(a.push(call) =~= a + seq![call]);
}

/// The calls of literal attributes with XML names can all be made and
/// write the attributes.
pub proof fn lemma_run_attrs(s: State, format: Format, attrs: Seq<AttrView>)
    requires
        forall|i: int| 0 <= i < attrs.len() ==> (#[trigger] attrs[i]).well_formed(),
        forall|i: int| 0 <= i < attrs.len() ==> static_attr(#[trigger] attrs[i]),
    ensures
        run_spec(s, format, attr_calls(attrs)) == (
            State { text: s.text + attrs_rendered(attrs), depth: s.depth },
            attrs.len(),
        ),
    decreases attrs.len(),
{
    if attrs.len() == 0 {
        assert(s.text + attrs_rendered(attrs) =~= s.text);
    } else {
        let init = attrs.drop_last();
        let last = attrs.last();
        assert(last == attrs[attrs.len() - 1]);
        assert(last.well_formed() && static_attr(last));
        assert forall|i: int| 0 <= i < init.len() implies (#[trigger] init[i]).well_formed()
            && static_attr(init[i]) by {
            assert(init[i] == attrs[i]);
        }
        lemma_run_attrs(s, format, init);
        assert(attr_calls(attrs) =~= attr_calls(init).push(attr_call(last)));
        lemma_run_push(s, format, attr_calls(init), attr_call(last));
        assert(s.text + attrs_rendered(init) + attr_text(last->Single_0, last->Single_1->Literal_0)
            =~= s.text + attrs_rendered(attrs));
    }
}

/// A line break one level deeper is the line break and one more unit of
/// indentation.
pub proof fn lemma_line_break_deeper(format: Format, depth: nat)
    ensures
        line_break(format, depth + 1) == line_break(format, depth) + indent(format),
{
    match format {
        Format::Terse => {
            assert(line_break(format, depth + 1) =~= line_break(format, depth) + indent(format));
        },
        Format::Pretty { indentation } => {
            assert(repeated(indentation@, depth + 1) == repeated(indentation@, depth)
                + indentation@);
            assert(line_break(format, depth + 1) =~= line_break(format, depth) + indent(format));
        },
    }
}

/// The calls of children that need no host can all be made after a line
/// break at their depth, and write each child and a line break after it.
pub proof fn lemma_run_children(
    s: State,
    format: Format,
    children: Seq<ChildView>,
    before: Seq<char>,
)
    requires
        s.text == before + line_break(format, s.depth),
        forall|i: int| 0 <= i < children.len() ==> (#[trigger] children[i]).well_formed(),
        forall|i: int| 0 <= i < children.len() ==> static_child(#[trigger] children[i]),
        s.depth + children_height(children) <= u32::MAX,
    ensures
        run_spec(s, format, children_calls(children)) == (
            State {
                text: before + children_text(children, format, s.depth) + line_break(
                    format,
                    s.depth,
                ),
                depth: s.depth,
            },
            children_calls(children).len(),
        ),
    decreases children, 0nat,
{
    let lb = line_break(format, s.depth);
    if children.len() == 0 {
        assert(before + children_text(children, format, s.depth) + lb =~= s.text);
    } else {
        let init = children.drop_last();
        let last = children.last();
        assert(last == children[children.len() - 1]);
        assert(last.well_formed() && static_child(last));
        assert forall|i: int| 0 <= i < init.len() implies (#[trigger] init[i]).well_formed()
            && static_child(init[i]) by {
            assert(init[i] == children[i]);
        }
        assert(children_height(init) <= children_height(children));
        assert(child_height(last) <= children_height(children));
        lemma_run_children(s, format, init, before);
        let init_text = children_text(init, format, s.depth);
        let mid = State { text: before + init_text + lb, depth: s.depth };
        assert(run_spec(s, format, children_calls(init)) == (mid, children_calls(init).len()));
        let last_text = child_text(last, format, s.depth);
        assert(children_text(children, format, s.depth) == init_text + lb + last_text);
        let goal = State { text: before + (init_text + lb + last_text) + lb, depth: s.depth };
        assert(mid.text + last_text + lb =~= goal.text);
        match last {
            ChildView::Element(e) => {
                assert(child_height(last) == height(e));
                lemma_run_element(mid, format, e);
                assert(run_spec(mid, format, child_calls(last)) == (
                    goal,
                    child_calls(last).len(),
                ));
            },
            ChildView::Text(t) => {
                lemma_run_single(mid, format, CallView::Text(t));
                assert(after(mid, format, CallView::Text(t)) == goal);
                assert(run_spec(mid, format, child_calls(last)) == (
                    goal,
                    child_calls(last).len(),
                ));
            },
            _ => {},
        }
        lemma_run_concat(s, format, children_calls(init), child_calls(last));
    }
}

/// The calls after the start tag's attributes of an element with content:
/// the end of the start tag, the children and the end tag.
pub open spec fn content_calls(e: ElementView) -> Seq<CallView> {
    seq![CallView::CloseStartTag] + children_calls(e.children) + seq![CallView::EndTag(e.name)]
}

/// What the calls after the start tag's attributes write for an element
/// with content.
pub open spec fn content_text(e: ElementView, format: Format, depth: nat) -> Seq<char> {
    seq!['>'] + children_text(e.children, format, depth + 1) + line_break(format, depth)
        + end_tag_text(e.name)
}

/// The calls after the start tag's attributes can all be made for an
/// element that needs no host: the end tag finds an open element and, when
/// pretty, the indentation that it takes back.
pub proof fn lemma_run_content(s: State, format: Format, e: ElementView)
    requires
        e.well_formed(),
        static_element(e),
        !e.empty,
        s.depth + height(e) <= u32::MAX,
    ensures
        run_spec(s, format, content_calls(e)) == (
            State {
                text: s.text + content_text(e, format, s.depth) + line_break(format, s.depth),
                depth: s.depth,
            },
            content_calls(e).len(),
        ),
    decreases e, 1nat,
{
    let d = s.depth;
    let start = seq![CallView::CloseStartTag];
    let body = children_calls(e.children);
    let end = CallView::EndTag(e.name);
    let tag = s.text + seq!['>'];
    let s1 = State { text: tag + line_break(format, d + 1), depth: d + 1 };
    assert(runnable(s, format, CallView::CloseStartTag));
    assert(after(s, format, CallView::CloseStartTag) == s1);
    lemma_run_single(s, format, CallView::CloseStartTag);
    lemma_run_children(s1, format, e.children, tag);
    let inner = tag + children_text(e.children, format, d + 1);
    let s2 = State { text: inner + line_break(format, d + 1), depth: d + 1 };
    assert(run_spec(s1, format, body) == (s2, body.len()));
    lemma_run_concat(s, format, start, body);
    assert(run_spec(s, format, start + body) == (s2, (start + body).len()));
    assert(runnable(s2, format, end)) by {
        lemma_ends_with_indent(inner, format, d + 1);
    }
    let s3 = after(s2, format, end);
    lemma_run_push(s, format, start + body, end);
    assert(content_calls(e) =~= (start + body).push(end));
    assert(s2.text.take(s2.text.len() - indent(format).len()) =~= inner + line_break(
        format,
        d,
    )) by {
        lemma_line_break_deeper(format, d);
    }
    assert(s3.text =~= s.text + content_text(e, format, d) + line_break(format, d));
}

/// The calls of an element that needs no host anywhere and holds XML names
/// only can all be made, wherever the document stands: none of them finds
/// the document other than its operation asks. They write the element and a
/// line break, and leave the depth as it was.
pub proof fn lemma_run_element(s: State, format: Format, e: ElementView)
    requires
        e.well_formed(),
        static_element(e),
        s.depth + height(e) <= u32::MAX,
    ensures
        run_spec(s, format, element_calls(e)) == (
            State {
                text: s.text + element_text(e, format, s.depth) + line_break(format, s.depth),
                depth: s.depth,
            },
            element_calls(e).len(),
        ),
    decreases e, 2nat,
{
    let d = s.depth;
    let open = seq![CallView::OpenTag(e.name)];
    let head = open + attr_calls(e.attrs);
    let start_tag = s.text + seq!['<'] + e.name + attrs_rendered(e.attrs);
    let s2 = State { text: start_tag, depth: d };
    assert(run_spec(s, format, head) == (s2, head.len())) by {
        lemma_run_single(s, format, CallView::OpenTag(e.name));
        lemma_run_attrs(after(s, format, CallView::OpenTag(e.name)), format, e.attrs);
        lemma_run_concat(s, format, open, attr_calls(e.attrs));
    }
    let lb = line_break(format, d);
    if e.empty {
        let close = CallView::CloseEmptyElemTag;
        lemma_run_push(s, format, head, close);
        assert(element_calls(e) =~= head.push(close));
        assert(element_text(e, format, d) == seq!['<'] + e.name + attrs_rendered(e.attrs)
            + empty_close(format));
        assert(after(s2, format, close).text =~= s.text + element_text(e, format, d) + lb);
    } else {
        lemma_run_content(s2, format, e);
        lemma_run_concat(s, format, head, content_calls(e));
        assert(element_calls(e) =~= head + content_calls(e));
        assert(element_text(e, format, d) == seq!['<'] + e.name + attrs_rendered(e.attrs)
            + content_text(e, format, d));
        assert(start_tag + content_text(e, format, d) + lb =~= s.text + element_text(
            e,
            format,
            d,
        ) + lb);
    }
}

/// Calls that all can be made move the depth as [`depth_after`] says.
pub proof fn lemma_run_depth(s: State, format: Format, calls: Seq<CallView>)
    requires
        run_spec(s, format, calls).1 == calls.len(),
    ensures
        run_spec(s, format, calls).0.depth == depth_after(calls, s.depth as int),
    decreases calls.len(),
{
    if calls.len() > 0 {
        let first = calls[0];
        let rest = calls.drop_first();
        assert(runnable(s, format, first));
        lemma_run_depth(after(s, format, first), format, rest);
        lemma_single(first, s.depth as int);
        lemma_concat(seq![first], rest, s.depth as int);
        assert(seq![first] + rest =~= calls);
        assert(after(s, format, first).depth == s.depth + depth_step(first));
    }
}

/// The message for a markup that needs its host to be written.
pub open spec fn host_msg() -> Seq<char> {
    "a host expression cannot be evaluated here"@
}

/// The text of a new document for the markup `input` in the format
/// `format`: the prolog, then what the calls of the root element write.
/// There is none where the markup appends to a document, names its format
/// by a host expression, or holds a call that cannot be made.
pub open spec fn render_spec(input: InputView, format: Format) -> Result<Seq<char>, ErrorView> {
    match program_of(input) {
        Err(e) => Err(e),
        Ok(p) => match p.target {
            TargetView::New { version, standalone, format: None } => {
                let start = State {
                    text: prolog_text(version, standalone) + line_break(format, 0),
                    depth: 0,
                };
                let r = run_spec(start, format, p.calls);
                if r.1 == p.calls.len() {
                    Ok(r.0.text)
                } else {
                    Err(ErrorView { span: None, msg: refusal(p.calls[r.1 as int]) })
                }
            },
            _ => Err(ErrorView { span: None, msg: host_msg() }),
        },
    }
}

/// Writes the markup `input`, which needs no host, as a new document in the
/// format `format`.
pub fn render(input: &Input, format: Format) -> (res: Result<String, Error>)
    ensures
        view_result(res) == render_spec(input@, format),
{
    let program = emit(input)?;
    let mut doc = match program.target {
        Target::New { version, standalone, format: None } => Document::new(
            version,
            standalone,
            format,
        ),
        _ => {
            return Err(Error::new(None, "a host expression cannot be evaluated here"));
        },
    };
    let ghost start = state_of(&doc);
    run(&mut doc, program.calls.as_slice())?;
    proof {
        lemma_run_depth(start, format, element_calls(input@.root));
        lemma_element_calls_balanced(input@.root, 0);
    }
    Ok(doc.into_string())
}

/// A markup that needs no host, holds XML names only and begins with a
/// prolog of a known version is written in full: the prolog, a line break,
/// the root element and a line break.
pub proof fn lemma_render(input: InputView, format: Format)
    requires
        program_of(input) matches Ok(p) && p.target matches TargetView::New { format: None, .. },
        input.root.well_formed(),
        static_element(input.root),
        height(input.root) <= u32::MAX,
    ensures
        program_of(input) matches Ok(p) && p.target matches TargetView::New {
            version,
            standalone,
            ..
        } && render_spec(input, format) == Ok::<Seq<char>, ErrorView>(
            prolog_text(version, standalone) + line_break(format, 0) + element_text(
                input.root,
                format,
                0,
            ) + line_break(format, 0),
        ),
{
    let p = program_of(input)->Ok_0;
    match p.target {
        TargetView::New { version, standalone, format: _ } => {
            let start = State {
                text: prolog_text(version, standalone) + line_break(format, 0),
                depth: 0,
            };
            lemma_run_element(start, format, input.root);
        },
        _ => {},
    }
}

} // verus!
