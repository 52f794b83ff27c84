//! Laws of the driver: the calls of an element are balanced and carry XML
//! names.

use vstd::prelude::*;
use crate::ast::{AttrView, ChildView, ElementView};
use crate::emit::{attr_call, attr_calls, child_calls, children_calls, element_calls, CallView};
use crate::name::name;

verus! {

/// How many of `calls` begin a start tag.
pub open spec fn opened(calls: Seq<CallView>) -> nat
    decreases calls.len(),
{
    if calls.len() == 0 {
        0
    } else {
        opened(calls.drop_last()) + if calls.last() is OpenTag {
            1nat
        } else {
            0nat
        }
    }
}

/// How many of `calls` finish an element: end tags and ends of
/// empty-element tags.
pub open spec fn finished(calls: Seq<CallView>) -> nat
    decreases calls.len(),
{
    if calls.len() == 0 {
        0
    } else {
        finished(calls.drop_last()) + if calls.last() is EndTag || calls.last()
            is CloseEmptyElemTag {
            1nat
        } else {
            0nat
        }
    }
}

/// What one call does to the nesting depth of the document.
pub open spec fn depth_step(call: CallView) -> int {
    match call {
        CallView::CloseStartTag => 1,
        CallView::EndTag(_) => -1,
        _ => 0,
    }
}

/// The nesting depth after `calls`, made at depth `depth`.
pub open spec fn depth_after(calls: Seq<CallView>, depth: int) -> int
    decreases calls.len(),
{
    if calls.len() == 0 {
        depth
    } else {
        depth_after(calls.drop_last(), depth) + depth_step(calls.last())
    }
}

/// Whether `calls`, made at depth `depth`, never leave that depth
/// downwards: each end tag closes an element that the calls themselves
/// opened.
pub open spec fn nested(calls: Seq<CallView>, depth: int) -> bool {
    forall|k: int| 0 <= k <= calls.len() ==> #[trigger] depth_after(calls.take(k), depth) >= depth
}

/// Whether every name that `calls` hand to the document is an XML name.
pub open spec fn named(calls: Seq<CallView>) -> bool {
    forall|k: int|
        0 <= k < calls.len() ==> match #[trigger] calls[k] {
            CallView::OpenTag(n) => name(n),
            CallView::Attr(n, _) => name(n),
            CallView::EndTag(n) => name(n),
            _ => true,
        }
}

/// Counting and depth go through a concatenation part by part.
pub proof fn lemma_concat(a: Seq<CallView>, b: Seq<CallView>, depth: int)
    ensures
        opened(a + b) == opened(a) + opened(b),
        finished(a + b) == finished(a) + finished(b),
        depth_after(a + b, depth) == depth_after(b, depth_after(a, depth)),
    decreases b.len(),
{
    if b.len() == 0 {
        assert(a + b =~= a);
    } else {
        assert((a + b).drop_last() =~= a + b.drop_last());
        lemma_concat(a, b.drop_last(), depth);
    }
}

/// Two runs of calls that each stay at or above their start do so together,
/// if the second starts no lower than the first did.
pub proof fn lemma_nested_concat(a: Seq<CallView>, b: Seq<CallView>, depth: int)
    requires
        nested(a, depth),
        nested(b, depth_after(a, depth)),
    ensures
        nested(a + b, depth),
{
    let all = a + b;
    assert(a.take(a.len() as int) =~= a);
    assert(depth_after(a.take(a.len() as int), depth) >= depth);
    assert forall|k: int| 0 <= k <= all.len() implies #[trigger] depth_after(all.take(k), depth)
        >= depth by {
        if k <= a.len() {
            assert(all.take(k) =~= a.take(k));
        } else {
            let j = k - a.len();
            assert(all.take(k) =~= a + b.take(j));
            lemma_concat(a, b.take(j), depth);
            assert(depth_after(b.take(j), depth_after(a, depth)) >= depth_after(a, depth));
        }
    }
}

/// Calls that do not touch the depth stay where they start.
pub proof fn lemma_flat(calls: Seq<CallView>, depth: int)
    requires
        forall|k: int| 0 <= k < calls.len() ==> depth_step(#[trigger] calls[k]) == 0,
    ensures
        depth_after(calls, depth) == depth,
        nested(calls, depth),
    decreases calls.len(),
{
    if calls.len() > 0 {
        lemma_flat(calls.drop_last(), depth);
    }
    assert forall|k: int| 0 <= k <= calls.len() implies #[trigger] depth_after(
        calls.take(k),
        depth,
    ) >= depth by {
        lemma_flat_prefix(calls, depth, k);
    }
}

proof fn lemma_flat_prefix(calls: Seq<CallView>, depth: int, k: int)
    requires
        forall|i: int| 0 <= i < calls.len() ==> depth_step(#[trigger] calls[i]) == 0,
        0 <= k <= calls.len(),
    ensures
        depth_after(calls.take(k), depth) == depth,
    decreases k,
{
    if k > 0 {
        assert(calls.take(k).drop_last() =~= calls.take(k - 1));
        assert(calls.take(k).last() == calls[k - 1]);
        lemma_flat_prefix(calls, depth, k - 1);
    }
}

/// What a single call counts for and does to the depth.
pub proof fn lemma_single(call: CallView, depth: int)
    ensures
        opened(seq![call]) == (if call is OpenTag {
            1nat
        } else {
            0nat
        }),
        finished(seq![call]) == (if call is EndTag || call is CloseEmptyElemTag {
            1nat
        } else {
            0nat
        }),
        depth_after(seq![call], depth) == depth + depth_step(call),
        depth_step(call) >= 0 ==> nested(seq![call], depth),
{
    let one = seq![call];
    assert(one.drop_last() =~= Seq::empty());
    assert(one.last() == call);
    assert(opened(one.drop_last()) == 0);
    assert(finished(one.drop_last()) == 0);
    assert(depth_after(one.drop_last(), depth) == depth);
    if depth_step(call) >= 0 {
        assert forall|k: int| 0 <= k <= one.len() implies #[trigger] depth_after(
            one.take(k),
            depth,
        ) >= depth by {
            if k == 0 {
                assert(one.take(0) =~= Seq::empty());
            } else {
                assert(one.take(k) =~= one);
            }
        }
    }
}

/// The calls of an attribute list open and finish nothing and leave the
/// depth alone.
pub proof fn lemma_attr_calls(attrs: Seq<AttrView>, depth: int)
    ensures
        opened(attr_calls(attrs)) == 0,
        finished(attr_calls(attrs)) == 0,
        depth_after(attr_calls(attrs), depth) == depth,
        nested(attr_calls(attrs), depth),
    decreases attrs.len(),
{
    let calls = attr_calls(attrs);
    lemma_flat(calls, depth);
    if attrs.len() > 0 {
        lemma_attr_calls(attrs.drop_last(), depth);
        assert(calls.drop_last() =~= attr_calls(attrs.drop_last()));
    }
}

/// The calls of one child are balanced.
pub proof fn lemma_child_calls_balanced(c: ChildView, depth: int)
    ensures
        opened(child_calls(c)) == finished(child_calls(c)),
        depth_after(child_calls(c), depth) == depth,
        nested(child_calls(c), depth),
    decreases c,
{
    match c {
        ChildView::Element(e) => {
            lemma_element_calls_balanced(e, depth);
        },
        ChildView::Text(t) => {
            lemma_single(CallView::Text(t), depth);
        },
        ChildView::TextExpr(x) => {
            lemma_single(CallView::TextExpr(x), depth);
        },
        ChildView::Closure { arg, body } => {
            lemma_single(CallView::Closure { arg, body }, depth);
        },
    }
}

/// The calls of a sequence of children are balanced.
pub proof fn lemma_children_calls_balanced(children: Seq<ChildView>, depth: int)
    ensures
        opened(children_calls(children)) == finished(children_calls(children)),
        depth_after(children_calls(children), depth) == depth,
        nested(children_calls(children), depth),
    decreases children,
{
    if children.len() == 0 {
        let calls = children_calls(children);
        assert forall|k: int| 0 <= k <= calls.len() implies #[trigger] depth_after(
            calls.take(k),
            depth,
        ) >= depth by {
            assert(calls.take(k) =~= Seq::empty());
        }
    } else {
        let init = children_calls(children.drop_last());
        let last = child_calls(children.last());
        lemma_children_calls_balanced(children.drop_last(), depth);
        lemma_child_calls_balanced(children.last(), depth);
        lemma_concat(init, last, depth);
        lemma_nested_concat(init, last, depth);
    }
}

/// The calls that write an element are balanced: as many begin a start tag
/// as finish an element, the nesting depth after them is the one before
/// them, and in between it never falls below it. Made on a new document,
/// they leave it at depth 0.
pub proof fn lemma_element_calls_balanced(e: ElementView, depth: int)
    ensures
        opened(element_calls(e)) == finished(element_calls(e)),
        depth_after(element_calls(e), depth) == depth,
        nested(element_calls(e), depth),
    decreases e,
{
    let open = seq![CallView::OpenTag(e.name)];
    let attrs = attr_calls(e.attrs);
    lemma_single(CallView::OpenTag(e.name), depth);
    lemma_attr_calls(e.attrs, depth);
    lemma_concat(open, attrs, depth);
    lemma_nested_concat(open, attrs, depth);
    let head = open + attrs;
    if e.empty {
        let close = seq![CallView::CloseEmptyElemTag];
        lemma_single(CallView::CloseEmptyElemTag, depth);
        lemma_concat(head, close, depth);
        lemma_nested_concat(head, close, depth);
        assert(element_calls(e) =~= head + close);
    } else {
        let start = seq![CallView::CloseStartTag];
        let body = children_calls(e.children);
        let end = seq![CallView::EndTag(e.name)];
        lemma_single(CallView::CloseStartTag, depth);
        lemma_single(CallView::EndTag(e.name), depth + 1);
        lemma_children_calls_balanced(e.children, depth + 1);
        lemma_concat(head, start, depth);
        lemma_nested_concat(head, start, depth);
        let opened_part = head + start;
        lemma_concat(opened_part, body, depth);
        lemma_nested_concat(opened_part, body, depth);
        let inner = opened_part + body;
        assert(depth_after(inner, depth) == depth + 1);
        lemma_concat(inner, end, depth);
        assert(element_calls(e) =~= inner + end);
        assert(nested(inner + end, depth)) by {
            let all = inner + end;
            assert forall|k: int| 0 <= k <= all.len() implies #[trigger] depth_after(
                all.take(k),
                depth,
            ) >= depth by {
                if k <= inner.len() {
                    assert(all.take(k) =~= inner.take(k));
                } else {
                    assert(all.take(k) =~= all);
                }
            }
        }
    }
}

/// The calls of an attribute list with XML names carry XML names.
pub proof fn lemma_attr_calls_named(attrs: Seq<AttrView>)
    requires
        forall|i: int| 0 <= i < attrs.len() ==> (#[trigger] attrs[i]).well_formed(),
    ensures
        named(attr_calls(attrs)),
{
    let calls = attr_calls(attrs);
    assert forall|k: int| 0 <= k < calls.len() implies match #[trigger] calls[k] {
        CallView::OpenTag(n) => name(n),
        CallView::Attr(n, _) => name(n),
        CallView::EndTag(n) => name(n),
        _ => true,
    } by {
        assert(attrs[k].well_formed());
        assert(calls[k] == attr_call(attrs[k]));
    }
}

/// Two runs of calls that carry XML names do so together.
pub proof fn lemma_named_concat(a: Seq<CallView>, b: Seq<CallView>)
    requires
        named(a),
        named(b),
    ensures
        named(a + b),
{
    let all = a + b;
    assert forall|k: int| 0 <= k < all.len() implies match #[trigger] all[k] {
        CallView::OpenTag(n) => name(n),
        CallView::Attr(n, _) => name(n),
        CallView::EndTag(n) => name(n),
        _ => true,
    } by {
        if k < a.len() {
            assert(all[k] == a[k]);
        } else {
            assert(all[k] == b[k - a.len()]);
        }
    }
}

/// The calls of a child whose names are XML names carry XML names.
pub proof fn lemma_child_calls_named(c: ChildView)
    requires
        c.well_formed(),
    ensures
        named(child_calls(c)),
    decreases c,
{
    match c {
        ChildView::Element(e) => {
            lemma_element_calls_named(e);
        },
        _ => {},
    }
}

/// The calls of children whose names are XML names carry XML names.
pub proof fn lemma_children_calls_named(children: Seq<ChildView>)
    requires
        forall|i: int| 0 <= i < children.len() ==> (#[trigger] children[i]).well_formed(),
    ensures
        named(children_calls(children)),
    decreases children,
{
    if children.len() > 0 {
        let init = children.drop_last();
        assert forall|i: int| 0 <= i < init.len() implies (#[trigger] init[i]).well_formed() by {
            assert(init[i] == children[i]);
        }
        assert(children.last() == children[children.len() - 1]);
        lemma_children_calls_named(init);
        lemma_child_calls_named(children.last());
        lemma_named_concat(children_calls(init), child_calls(children.last()));
    }
}

/// The calls that write an element whose names are all XML names hand only
/// XML names to the document: what the document asks of a name holds at
/// every call.
pub proof fn lemma_element_calls_named(e: ElementView)
    requires
        e.well_formed(),
    ensures
        named(element_calls(e)),
    decreases e,
{
    let open = seq![CallView::OpenTag(e.name)];
    let attrs = attr_calls(e.attrs);
    lemma_attr_calls_named(e.attrs);
    lemma_named_concat(open, attrs);
    let head = open + attrs;
    if e.empty {
        let close = seq![CallView::CloseEmptyElemTag];
        lemma_named_concat(head, close);
        assert(element_calls(e) =~= head + close);
    } else {
        let start = seq![CallView::CloseStartTag];
        let body = children_calls(e.children);
        let end = seq![CallView::EndTag(e.name)];
        lemma_children_calls_named(e.children);
        lemma_named_concat(start, body);
        lemma_named_concat(start + body, end);
        lemma_named_concat(head, start + body + end);
        assert(element_calls(e) =~= head + (start + body + end));
    }
}

} // verus!
