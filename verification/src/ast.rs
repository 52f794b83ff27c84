//! The structural description of one markup expression.

use vstd::prelude::*;
use crate::name::{is_name, name};
use crate::token::{Ident, Token};

verus! {

/// A markup name.
#[derive(Debug)]
pub struct Name(pub String);

impl View for Name {
    type V = Seq<char>;

    open spec fn view(&self) -> Seq<char> {
        self.0@
    }
}

impl Name {
    /// Whether the text is a name of the XML grammar.
    pub open spec fn well_formed(&self) -> bool {
        name(self@)
    }

    /// Makes a name of `text`, which must be one of the XML grammar.
    pub fn new(text: String) -> (n: Option<Name>)
        ensures
            n is Some <==> name(text@),
            n matches Some(n) ==> n@ == text@ && n.well_formed(),
    {
        if is_name(text.as_str()) {
            Some(Name(text))
        } else {
            None
        }
    }

    /// The text of the name.
    pub fn as_str(&self) -> (s: &str)
        ensures
            s@ == self@,
    {
        self.0.as_str()
    }
}

/// The value of an attribute.
#[derive(Debug)]
pub enum AttrValue {
    /// Literal text.
    Literal(String),
    /// An embedded host expression.
    Expr(Vec<Token>),
}

/// The mathematical content of an [`AttrValue`].
pub enum AttrValueView {
    Literal(Seq<char>),
    Expr(Seq<Token>),
}

impl View for AttrValue {
    type V = AttrValueView;

    open spec fn view(&self) -> AttrValueView {
        match self {
            AttrValue::Literal(s) => AttrValueView::Literal(s@),
            AttrValue::Expr(e) => AttrValueView::Expr(e@),
        }
    }
}

/// One entry of an element's attribute list.
#[derive(Debug)]
pub enum Attr {
    /// `name=value`
    Single(Name, AttrValue),
    /// `{..expr}`: a host expression that yields name/value pairs.
    Fill(Vec<Token>),
}

/// The mathematical content of an [`Attr`].
pub enum AttrView {
    Single(Seq<char>, AttrValueView),
    Fill(Seq<Token>),
}

impl View for Attr {
    type V = AttrView;

    open spec fn view(&self) -> AttrView {
        match self {
            Attr::Single(n, v) => AttrView::Single(n@, v@),
            Attr::Fill(e) => AttrView::Fill(e@),
        }
    }
}

impl AttrView {
    /// Whether the attribute's name, if it has one, is an XML name.
    pub open spec fn well_formed(self) -> bool {
        self matches AttrView::Single(n, _) ==> name(n)
    }
}

/// One child of an element.
#[derive(Debug)]
pub enum Child {
    /// Literal text.
    Text(String),
    /// An embedded host expression that yields text.
    TextExpr(Vec<Token>),
    /// A continuation: host code `body` that reaches the document under
    /// construction through `arg`.
    Closure { arg: Ident, body: Vec<Token> },
    /// A nested element.
    Element(Element),
}

/// An element with its attributes and children.
#[derive(Debug)]
pub struct Element {
    pub name: Name,
    pub attrs: Vec<Attr>,
    pub children: Vec<Child>,
    /// Whether the element is self-closing.
    pub empty: bool,
}

/// The mathematical content of a [`Child`].
pub enum ChildView {
    Text(Seq<char>),
    TextExpr(Seq<Token>),
    Closure { arg: Ident, body: Seq<Token> },
    Element(ElementView),
}

/// The mathematical content of an [`Element`].
pub struct ElementView {
    pub name: Seq<char>,
    pub attrs: Seq<AttrView>,
    pub children: Seq<ChildView>,
    pub empty: bool,
}

impl View for Child {
    type V = ChildView;

    open spec fn view(&self) -> ChildView
        decreases self,
    {
        match self {
            Child::Text(s) => ChildView::Text(s@),
            Child::TextExpr(e) => ChildView::TextExpr(e@),
            Child::Closure { arg, body } => ChildView::Closure { arg: *arg, body: body@ },
            Child::Element(e) => ChildView::Element(e@),
        }
    }
}

impl View for Element {
    type V = ElementView;

    open spec fn view(&self) -> ElementView
        decreases self,
    {
        ElementView {
            name: self.name@,
            attrs: attrs_view(self.attrs@),
            children: Seq::new(
                self.children@.len(),
                |i: int|
                    if 0 <= i < self.children@.len() {
                        self.children@[i]@
                    } else {
                        arbitrary()
                    },
            ),
            empty: self.empty,
        }
    }
}

/// The views of a sequence of children.
pub open spec fn children_view(children: Seq<Child>) -> Seq<ChildView> {
    Seq::new(children.len(), |i: int| children[i]@)
}

/// The views of a sequence of attributes.
pub open spec fn attrs_view(attrs: Seq<Attr>) -> Seq<AttrView> {
    attrs.map_values(|a: Attr| a@)
}

impl ElementView {
    /// Whether every name in the element and below it is an XML name, and a
    /// self-closing element has no children.
    pub open spec fn well_formed(self) -> bool
        decreases self,
    {
        &&& name(self.name)
        &&& forall|i: int| 0 <= i < self.attrs.len() ==> (#[trigger] self.attrs[i]).well_formed()
        &&& self.empty ==> self.children.len() == 0
        &&& forall|i: int|
            0 <= i < self.children.len() ==> (#[trigger] self.children[i]).well_formed()
    }
}

impl ChildView {
    /// Whether every name below this child is an XML name.
    pub open spec fn well_formed(self) -> bool
        decreases self,
    {
        match self {
            ChildView::Element(e) => e.well_formed(),
            _ => true,
        }
    }
}

/// The document prolog.
#[derive(Debug)]
pub struct Prolog {
    pub version: String,
    pub standalone: Option<String>,
}

/// The mathematical content of a [`Prolog`].
pub struct PrologView {
    pub version: Seq<char>,
    pub standalone: Option<Seq<char>>,
}

impl View for Prolog {
    type V = PrologView;

    open spec fn view(&self) -> PrologView {
        PrologView {
            version: self.version@,
            standalone: match self.standalone {
                Some(s) => Some(s@),
                None => None,
            },
        }
    }
}

/// The content of an optional token vector.
pub open spec fn tokens_view(tokens: Option<Vec<Token>>) -> Option<Seq<Token>> {
    match tokens {
        Some(t) => Some(t@),
        None => None,
    }
}

/// A whole markup expression.
#[derive(Debug)]
pub struct Input {
    /// The host expression of the document to append to, if one was given.
    pub buffer: Option<Vec<Token>>,
    /// The host expression of the format, if one was given.
    pub format: Option<Vec<Token>>,
    pub prolog: Option<Prolog>,
    pub root: Element,
}

/// The mathematical content of an [`Input`].
pub struct InputView {
    pub buffer: Option<Seq<Token>>,
    pub format: Option<Seq<Token>>,
    pub prolog: Option<PrologView>,
    pub root: ElementView,
}

impl View for Input {
    type V = InputView;

    open spec fn view(&self) -> InputView {
        InputView {
            buffer: tokens_view(self.buffer),
            format: tokens_view(self.format),
            prolog: match self.prolog {
                Some(p) => Some(p@),
                None => None,
            },
            root: self.root@,
        }
    }
}

} // verus!
