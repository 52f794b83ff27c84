//! The document under construction: an incremental serializer.

use vstd::prelude::*;
use vstd::string::StringExecFns;
use crate::error::{push_quoted, quoted, Error, ErrorView};
use crate::escape::{escape_into, escaped};
use crate::name::{is_name, name};
use crate::text::{ends_with, remove_suffix, str_ends_with};

verus! {

/// The XML version named in the prolog.
#[derive(Clone, Copy, Debug, PartialEq, Eq, Structural)]
pub enum Version {
    V1_0,
    V1_1,
}

/// How the output is laid out.
#[derive(Clone, Copy, Debug)]
pub enum Format {
    /// Minimized: no whitespace is added.
    Terse,
    /// For human readers: one item per line, indented by nesting depth.
    Pretty {
        /// The text of one level of indentation, e.g. `"  "`.
        indentation: &'static str,
    },
}

/// A document, possibly still under construction: the text written so far,
/// the number of start tags that await their end tag, and the format.
pub struct Document {
    buf: String,
    depth: u32,
    format: Format,
}

/// The text of `version` in the prolog.
pub open spec fn version_text(version: Version) -> Seq<char> {
    match version {
        Version::V1_0 => "1.0"@,
        Version::V1_1 => "1.1"@,
    }
}

/// The prolog of a document.
pub open spec fn prolog_text(version: Version, standalone: Option<bool>) -> Seq<char> {
    "<?xml version=\""@ + version_text(version) + "\" encoding=\"UTF-8\""@ + (match standalone {
        Some(true) => " standalone=\"yes\""@,
        Some(false) => " standalone=\"no\""@,
        None => Seq::empty(),
    }) + "?>"@
}

/// `n` copies of `unit` in a row.
pub open spec fn repeated(unit: Seq<char>, n: nat) -> Seq<char>
    decreases n,
{
    if n == 0 {
        Seq::empty()
    } else {
        repeated(unit, (n - 1) as nat) + unit
    }
}

/// The line break that follows an item at nesting depth `depth`: nothing
/// when terse, else a newline and `depth` units of indentation.
pub open spec fn line_break(format: Format, depth: nat) -> Seq<char> {
    match format {
        Format::Terse => Seq::empty(),
        Format::Pretty { indentation } => seq!['\n'] + repeated(indentation@, depth),
    }
}

/// One unit of indentation; empty when terse.
pub open spec fn indent(format: Format) -> Seq<char> {
    match format {
        Format::Terse => Seq::empty(),
        Format::Pretty { indentation } => indentation@,
    }
}

/// An attribute as it is written: a space, the name, and the escaped value
/// between double quotes.
pub open spec fn attr_text(name: Seq<char>, value: Seq<char>) -> Seq<char> {
    attr_start(name) + escaped(value, true) + seq!['"']
}

/// An attribute up to its opening quote.
pub open spec fn attr_start(name: Seq<char>) -> Seq<char> {
    seq![' '] + name + seq!['=', '"']
}

/// The end of an empty-element tag.
pub open spec fn empty_close(format: Format) -> Seq<char> {
    match format {
        Format::Terse => seq!['/', '>'],
        Format::Pretty { .. } => seq![' ', '/', '>'],
    }
}

/// An end tag.
pub open spec fn end_tag_text(name: Seq<char>) -> Seq<char> {
    seq!['<', '/'] + name + seq!['>']
}

/// The index of the first pair whose name is no XML name, or the number of
/// pairs.
pub open spec fn first_invalid(pairs: Seq<(&str, &str)>) -> nat
    decreases pairs.len(),
{
    if pairs.len() == 0 || !name(pairs[0].0@) {
        0
    } else {
        1 + first_invalid(pairs.drop_first())
    }
}

/// The first `n` pairs as they are written.
pub open spec fn attrs_text(pairs: Seq<(&str, &str)>, n: nat) -> Seq<char>
    decreases n,
{
    if n == 0 || n > pairs.len() {
        Seq::empty()
    } else {
        attrs_text(pairs, (n - 1) as nat) + attr_text(pairs[n - 1].0@, pairs[n - 1].1@)
    }
}

/// The message for an attribute name that is no XML name.
pub open spec fn invalid_attr_msg(name: Seq<char>) -> Seq<char> {
    "attribute name "@ + quoted(name) + " is not a valid XML name"@
}

/// In a line break at depth one or more, the last thing is one unit of
/// indentation.
pub proof fn lemma_line_break_ends_with_indent(format: Format, depth: nat)
    requires
        depth > 0,
    ensures
        ends_with(line_break(format, depth), indent(format)),
{
    match format {
        Format::Terse => {
            assert(line_break(format, depth).skip(0) =~= indent(format));
        },
        Format::Pretty { indentation } => {
            let lb = line_break(format, depth);
            let before = seq!['\n'] + repeated(indentation@, (depth - 1) as nat);
            assert(lb =~= before + indentation@);
            assert(lb.skip(lb.len() - indentation@.len()) =~= indentation@);
        },
    }
}

/// Text that ends with a line break at depth one or more ends with one unit
/// of indentation.
pub proof fn lemma_ends_with_indent(text: Seq<char>, format: Format, depth: nat)
    requires
        depth > 0,
    ensures
        ends_with(text + line_break(format, depth), indent(format)),
{
    lemma_line_break_ends_with_indent(format, depth);
    let lb = line_break(format, depth);
    let all = text + lb;
    let i = indent(format);
    assert(all.skip(all.len() - i.len()) =~= lb.skip(lb.len() - i.len()));
}

impl View for Document {
    type V = Seq<char>;

    /// The text written so far.
    closed spec fn view(&self) -> Seq<char> {
        self.buf@
    }
}

impl Document {
    /// The number of start tags that await their end tag.
    pub closed spec fn spec_depth(&self) -> u32 {
        self.depth
    }

    /// The number of start tags that await their end tag.
    #[verifier::when_used_as_spec(spec_depth)]
    pub fn depth(&self) -> (d: u32)
        ensures
            d == self.depth(),
    {
        self.depth
    }

    /// Whether an end tag can be written: an element is open and, when
    /// pretty, the text ends with the indentation that the end tag takes
    /// back.
    pub open spec fn spec_can_end_tag(&self) -> bool {
        &&& self.depth() > 0
        &&& self.format() matches Format::Pretty { indentation } ==> ends_with(
            self@,
            indentation@,
        )
    }

    /// Whether an end tag can be written.
    #[verifier::when_used_as_spec(spec_can_end_tag)]
    pub fn can_end_tag(&self) -> (b: bool)
        ensures
            b == self.can_end_tag(),
    {
        self.depth > 0 && match self.format {
            Format::Pretty { indentation } => str_ends_with(self.buf.as_str(), indentation),
            Format::Terse => true,
        }
    }

    /// The format chosen at construction.
    pub closed spec fn format(&self) -> Format {
        self.format
    }

    /// The text written so far.
    pub fn as_str(&self) -> (s: &str)
        ensures
            s@ == self@,
    {
        self.buf.as_str()
    }

    /// The text of the finished document. Every element has been closed.
    pub fn into_string(self) -> (s: String)
        requires
            self.depth() == 0,
        ensures
            s@ == self@,
    {
        self.buf
    }

    /// A new document that holds the prolog.
    pub fn new(version: Version, standalone: Option<bool>, format: Format) -> (doc: Document)
        ensures
            doc@ == prolog_text(version, standalone) + line_break(format, 0),
            doc.depth() == 0,
            doc.format() == format,
    {
        let version = match version {
            Version::V1_0 => "1.0",
            Version::V1_1 => "1.1",
        };
        let mut buf = String::from_str("<?xml version=\"");
        buf.append(version);
        buf.append("\" encoding=\"UTF-8\"");
        match standalone {
            Some(true) => buf.append(" standalone=\"yes\""),
            Some(false) => buf.append(" standalone=\"no\""),
            None => {
                assert(buf@ + Seq::<char>::empty() =~= buf@);
            },
        }
        buf.append("?>");
        let mut out = Document { buf, format, depth: 0 };
        out.newline();
        out
    }

    /// Begins a start tag: writes `<name`.
    pub fn open_tag(&mut self, name: &str)
        requires
            crate::name::name(name@),
        ensures
            final(self)@ == old(self)@ + seq!['<'] + name@,
            final(self).depth() == old(self).depth(),
            final(self).format() == old(self).format(),
    {
        self.buf.push('<');
        self.buf.append(name);
    }

    /// Writes one attribute into the start tag that is open.
    pub fn attr(&mut self, name: &str, value: &str)
        requires
            crate::name::name(name@),
        ensures
            final(self)@ == old(self)@ + attr_text(name@, value@),
            final(self).depth() == old(self).depth(),
            final(self).format() == old(self).format(),
    {
        self.write_attr_start(name);
        escape_into(&mut self.buf, value, true);
        self.buf.push('"');
        assert(self@ =~= old(self)@ + attr_text(name@, value@));
    }

    /// Writes an attribute up to its opening quote.
    fn write_attr_start(&mut self, name: &str)
        ensures
            final(self)@ == old(self)@ + attr_start(name@),
            final(self).depth() == old(self).depth(),
            final(self).format() == old(self).format(),
    {
        self.buf.push(' ');
        self.buf.append(name);
        self.buf.push('=');
        self.buf.push('"');
        assert(self@ =~= old(self)@ + attr_start(name@));
    }

    /// Writes the attributes of `attrs`, name and value, in order.
    ///
    /// Each name is checked when it is written. At the first that is no XML
    /// name the call fails: the attributes before it stay written in full,
    /// and of the failing one the part up to its opening quote.
    pub fn attrs(&mut self, attrs: &[(&str, &str)]) -> (res: Result<(), Error>)
        ensures
            final(self).depth() == old(self).depth(),
            final(self).format() == old(self).format(),
            first_invalid(attrs@) <= attrs@.len(),
            res is Ok <==> first_invalid(attrs@) == attrs@.len(),
            res is Ok ==> final(self)@ == old(self)@ + attrs_text(attrs@, attrs@.len()),
            res matches Err(e) ==> {
                let bad = first_invalid(attrs@) as int;
                &&& final(self)@ == old(self)@ + attrs_text(attrs@, bad as nat) + attr_start(
                    attrs@[bad].0@,
                )
                &&& e@ == (ErrorView { span: None, msg: invalid_attr_msg(attrs@[bad].0@) })
            },
    {
        let n = attrs.len();
        let mut i: usize = 0;
        assert(self@ =~= old(self)@ + attrs_text(attrs@, 0));
        assert(attrs@.skip(0) =~= attrs@);
        while i < n
            invariant
                n == attrs@.len(),
                i <= n,
                self.depth() == old(self).depth(),
                self.format() == old(self).format(),
                self@ == old(self)@ + attrs_text(attrs@, i as nat),
                first_invalid(attrs@) == i + first_invalid(attrs@.skip(i as int)),
            decreases n - i,
        {
            let name = attrs[i].0;
            let value = attrs[i].1;
            let ghost rest = attrs@.skip(i as int);
            assert(rest[0] == attrs@[i as int]);
            assert(rest.drop_first() =~= attrs@.skip(i + 1));
            self.write_attr_start(name);
            if !is_name(name) {
                let mut msg = String::from_str("attribute name ");
                push_quoted(&mut msg, name);
                msg.append(" is not a valid XML name");
                return Err(Error { span: None, msg });
            }
            escape_into(&mut self.buf, value, true);
            self.buf.push('"');
            i += 1;
            assert(self@ =~= old(self)@ + attrs_text(attrs@, i as nat));
        }
        assert(attrs@.skip(n as int) =~= Seq::empty());
        Ok(())
    }

    /// Ends a start tag that has content: writes `>`. The element is open
    /// from here on.
    pub fn close_start_tag(&mut self)
        requires
            old(self).depth() < u32::MAX,
        ensures
            final(self)@ == old(self)@ + seq!['>'] + line_break(
                old(self).format(),
                (old(self).depth() + 1) as nat,
            ),
            final(self).depth() == old(self).depth() + 1,
            final(self).format() == old(self).format(),
    {
        self.buf.push('>');
        self.depth += 1;
        self.newline();
    }

    /// Ends the start tag of an element without content: writes `/>`.
    pub fn close_empty_elem_tag(&mut self)
        ensures
            final(self)@ == old(self)@ + empty_close(old(self).format()) + line_break(
                old(self).format(),
                old(self).depth() as nat,
            ),
            final(self).depth() == old(self).depth(),
            final(self).format() == old(self).format(),
    {
        proof {
            reveal_strlit("/>");
            reveal_strlit(" />");
        }
        let close = match self.format {
            Format::Terse => "/>",
            Format::Pretty { .. } => " />",
        };
        assert(close@ =~= empty_close(self.format()));
        self.buf.append(close);
        self.newline();
    }

    /// Writes the end tag of the innermost open element, in line with its
    /// start tag: the indentation that the last line break wrote for a
    /// further child is taken back first.
    pub fn end_tag(&mut self, name: &str)
        requires
            old(self).can_end_tag(),
        ensures
            final(self)@ == old(self)@.take(
                old(self)@.len() - indent(old(self).format()).len(),
            ) + end_tag_text(name@) + line_break(
                old(self).format(),
                (old(self).depth() - 1) as nat,
            ),
            final(self).depth() == old(self).depth() - 1,
            final(self).format() == old(self).format(),
    {
        match self.format {
            Format::Pretty { indentation } => {
                remove_suffix(&mut self.buf, indentation);
            },
            Format::Terse => {
                assert(self@.take(self@.len() as int) =~= self@);
            },
        }
        let ghost trimmed = self@;
        self.depth -= 1;
        self.buf.push('<');
        self.buf.push('/');
        self.buf.append(name);
        self.buf.push('>');
        assert(self@ =~= trimmed + end_tag_text(name@));
        self.newline();
    }

    /// Writes text content, escaped.
    pub fn text(&mut self, text: &str)
        ensures
            final(self)@ == old(self)@ + escaped(text@, false) + line_break(
                old(self).format(),
                old(self).depth() as nat,
            ),
            final(self).depth() == old(self).depth(),
            final(self).format() == old(self).format(),
    {
        escape_into(&mut self.buf, text, false);
        self.newline();
    }

    /// Writes the line break of the current depth.
    fn newline(&mut self)
        ensures
            final(self)@ == old(self)@ + line_break(
                old(self).format(),
                old(self).depth() as nat,
            ),
            final(self).depth() == old(self).depth(),
            final(self).format() == old(self).format(),
    {
        match self.format {
            Format::Pretty { indentation } => {
                self.buf.push('\n');
                let mut i: u32 = 0;
                assert(self@ =~= old(self)@ + (seq!['\n'] + repeated(indentation@, 0)));
                while i < self.depth
                    invariant
                        i <= self.depth,
                        self.depth == old(self).depth,
                        self.format == old(self).format,
                        self.format == (Format::Pretty { indentation }),
                        self@ == old(self)@ + (seq!['\n'] + repeated(indentation@, i as nat)),
                    decreases self.depth - i,
                {
                    self.buf.append(indentation);
                    i += 1;
                    assert(self@ =~= old(self)@ + (seq!['\n'] + repeated(
                        indentation@,
                        i as nat,
                    )));
                }
            },
            Format::Terse => {
                assert(self@ =~= old(self)@ + Seq::<char>::empty());
            },
        }
    }
}

} // verus!
