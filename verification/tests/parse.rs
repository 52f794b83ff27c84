use ogrim::ast::{Attr, AttrValue, Child, Element, Input, Name};
use ogrim::literal::string_literal;
use ogrim::parse::buf::ParseBuf;
use ogrim::token::{Delimiter, Group, Ident, Literal, Punct, Span, Token};

fn sp(tag: u64) -> Span {
    Span { tag }
}

fn id(text: &str, tag: u64) -> Token {
    Token::Ident(Ident { text: text.to_string(), span: sp(tag) })
}

fn p(ch: char, tag: u64) -> Token {
    Token::Punct(Punct { ch, span: sp(tag) })
}

fn lit(text: &str, tag: u64) -> Token {
    Token::Literal(Literal { text: text.to_string(), span: sp(tag) })
}

fn group(delimiter: Delimiter, stream: Vec<Token>, tag: u64) -> Token {
    Token::Group(Group { delimiter, stream, span: sp(tag) })
}

/// Tokens from a compact notation: each character that is not part of a
/// word is one punctuation token, words are identifiers, and `"..."` is a
/// string literal. Spaces separate. Tags count from 0.
fn toks(src: &str) -> Vec<Token> {
    let mut out = Vec::new();
    let chars: Vec<char> = src.chars().collect();
    let mut i = 0;
    while i < chars.len() {
        let c = chars[i];
        let tag = out.len() as u64;
        if c == ' ' {
            i += 1;
        } else if c == '"' {
            let mut j = i + 1;
            while chars[j] != '"' {
                j += 1;
            }
            out.push(lit(&chars[i..=j].iter().collect::<String>(), tag));
            i = j + 1;
        } else if c.is_ascii_digit() {
            let mut j = i;
            while j < chars.len() && chars[j].is_ascii_alphanumeric() {
                j += 1;
            }
            out.push(lit(&chars[i..j].iter().collect::<String>(), tag));
            i = j;
        } else if c.is_alphabetic() || c == '_' {
            let mut j = i;
            while j < chars.len() && (chars[j].is_alphanumeric() || chars[j] == '_') {
                j += 1;
            }
            out.push(id(&chars[i..j].iter().collect::<String>(), tag));
            i = j;
        } else {
            out.push(p(c, tag));
            i += 1;
        }
    }
    out
}

fn parse_name(src: &str) -> (Result<Name, ogrim::Error>, Vec<Token>) {
    let mut buf = ParseBuf::from_stream(toks(src));
    let res = Name::parse(&mut buf);
    (res, buf.collect_rest())
}

fn name_of(src: &str) -> String {
    parse_name(src).0.unwrap().0
}

#[test]
fn name_of_ident_colon_ident() {
    let tokens = vec![id("foo", 0), p(':', 1), id("bar", 2)];
    let mut buf = ParseBuf::from_stream(tokens);
    let name = Name::parse(&mut buf).unwrap();
    assert_eq!(name.0, "foo:bar");
    assert_eq!(name.as_str(), "foo:bar");
    assert!(buf.expect_eof().is_ok());
}

#[test]
fn name_stops_before_a_second_word() {
    let (res, rest) = parse_name("foo bar");
    assert_eq!(res.unwrap().0, "foo");
    assert_eq!(rest.len(), 1);
    let (res, rest) = parse_name("foo:bar baz=");
    assert_eq!(res.unwrap().0, "foo:bar");
    assert_eq!(rest.len(), 2);
}

#[test]
fn name_takes_a_word_after_punctuation() {
    assert_eq!(name_of("foo:bar:baz"), "foo:bar:baz");
    assert_eq!(name_of("foo:bar: baz"), "foo:bar:baz");
    assert_eq!(name_of("a-b.c"), "a-b.c");
    assert_eq!(name_of("a--b"), "a--b");
    assert_eq!(name_of(":x"), ":x");
    assert_eq!(name_of("xmlns:dc ="), "xmlns:dc");
}

#[test]
fn name_takes_numbers_after_punctuation_only() {
    assert_eq!(name_of("foo-2"), "foo-2");
    assert_eq!(name_of("a.14e"), "a.14e");
    let (res, rest) = parse_name("foo 27");
    assert_eq!(res.unwrap().0, "foo");
    assert_eq!(rest.len(), 1);
}

#[test]
fn name_stops_at_other_tokens() {
    let (res, rest) = parse_name("foo>");
    assert_eq!(res.unwrap().0, "foo");
    assert_eq!(rest.len(), 1);
    let (res, rest) = parse_name("foo=\"x\"");
    assert_eq!(res.unwrap().0, "foo");
    assert_eq!(rest.len(), 2);
    let mut buf = ParseBuf::from_stream(vec![id("a", 0), group(Delimiter::Brace, vec![], 1)]);
    assert_eq!(Name::parse(&mut buf).unwrap().0, "a");
    assert_eq!(buf.collect_rest().len(), 1);
}

#[test]
fn name_from_a_string_literal() {
    let mut buf = ParseBuf::from_stream(vec![lit("\"weird3.14exml-name:\"", 0), id("x", 1)]);
    assert_eq!(Name::parse(&mut buf).unwrap().0, "weird3.14exml-name:");
    assert_eq!(buf.collect_rest().len(), 1);
    let mut buf = ParseBuf::from_stream(vec![lit("r#\"a:b\"#", 0)]);
    assert_eq!(Name::parse(&mut buf).unwrap().0, "a:b");
}

#[test]
fn name_from_an_invalid_string_literal_fails() {
    let mut buf = ParseBuf::from_stream(vec![lit("\"a b\"", 7)]);
    let err = Name::parse(&mut buf).unwrap_err();
    assert_eq!(err.msg, "string contains characters that are not allowed in XML names");
    assert_eq!(err.span, Some(sp(7)));
}

#[test]
fn name_expected() {
    let (res, rest) = parse_name("= x");
    let err = res.unwrap_err();
    assert_eq!(err.msg, "expected name");
    assert_eq!(err.span, Some(sp(0)));
    assert_eq!(rest.len(), 2);
    let mut buf = ParseBuf::from_stream(vec![lit("'c'", 3)]);
    let err = Name::parse(&mut buf).unwrap_err();
    assert_eq!(err.msg, "expected name");
    assert_eq!(err.span, Some(sp(3)));
}

#[test]
fn name_at_end_of_input() {
    let mut buf = ParseBuf::from_stream(vec![]);
    let err = Name::parse(&mut buf).unwrap_err();
    assert_eq!(err.msg, "unexpected end of input");
    assert_eq!(err.span, None);
    let g = Group { delimiter: Delimiter::Brace, stream: vec![], span: sp(9) };
    let mut buf = ParseBuf::from_group(g);
    let err = Name::parse(&mut buf).unwrap_err();
    assert_eq!(err.msg, "unexpected end of input");
    assert_eq!(err.span, Some(sp(9)));
}

#[test]
fn name_that_is_no_xml_name_fails() {
    let (res, _) = parse_name("-foo");
    let err = res.unwrap_err();
    assert_eq!(err.msg, "name '-foo' is not a valid XML name");
    assert_eq!(err.span, Some(sp(0)));
    let (res, _) = parse_name("27");
    assert_eq!(res.unwrap_err().msg, "name '27' is not a valid XML name");
    let mut buf = ParseBuf::from_stream(vec![id("a\u{2054}b", 0)]);
    assert_eq!(Name::parse(&mut buf).unwrap_err().msg, "name 'a\u{2054}b' is not a valid XML name");
}

#[test]
fn string_literals_are_decoded() {
    assert_eq!(string_literal("\"hi\""), Some("hi".to_string()));
    assert_eq!(string_literal("\"a\\nb\\\"c\""), Some("a\nb\"c".to_string()));
    assert_eq!(string_literal("r#\"a\"b<c&d\"#"), Some("a\"b<c&d".to_string()));
    assert_eq!(string_literal("\"\\u{e9}\""), Some("é".to_string()));
    assert_eq!(string_literal("\"Grüße\""), Some("Grüße".to_string()));
    assert_eq!(string_literal("\"\""), Some(String::new()));
    assert_eq!(string_literal("27"), None);
    assert_eq!(string_literal("'c'"), None);
    assert_eq!(string_literal("b\"x\""), None);
    assert_eq!(string_literal("\"open"), None);
    assert_eq!(string_literal(""), None);
    assert_eq!(string_literal("hi"), None);
}

#[test]
fn string_literal_ending_in_a_long_character_is_none() {
    assert_eq!(string_literal("\"a\\né"), None);
    assert_eq!(string_literal("\"a\"é"), None);
}

#[test]
fn buffer_peeks_and_advances() {
    let mut buf = ParseBuf::from_stream(toks("a b c"));
    assert!(matches!(buf.curr(), Ok(Token::Ident(i)) if i.text == "a"));
    assert!(matches!(buf.next(), Ok(Token::Ident(i)) if i.text == "b"));
    assert!(matches!(buf.bump(), Ok(Token::Ident(i)) if i.text == "a"));
    assert!(matches!(buf.curr(), Ok(Token::Ident(i)) if i.text == "b"));
    assert!(matches!(buf.next(), Ok(Token::Ident(i)) if i.text == "c"));
    assert!(matches!(buf.bump(), Ok(Token::Ident(i)) if i.text == "b"));
    assert!(buf.curr().is_ok());
    assert_eq!(buf.next().unwrap_err().msg, "unexpected end of input");
    assert_eq!(buf.expect_eof().unwrap_err().msg, "unexpected extra token");
    assert_eq!(buf.expect_eof().unwrap_err().span, Some(sp(2)));
    assert!(buf.bump().is_ok());
    assert_eq!(buf.curr().unwrap_err().msg, "unexpected end of input");
    assert_eq!(buf.bump().unwrap_err().msg, "unexpected end of input");
    assert_eq!(buf.eof_err().span, None);
    assert!(buf.expect_eof().is_ok());
}

#[test]
fn buffer_expectations() {
    let mut buf = ParseBuf::from_stream(vec![
        p('<', 0),
        id("x", 1),
        lit("\"s\"", 2),
        group(Delimiter::Bracket, vec![id("in", 0)], 3),
        p('>', 4),
        id("y", 5),
        lit("1", 6),
        group(Delimiter::Brace, vec![], 7),
    ]);
    assert_eq!(buf.expect_punct('<').unwrap().ch, '<');
    assert_eq!(buf.expect_ident().unwrap().text, "x");
    assert_eq!(buf.expect_string_lit().unwrap(), "s");
    let g = buf.expect_group(Delimiter::Bracket).unwrap();
    assert_eq!(g.stream.len(), 1);
    let err = buf.expect_punct('/').unwrap_err();
    assert_eq!(err.msg, "expected '/'");
    assert_eq!(err.span, Some(sp(4)));
    let err = buf.expect_string_lit().unwrap_err();
    assert_eq!(err.msg, "expected string literal");
    assert_eq!(err.span, Some(sp(5)));
    let err = buf.expect_ident().unwrap_err();
    assert_eq!(err.msg, "expected identifier");
    assert_eq!(err.span, Some(sp(6)));
    let err = buf.expect_group(Delimiter::Bracket).unwrap_err();
    assert_eq!(err.msg, "expected Bracket delimited group");
    assert_eq!(err.span, Some(sp(7)));
    assert_eq!(buf.expect_punct('x').unwrap_err().msg, "unexpected end of input");
}

#[test]
fn buffer_group_messages() {
    for (d, name) in [
        (Delimiter::Parenthesis, "Parenthesis"),
        (Delimiter::Brace, "Brace"),
        (Delimiter::Bracket, "Bracket"),
        (Delimiter::Invisible, "None"),
    ] {
        let mut buf = ParseBuf::from_stream(toks("a"));
        let err = buf.expect_group(d).unwrap_err();
        assert_eq!(err.msg, format!("expected {} delimited group", name));
    }
}

#[test]
fn buffer_collects_the_rest_in_order() {
    let mut buf = ParseBuf::from_stream(toks("a b c d"));
    let _ = buf.bump();
    let rest = buf.collect_rest();
    let texts: Vec<String> = rest
        .iter()
        .map(|t| match t {
            Token::Ident(i) => i.text.clone(),
            _ => String::new(),
        })
        .collect();
    assert_eq!(texts, vec!["b", "c", "d"]);
}

fn element_of(tokens: Vec<Token>) -> Result<Element, ogrim::Error> {
    let mut buf = ParseBuf::from_stream(tokens);
    let _ = buf.expect_punct('<');
    Element::parse(&mut buf)
}

#[test]
fn self_closing_element() {
    let e = element_of(toks("<foo/>")).unwrap();
    assert_eq!(e.name.0, "foo");
    assert!(e.empty);
    assert!(e.attrs.is_empty());
    assert!(e.children.is_empty());
}

#[test]
fn element_with_attributes_and_children() {
    let mut tokens = toks("<zoo name=\"Lorem Ipsum\" openingYear=");
    tokens.push(group(Delimiter::Brace, toks("2000 + 13"), 100));
    tokens.extend(toks("><cat>"));
    tokens.push(group(Delimiter::Brace, toks("cat_name"), 101));
    tokens.extend(toks("</cat><dog>\"Barbara\"</></zoo>"));
    let e = element_of(tokens).unwrap();
    assert_eq!(e.name.0, "zoo");
    assert!(!e.empty);
    assert_eq!(e.attrs.len(), 2);
    match &e.attrs[0] {
        Attr::Single(n, AttrValue::Literal(v)) => {
            assert_eq!(n.0, "name");
            assert_eq!(v, "Lorem Ipsum");
        }
        other => panic!("{:?}", other),
    }
    match &e.attrs[1] {
        Attr::Single(n, AttrValue::Expr(v)) => {
            assert_eq!(n.0, "openingYear");
            assert_eq!(v.len(), 3);
        }
        other => panic!("{:?}", other),
    }
    assert_eq!(e.children.len(), 2);
    match &e.children[0] {
        Child::Element(cat) => {
            assert_eq!(cat.name.0, "cat");
            assert!(matches!(&cat.children[0], Child::TextExpr(v) if v.len() == 1));
        }
        other => panic!("{:?}", other),
    }
    match &e.children[1] {
        Child::Element(dog) => {
            assert_eq!(dog.name.0, "dog");
            assert!(matches!(&dog.children[0], Child::Text(t) if t == "Barbara"));
        }
        other => panic!("{:?}", other),
    }
}

#[test]
fn fill_attributes_keep_source_order() {
    let mut tokens = toks("<root");
    tokens.push(group(Delimiter::Brace, toks("..first"), 50));
    tokens.extend(toks("bar=\"green\""));
    tokens.push(group(Delimiter::Brace, toks("..map.iter()"), 51));
    tokens.extend(toks("></>"));
    let e = element_of(tokens).unwrap();
    assert_eq!(e.attrs.len(), 3);
    assert!(matches!(&e.attrs[0], Attr::Fill(x) if x.len() == 1));
    assert!(matches!(&e.attrs[1], Attr::Single(n, _) if n.0 == "bar"));
    assert!(matches!(&e.attrs[2], Attr::Fill(x) if x.len() == 5));
}

#[test]
fn fill_attribute_needs_two_dots() {
    let mut tokens = toks("<root");
    tokens.push(group(Delimiter::Brace, toks(".x"), 50));
    tokens.extend(toks("/>"));
    let err = element_of(tokens).unwrap_err();
    assert_eq!(err.msg, "expected '.'");
    let mut tokens = toks("<root");
    tokens.push(group(Delimiter::Brace, vec![], 50));
    tokens.extend(toks("/>"));
    let err = element_of(tokens).unwrap_err();
    assert_eq!(err.msg, "unexpected end of input");
    assert_eq!(err.span, Some(sp(50)));
}

#[test]
fn continuation_child() {
    let mut tokens = toks("<items>");
    tokens.push(group(Delimiter::Brace, toks("|doc| make_items(doc)"), 60));
    tokens.extend(toks("</items>"));
    let e = element_of(tokens).unwrap();
    match &e.children[0] {
        Child::Closure { arg, body } => {
            assert_eq!(arg.text, "doc");
            assert_eq!(body.len(), 4);
        }
        other => panic!("{:?}", other),
    }
}

#[test]
fn continuation_child_needs_an_identifier() {
    let mut tokens = toks("<items>");
    tokens.push(group(Delimiter::Brace, toks("| 3 | x"), 60));
    tokens.extend(toks("</items>"));
    assert_eq!(element_of(tokens).unwrap_err().msg, "expected identifier");
    let mut tokens = toks("<items>");
    tokens.push(group(Delimiter::Brace, toks("|doc x"), 60));
    tokens.extend(toks("</items>"));
    assert_eq!(element_of(tokens).unwrap_err().msg, "expected '|'");
}

#[test]
fn mismatched_end_tag_fails() {
    let err = element_of(toks("<foo>\"x\"</bar>")).unwrap_err();
    assert!(err.msg.contains("does not match"));
    assert_eq!(err.msg, "end tag 'bar' does not match start tag 'foo'");
    assert_eq!(err.span, Some(sp(4)));
}

#[test]
fn mismatched_end_tag_fails_for_whole_input() {
    let res = Input::parse_input(toks("<?xml version=\"1.0\"?><foo><a/></bar>"));
    let err = res.unwrap_err();
    assert!(err.msg.contains("does not match"));
}

#[test]
fn element_errors() {
    assert_eq!(element_of(toks("<foo>")).unwrap_err().msg, "unexpected end of input");
    assert_eq!(element_of(toks("<foo><")).unwrap_err().msg, "unexpected end of input");
    assert_eq!(element_of(toks("<foo")).unwrap_err().msg, "unexpected end of input");
    assert_eq!(element_of(toks("<foo/")).unwrap_err().msg, "unexpected end of input");
    assert_eq!(element_of(toks("<foo/ x")).unwrap_err().msg, "expected '>'");
    assert_eq!(element_of(toks("<foo a \"x\">")).unwrap_err().msg, "expected '='");
    assert_eq!(
        element_of(toks("<foo a=b>")).unwrap_err().msg,
        "expected attribute value: string literal or {...}"
    );
    assert_eq!(element_of(toks("<foo a=1>")).unwrap_err().msg, "expected string literal");
    assert_eq!(
        element_of(toks("<foo>x</foo>")).unwrap_err().msg,
        "expected element child: string literal, {...} or '<'"
    );
    assert_eq!(element_of(toks("<foo>1</foo>")).unwrap_err().msg, "expected string literal");
    assert_eq!(element_of(toks("<foo></foo x")).unwrap_err().msg, "expected '>'");
    assert_eq!(element_of(toks("<>")).unwrap_err().msg, "expected name");
}

#[test]
fn attr_value_parses_alone() {
    let mut buf = ParseBuf::from_stream(toks("\"a&b\" x"));
    assert!(matches!(AttrValue::parse(&mut buf), Ok(AttrValue::Literal(v)) if v == "a&b"));
    assert_eq!(buf.collect_rest().len(), 1);
    let mut buf = ParseBuf::from_stream(vec![group(Delimiter::Parenthesis, vec![], 0)]);
    assert!(AttrValue::parse(&mut buf).is_err());
    let mut buf = ParseBuf::from_stream(vec![]);
    assert_eq!(AttrValue::parse(&mut buf).unwrap_err().msg, "unexpected end of input");
}

#[test]
fn child_parses_alone() {
    let mut buf = ParseBuf::from_stream(toks("\"hi\" \"there\""));
    assert!(matches!(Child::parse(&mut buf), Ok(Child::Text(v)) if v == "hi"));
    assert!(matches!(Child::parse(&mut buf), Ok(Child::Text(v)) if v == "there"));
    assert_eq!(Child::parse(&mut buf).unwrap_err().msg, "unexpected end of input");
    let mut buf = ParseBuf::from_stream(toks("<a/>"));
    assert!(matches!(Child::parse(&mut buf), Ok(Child::Element(e)) if e.name.0 == "a"));
}

#[test]
fn input_with_prolog() {
    let input = Input::parse_input(toks("<?xml version=\"1.0\" ?><foo/>")).unwrap();
    assert!(input.buffer.is_none());
    assert!(input.format.is_none());
    let prolog = input.prolog.unwrap();
    assert_eq!(prolog.version, "1.0");
    assert_eq!(prolog.standalone, None);
    assert_eq!(input.root.name.0, "foo");
}

#[test]
fn input_with_full_prolog() {
    let input = Input::parse_input(toks(
        "<?xml version=\"1.1\" encoding=\"UTF-8\" standalone=\"yes\"?><a></a>",
    ))
    .unwrap();
    let prolog = input.prolog.unwrap();
    assert_eq!(prolog.version, "1.1");
    assert_eq!(prolog.standalone, Some("yes".to_string()));
}

#[test]
fn input_with_format_directive() {
    let mut tokens = vec![p('#', 0)];
    tokens.push(group(Delimiter::Bracket, toks("format = Format::Terse"), 1));
    tokens.extend(toks("<?xml version=\"1.0\"?><foo/>"));
    let input = Input::parse_input(tokens).unwrap();
    assert_eq!(input.format.unwrap().len(), 4);
    assert!(input.prolog.is_some());
}

#[test]
fn input_with_unknown_directive_fails() {
    let mut tokens = vec![p('#', 0)];
    tokens.push(group(Delimiter::Bracket, toks("indent = 2"), 1));
    tokens.extend(toks("<foo/>"));
    let err = Input::parse_input(tokens).unwrap_err();
    assert_eq!(err.msg, "unsupported global attribute 'indent'");
    assert_eq!(err.span, Some(sp(0)));
}

#[test]
fn input_with_buffer_expression() {
    let input = Input::parse_input(toks("self.doc, <foo>\"Peter\"</foo>")).unwrap();
    assert_eq!(input.buffer.unwrap().len(), 3);
    assert!(input.prolog.is_none());
    assert_eq!(input.root.name.0, "foo");
}

#[test]
fn input_with_buffer_expression_without_comma_fails() {
    let err = Input::parse_input(toks("doc")).unwrap_err();
    assert_eq!(err.msg, "unexpected end of input");
}

#[test]
fn input_with_extra_tokens_fails() {
    let err = Input::parse_input(toks("<?xml version=\"1.0\"?><foo/> x")).unwrap_err();
    assert_eq!(err.msg, "unexpected extra token");
}

#[test]
fn input_that_is_empty_fails() {
    let err = Input::parse_input(vec![]).unwrap_err();
    assert_eq!(err.msg, "unexpected end of input");
    assert_eq!(err.span, None);
    let err = Input::parse_input(toks("<")).unwrap_err();
    assert_eq!(err.msg, "unexpected end of input");
}

#[test]
fn prolog_errors() {
    let err = Input::parse_input(toks("<?html version=\"1.0\"?><a/>")).unwrap_err();
    assert_eq!(err.msg, "expected 'xml'");
    assert_eq!(err.span, Some(sp(2)));
    let err = Input::parse_input(toks("<?xml ?><a/>")).unwrap_err();
    assert_eq!(err.msg, "expected 'version'");
    assert_eq!(err.span, Some(sp(3)));
    let err = Input::parse_input(toks("<?xml encoding=\"UTF-8\"?><a/>")).unwrap_err();
    assert_eq!(err.msg, "expected 'version' (prolog attributes have a fixed order)");
    let err = Input::parse_input(toks("<?xml version=\"1.0\" standalone=\"yes\"?><a/>"))
        .unwrap_err();
    assert_eq!(err.msg, "expected 'encoding' (prolog attributes have a fixed order)");
    let err = Input::parse_input(toks(
        "<?xml version=\"1.0\" encoding=\"UTF-8\" version=\"1.0\"?><a/>",
    ))
    .unwrap_err();
    assert_eq!(err.msg, "expected 'standalone' (prolog attributes have a fixed order)");
    let err = Input::parse_input(toks("<?xml version=\"1.0\" encoding=\"latin1\"?><a/>"))
        .unwrap_err();
    assert_eq!(err.msg, "only encoding 'UTF-8' is allowed");
    assert_eq!(err.span, None);
    let err = Input::parse_input(toks("<?xml version=\"1.0\" ><a/>")).unwrap_err();
    assert_eq!(err.msg, "expected identifier");
    let err = Input::parse_input(toks("<?xml version=1 ?><a/>")).unwrap_err();
    assert_eq!(err.msg, "expected string literal");
    let err = Input::parse_input(toks("<?xml version=\"1.0\"? <a/>")).unwrap_err();
    assert_eq!(err.msg, "expected '>'");
    let err = Input::parse_input(toks("<?xml")).unwrap_err();
    assert_eq!(err.msg, "unexpected end of input");
}

#[test]
fn names_are_made_of_xml_names_only() {
    assert_eq!(Name::new("atom:link".to_string()).unwrap().as_str(), "atom:link");
    assert!(Name::new("a b".to_string()).is_none());
    assert!(Name::new(String::new()).is_none());
}

#[test]
fn token_span_and_punct() {
    assert_eq!(id("a", 4).span(), sp(4));
    assert_eq!(p('<', 5).span(), sp(5));
    assert_eq!(lit("1", 6).span(), sp(6));
    assert_eq!(group(Delimiter::Brace, vec![], 7).span(), sp(7));
    assert!(p('<', 0).is_punct('<'));
    assert!(!p('<', 0).is_punct('>'));
    assert!(!id("a", 0).is_punct('a'));
}

#[test]
fn later_directive_and_buffer_replace_earlier_ones() {
    let mut tokens = vec![p('#', 0)];
    tokens.push(group(Delimiter::Bracket, toks("format = a"), 1));
    tokens.extend(toks("x,"));
    tokens.push(p('#', 10));
    tokens.push(group(Delimiter::Bracket, toks("format = b c"), 11));
    tokens.extend(toks("y z, <foo/>"));
    let input = Input::parse_input(tokens).unwrap();
    assert_eq!(input.format.unwrap().len(), 2);
    assert_eq!(input.buffer.unwrap().len(), 2);
}

#[test]
fn nested_elements_close_in_order() {
    let e = element_of(toks("<a><b><c></c></b><d/></a>")).unwrap();
    assert_eq!(e.children.len(), 2);
    let err = element_of(toks("<a><b></a></b>")).unwrap_err();
    assert_eq!(err.msg, "end tag 'a' does not match start tag 'b'");
    assert_eq!(err.span, Some(sp(6)));
}
