use ogrim::ast::{AttrValue, Input};
use ogrim::emit::{emit, Call, Target};
use ogrim::render::{render, run, step};
use ogrim::token::{Delimiter, Group, Ident, Literal, Punct, Span, Token};
use ogrim::{Document, Format, Version};

fn tok(text: &str, tag: u64) -> Token {
    let span = Span { tag };
    let first = text.chars().next().unwrap();
    if first == '"' || first.is_ascii_digit() || text.starts_with("r#") {
        Token::Literal(Literal { text: text.to_string(), span })
    } else if first.is_alphabetic() || first == '_' {
        Token::Ident(Ident { text: text.to_string(), span })
    } else {
        Token::Punct(Punct { ch: first, span })
    }
}

fn stream(parts: &[&str]) -> Vec<Token> {
    parts.iter().enumerate().map(|(i, p)| tok(p, i as u64)).collect()
}

fn brace(parts: &[&str]) -> Token {
    Token::Group(Group { delimiter: Delimiter::Brace, stream: stream(parts), span: Span { tag: 99 } })
}

fn shape(calls: &[Call]) -> Vec<String> {
    calls
        .iter()
        .map(|c| match c {
            Call::OpenTag(n) => format!("open {}", n),
            Call::Attr(n, AttrValue::Literal(v)) => format!("attr {}={}", n, v),
            Call::Attr(n, AttrValue::Expr(e)) => format!("attr {}=expr{}", n, e.len()),
            Call::Attrs(e) => format!("attrs expr{}", e.len()),
            Call::CloseStartTag => "close_start".to_string(),
            Call::CloseEmptyElemTag => "close_empty".to_string(),
            Call::Text(t) => format!("text {}", t),
            Call::TextExpr(e) => format!("text expr{}", e.len()),
            Call::Closure { arg, body } => format!("closure {} {}", arg.text, body.len()),
            Call::EndTag(n) => format!("end {}", n),
        })
        .collect()
}

#[test]
fn calls_of_a_self_closing_root() {
    let input =
        Input::parse_input(stream(&["<", "?", "xml", "version", "=", "\"1.0\"", "?", ">", "<", "foo", "/", ">"]))
            .unwrap();
    let program = emit(&input).unwrap();
    assert!(matches!(
        program.target,
        Target::New { version: Version::V1_0, standalone: None, format: None }
    ));
    assert_eq!(shape(&program.calls), vec!["open foo", "close_empty"]);
    assert_eq!(
        render(&input, Format::Terse).unwrap(),
        r#"<?xml version="1.0" encoding="UTF-8"?><foo/>"#
    );
}

#[test]
fn calls_of_a_root_with_text() {
    let input = Input::parse_input(stream(&[
        "<", "?", "xml", "version", "=", "\"1.0\"", "?", ">", "<", "foo", ">", "\"hi\"", "<", "/",
        "foo", ">",
    ]))
    .unwrap();
    let program = emit(&input).unwrap();
    assert_eq!(shape(&program.calls), vec!["open foo", "close_start", "text hi", "end foo"]);
    assert_eq!(
        render(&input, Format::Pretty { indentation: "  " }).unwrap(),
        "<?xml version=\"1.0\" encoding=\"UTF-8\"?>\n<foo>\n  hi\n</foo>\n"
    );
}

#[test]
fn calls_keep_source_order() {
    let mut tokens = stream(&["doc", ",", "<", "a", "x", "=", "\"1\""]);
    tokens.push(brace(&[".", ".", "more"]));
    tokens.extend(stream(&["y", "="]));
    tokens.push(brace(&["1", "+", "1"]));
    tokens.extend(stream(&[">", "\"t\""]));
    tokens.push(brace(&["value"]));
    tokens.push(brace(&["|", "d", "|", "fill", "(", "d", ")"]));
    tokens.extend(stream(&["<", "b", "/", ">", "<", "c", ">", "<", "/", ">", "<", "/", "a", ">"]));
    let input = Input::parse_input(tokens).unwrap();
    let program = emit(&input).unwrap();
    assert!(matches!(program.target, Target::Existing(b) if b.len() == 1));
    assert_eq!(
        shape(&program.calls),
        vec![
            "open a",
            "attr x=1",
            "attrs expr1",
            "attr y=expr3",
            "close_start",
            "text t",
            "text expr1",
            "closure d 4",
            "open b",
            "close_empty",
            "open c",
            "close_start",
            "end c",
            "end a",
        ]
    );
}

#[test]
fn calls_are_balanced() {
    let tokens = stream(&[
        "<", "?", "xml", "version", "=", "\"1.1\"", "?", ">", "<", "a", ">", "<", "b", ">", "<",
        "c", "/", ">", "\"x\"", "<", "/", "b", ">", "<", "d", "/", ">", "<", "e", ">", "<", "/",
        ">", "<", "/", "a", ">",
    ]);
    let input = Input::parse_input(tokens).unwrap();
    let program = emit(&input).unwrap();
    let mut opened = 0;
    let mut finished = 0;
    let mut depth: i64 = 0;
    for call in &program.calls {
        match call {
            Call::OpenTag(_) => opened += 1,
            Call::CloseEmptyElemTag => finished += 1,
            Call::CloseStartTag => depth += 1,
            Call::EndTag(_) => {
                assert!(depth > 0);
                depth -= 1;
                finished += 1;
            }
            _ => {}
        }
        assert!(depth >= 0);
    }
    assert_eq!(opened, 5);
    assert_eq!(finished, 5);
    assert_eq!(depth, 0);
    assert_eq!(
        render(&input, Format::Terse).unwrap(),
        r#"<?xml version="1.1" encoding="UTF-8"?><a><b><c/>x</b><d/><e></e></a>"#
    );
    assert_eq!(
        render(&input, Format::Pretty { indentation: "\t" }).unwrap(),
        [
            "<?xml version=\"1.1\" encoding=\"UTF-8\"?>\n",
            "<a>\n",
            "\t<b>\n",
            "\t\t<c />\n",
            "\t\tx\n",
            "\t</b>\n",
            "\t<d />\n",
            "\t<e>\n",
            "\t</e>\n",
            "</a>\n",
        ]
        .join("")
    );
}

#[test]
fn new_document_with_standalone_and_format() {
    let mut tokens = stream(&["#"]);
    tokens.push(Token::Group(Group {
        delimiter: Delimiter::Bracket,
        stream: stream(&["format", "=", "f"]),
        span: Span { tag: 1 },
    }));
    tokens.extend(stream(&[
        "<", "?", "xml", "version", "=", "\"1.1\"", "encoding", "=", "\"UTF-8\"", "standalone",
        "=", "\"no\"", "?", ">", "<", "r", "/", ">",
    ]));
    let input = Input::parse_input(tokens).unwrap();
    let program = emit(&input).unwrap();
    match program.target {
        Target::New { version, standalone, format } => {
            assert_eq!(version, Version::V1_1);
            assert_eq!(standalone, Some(false));
            assert_eq!(format.unwrap().len(), 1);
        }
        other => panic!("{:?}", other),
    }
}

#[test]
fn missing_prolog_without_buffer_fails() {
    let input = Input::parse_input(stream(&["<", "foo", "/", ">"])).unwrap();
    let err = emit(&input).unwrap_err();
    assert_eq!(err.msg, "you have to specify either a buffer to write into or an XML prolog");
    assert_eq!(err.span, None);
}

#[test]
fn unknown_version_fails() {
    let input = Input::parse_input(stream(&[
        "<", "?", "xml", "version", "=", "\"2.0\"", "?", ">", "<", "foo", "/", ">",
    ]))
    .unwrap();
    assert_eq!(emit(&input).unwrap_err().msg, "invalid version '2.0'");
}

#[test]
fn unknown_standalone_value_fails() {
    let input = Input::parse_input(stream(&[
        "<", "?", "xml", "version", "=", "\"1.0\"", "encoding", "=", "\"UTF-8\"", "standalone",
        "=", "\"maybe\"", "?", ">", "<", "foo", "/", ">",
    ]))
    .unwrap();
    assert_eq!(emit(&input).unwrap_err().msg, "invalid standalone value 'maybe'");
}

#[test]
fn buffer_makes_the_prolog_optional() {
    let input = Input::parse_input(stream(&[
        "doc", ",", "<", "?", "xml", "version", "=", "\"9\"", "?", ">", "<", "foo", "/", ">",
    ]))
    .unwrap();
    let program = emit(&input).unwrap();
    assert!(matches!(program.target, Target::Existing(_)));
}

#[test]
fn render_escapes_literal_values() {
    let input = Input::parse_input(stream(&[
        "<", "?", "xml", "version", "=", "\"1.0\"", "?", ">", "<", "foo", "name", "=",
        "r#\"a\"b<c&d\"#", ">", "\"Little Bobby </foo> Tables\"", "<", "/", "foo", ">",
    ]))
    .unwrap();
    assert_eq!(
        render(&input, Format::Terse).unwrap(),
        [
            r#"<?xml version="1.0" encoding="UTF-8"?>"#,
            r#"<foo name="a&quot;b&lt;c&amp;d">Little Bobby &lt;/foo&gt; Tables</foo>"#,
        ]
        .join("")
    );
}

#[test]
fn render_needs_a_markup_without_host_expressions() {
    let mut tokens = stream(&["<", "?", "xml", "version", "=", "\"1.0\"", "?", ">", "<", "a", ">"]);
    tokens.push(brace(&["value"]));
    tokens.extend(stream(&["<", "/", ">"]));
    let input = Input::parse_input(tokens).unwrap();
    assert_eq!(
        render(&input, Format::Terse).unwrap_err().msg,
        "a host expression cannot be evaluated here"
    );
    let input = Input::parse_input(stream(&["doc", ",", "<", "a", "/", ">"])).unwrap();
    assert_eq!(
        render(&input, Format::Terse).unwrap_err().msg,
        "a host expression cannot be evaluated here"
    );
    let input = Input::parse_input(stream(&["<", "a", "/", ">"])).unwrap();
    assert_eq!(
        render(&input, Format::Terse).unwrap_err().msg,
        "you have to specify either a buffer to write into or an XML prolog"
    );
}

#[test]
fn run_stops_at_the_first_call_that_cannot_be_made() {
    let mut doc = Document::new(Version::V1_0, None, Format::Terse);
    let calls = [Call::OpenTag("a"), Call::CloseStartTag, Call::OpenTag("b c"), Call::CloseEmptyElemTag];
    let err = run(&mut doc, &calls).unwrap_err();
    assert_eq!(err.msg, "name 'b c' is not a valid XML name");
    assert_eq!(doc.as_str(), r#"<?xml version="1.0" encoding="UTF-8"?><a>"#);
    assert_eq!(doc.depth(), 1);
}

#[test]
fn step_refuses_an_end_tag_without_open_element() {
    let mut doc = Document::new(Version::V1_0, None, Format::Terse);
    assert!(!doc.can_end_tag());
    let err = step(&mut doc, &Call::EndTag("a")).unwrap_err();
    assert_eq!(err.msg, "end tag without an open element");
    assert_eq!(doc.as_str(), r#"<?xml version="1.0" encoding="UTF-8"?>"#);
}

#[test]
fn step_refuses_an_end_tag_inside_a_start_tag_when_pretty() {
    let mut doc = Document::new(Version::V1_0, None, Format::Pretty { indentation: "  " });
    assert!(step(&mut doc, &Call::OpenTag("a")).is_ok());
    assert!(step(&mut doc, &Call::CloseStartTag).is_ok());
    assert!(doc.can_end_tag());
    assert!(step(&mut doc, &Call::OpenTag("b")).is_ok());
    assert!(!doc.can_end_tag());
    assert!(step(&mut doc, &Call::EndTag("b")).is_err());
    assert!(step(&mut doc, &Call::CloseEmptyElemTag).is_ok());
    assert!(step(&mut doc, &Call::EndTag("a")).is_ok());
    assert_eq!(doc.depth(), 0);
    assert_eq!(
        doc.as_str(),
        "<?xml version=\"1.0\" encoding=\"UTF-8\"?>\n<a>\n  <b />\n</a>\n"
    );
}

#[test]
fn step_refuses_host_expressions() {
    let mut doc = Document::new(Version::V1_0, None, Format::Terse);
    let expr = stream(&["x"]);
    assert_eq!(
        step(&mut doc, &Call::TextExpr(&expr)).unwrap_err().msg,
        "a host expression cannot be evaluated here"
    );
    assert_eq!(
        step(&mut doc, &Call::Attrs(&expr)).unwrap_err().msg,
        "a host expression cannot be evaluated here"
    );
}
