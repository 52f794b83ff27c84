use ogrim::escape::escape_into;

fn escape(s: &str, escape_quote: bool) -> String {
    let mut out = String::new();
    escape_into(&mut out, s, escape_quote);
    out
}

fn decode(t: &str) -> String {
    let mut out = String::new();
    let mut rest = t;
    while let Some(c) = rest.chars().next() {
        let mut taken = false;
        for (entity, ch) in [("&lt;", '<'), ("&gt;", '>'), ("&amp;", '&'), ("&quot;", '"')] {
            if rest.starts_with(entity) {
                out.push(ch);
                rest = &rest[entity.len()..];
                taken = true;
                break;
            }
        }
        if !taken {
            out.push(c);
            rest = &rest[c.len_utf8()..];
        }
    }
    out
}

#[test]
fn safe_text_is_unchanged() {
    for s in ["", "hello world", "Grüße, 世界", "a'b", "line\nbreak\ttab"] {
        assert_eq!(escape(s, true), s);
        assert_eq!(escape(s, false), s);
    }
    assert_eq!(escape("say \"hi\"", false), "say \"hi\"");
}

#[test]
fn each_special_character_becomes_its_entity() {
    assert_eq!(escape("<", false), "&lt;");
    assert_eq!(escape(">", false), "&gt;");
    assert_eq!(escape("&", false), "&amp;");
    assert_eq!(escape("\"", false), "\"");
    assert_eq!(escape("<", true), "&lt;");
    assert_eq!(escape(">", true), "&gt;");
    assert_eq!(escape("&", true), "&amp;");
    assert_eq!(escape("\"", true), "&quot;");
}

#[test]
fn escaping_appends_to_what_is_there() {
    let mut out = String::from("x=");
    escape_into(&mut out, "a<b", false);
    assert_eq!(out, "x=a&lt;b");
}

#[test]
fn mixed_text_is_escaped_in_place() {
    assert_eq!(escape("a\"b<c&d", true), "a&quot;b&lt;c&amp;d");
    assert_eq!(escape("a\"b<c&d", false), "a\"b&lt;c&amp;d");
    assert_eq!(escape("<<>>&&", false), "&lt;&lt;&gt;&gt;&amp;&amp;");
    assert_eq!(escape("é<ü", true), "é&lt;ü");
}

#[test]
fn escaped_text_holds_no_special_character() {
    for s in ["<a href=\"x\">T&C</a>", "&&&", "\"\"", "1 < 2 > 0", "&lt;"] {
        let t = escape(s, true);
        assert!(!t.contains('<'));
        assert!(!t.contains('>'));
        assert!(!t.contains('"'));
        for (i, c) in t.char_indices() {
            if c == '&' {
                let rest = &t[i..];
                assert!(
                    rest.starts_with("&lt;")
                        || rest.starts_with("&gt;")
                        || rest.starts_with("&amp;")
                        || rest.starts_with("&quot;")
                );
            }
        }
        let t = escape(s, false);
        assert!(!t.contains('<'));
        assert!(!t.contains('>'));
    }
}

#[test]
fn decoding_recovers_the_text() {
    for s in ["<a href=\"x\">T&C</a>", "&lt;", "&amp;quot;", "a&b;c", "", "plain", "\"&\"<>"] {
        assert_eq!(decode(&escape(s, true)), s);
        assert_eq!(decode(&escape(s, false)), s);
    }
}
