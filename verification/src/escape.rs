//! Escaping of text and attribute values.

use vstd::prelude::*;
use vstd::string::StringExecFns;

verus! {

/// Whether `c` cannot stand for itself in the output. The quote does so
/// only inside attribute values.
pub open spec fn needs_escape(c: char, escape_quote: bool) -> bool {
    c == '<' || c == '>' || c == '&' || (escape_quote && c == '"')
}

/// The entity that stands for `c`, one of `< > & "`.
pub open spec fn entity(c: char) -> Seq<char> {
    if c == '<' {
        seq!['&', 'l', 't', ';']
    } else if c == '>' {
        seq!['&', 'g', 't', ';']
    } else if c == '&' {
        seq!['&', 'a', 'm', 'p', ';']
    } else {
        seq!['&', 'q', 'u', 'o', 't', ';']
    }
}

/// What is written for the single character `c`.
pub open spec fn escaped_char(c: char, escape_quote: bool) -> Seq<char> {
    if needs_escape(c, escape_quote) {
        entity(c)
    } else {
        seq![c]
    }
}

/// What is written for the text `s`: each character that needs it replaced
/// by its entity, every other character unchanged.
pub open spec fn escaped(s: Seq<char>, escape_quote: bool) -> Seq<char>
    decreases s.len(),
{
    if s.len() == 0 {
        Seq::empty()
    } else {
        escaped_char(s[0], escape_quote) + escaped(s.drop_first(), escape_quote)
    }
}

/// Whether `t` begins with `prefix`.
pub open spec fn starts_with(t: Seq<char>, prefix: Seq<char>) -> bool {
    prefix.len() <= t.len() && t.take(prefix.len() as int) == prefix
}

/// The text that `t` stands for: each entity of `< > & "` replaced by its
/// character, read from the left.
pub open spec fn unescaped(t: Seq<char>) -> Seq<char>
    decreases t.len(),
{
    if t.len() == 0 {
        Seq::empty()
    } else if starts_with(t, entity('<')) {
        seq!['<'] + unescaped(t.skip(4))
    } else if starts_with(t, entity('>')) {
        seq!['>'] + unescaped(t.skip(4))
    } else if starts_with(t, entity('&')) {
        seq!['&'] + unescaped(t.skip(5))
    } else if starts_with(t, entity('"')) {
        seq!['"'] + unescaped(t.skip(6))
    } else {
        seq![t[0]] + unescaped(t.drop_first())
    }
}

/// Whether an entity of `< > & "` begins at index `i` of `t`.
pub open spec fn entity_at(t: Seq<char>, i: int) -> bool {
    0 <= i <= t.len() && {
        ||| starts_with(t.skip(i), entity('<'))
        ||| starts_with(t.skip(i), entity('>'))
        ||| starts_with(t.skip(i), entity('&'))
        ||| starts_with(t.skip(i), entity('"'))
    }
}

/// Escaping goes character by character: the escaped form of a text with
/// one more character at its end is the escaped form of the text, then that
/// of the character.
pub proof fn lemma_escaped_push(s: Seq<char>, c: char, escape_quote: bool)
    ensures
        escaped(s.push(c), escape_quote) == escaped(s, escape_quote) + escaped_char(
            c,
            escape_quote,
        ),
    decreases s.len(),
{
    if s.len() == 0 {
        assert(s.push(c).drop_first() =~= Seq::<char>::empty());
        assert(escaped(s.push(c).drop_first(), escape_quote) =~= Seq::<char>::empty());
        assert(escaped(s.push(c), escape_quote) =~= escaped_char(c, escape_quote));
        assert(escaped(s, escape_quote) + escaped_char(c, escape_quote) =~= escaped_char(
            c,
            escape_quote,
        ));
    } else {
        assert(s.push(c).drop_first() =~= s.drop_first().push(c));
        lemma_escaped_push(s.drop_first(), c, escape_quote);
        assert(escaped(s.push(c), escape_quote) =~= escaped(s, escape_quote) + escaped_char(
            c,
            escape_quote,
        ));
    }
}

/// Text without any character that needs escaping is written unchanged.
pub proof fn lemma_safe_text_unchanged(s: Seq<char>, escape_quote: bool)
    requires
        forall|i: int| 0 <= i < s.len() ==> !needs_escape(#[trigger] s[i], escape_quote),
    ensures
        escaped(s, escape_quote) == s,
    decreases s.len(),
{
    if s.len() > 0 {
        assert(!needs_escape(s[0], escape_quote));
        assert forall|i: int| 0 <= i < s.drop_first().len() implies !needs_escape(
            #[trigger] s.drop_first()[i],
            escape_quote,
        ) by {
            assert(s.drop_first()[i] == s[i + 1]);
        }
        lemma_safe_text_unchanged(s.drop_first(), escape_quote);
        assert(seq![s[0]] + s.drop_first() =~= s);
    } else {
        assert(escaped(s, escape_quote) =~= s);
    }
}

/// Escaped text holds no `<` and no `>`, no `"` where quotes are escaped,
/// and no `&` but at the start of an entity.
pub proof fn lemma_escaped_is_safe(s: Seq<char>, escape_quote: bool)
    ensures
        forall|j: int|
            #![trigger escaped(s, escape_quote)[j]]
            0 <= j < escaped(s, escape_quote).len() ==> {
                let t = escaped(s, escape_quote);
                &&& t[j] != '<'
                &&& t[j] != '>'
                &&& escape_quote ==> t[j] != '"'
                &&& t[j] == '&' ==> entity_at(t, j)
            },
    decreases s.len(),
{
    let t = escaped(s, escape_quote);
    if s.len() > 0 {
        let head = escaped_char(s[0], escape_quote);
        let tail = escaped(s.drop_first(), escape_quote);
        lemma_escaped_is_safe(s.drop_first(), escape_quote);
        assert(t == head + tail);
        assert forall|j: int| 0 <= j < t.len() implies ({
            &&& t[j] != '<'
            &&& t[j] != '>'
            &&& escape_quote ==> t[j] != '"'
            &&& t[j] == '&' ==> entity_at(t, j)
        }) by {
            if j < head.len() {
                assert(t[j] == head[j]);
                if t[j] == '&' {
                    assert(j == 0);
                    assert(needs_escape(s[0], escape_quote));
                    assert(t.skip(0) =~= t);
                    assert(t.take(head.len() as int) =~= head);
                }
            } else {
                let k = j - head.len();
                assert(t[j] == tail[k]);
                if t[j] == '&' {
                    assert(entity_at(tail, k));
                    assert(t.skip(j) =~= tail.skip(k));
                }
            }
        }
    }
}

/// Reading the entities of escaped text back gives the text.
pub proof fn lemma_unescape_escaped(s: Seq<char>, escape_quote: bool)
    ensures
        unescaped(escaped(s, escape_quote)) == s,
    decreases s.len(),
{
    let t = escaped(s, escape_quote);
    if s.len() == 0 {
        assert(unescaped(t) =~= s);
    } else {
        let c = s[0];
        let head = escaped_char(c, escape_quote);
        let tail = escaped(s.drop_first(), escape_quote);
        lemma_unescape_escaped(s.drop_first(), escape_quote);
        assert(t == head + tail);
        assert(t.take(head.len() as int) =~= head);
        assert(t.skip(head.len() as int) =~= tail);
        assert(t[0] == head[0]);
        if needs_escape(c, escape_quote) {
            assert(t[1] == head[1]);
            assert(t[2] == head[2]);
            if c == '<' {
                assert(starts_with(t, entity('<')));
            } else if c == '>' {
                assert(!starts_with(t, entity('<'))) by {
                    if starts_with(t, entity('<')) {
                        assert(t.take(4)[1] == 'l');
                    }
                }
                assert(starts_with(t, entity('>')));
            } else if c == '&' {
                assert(!starts_with(t, entity('<'))) by {
                    if starts_with(t, entity('<')) {
                        assert(t.take(4)[1] == 'l');
                    }
                }
                assert(!starts_with(t, entity('>'))) by {
                    if starts_with(t, entity('>')) {
                        assert(t.take(4)[1] == 'g');
                    }
                }
                assert(starts_with(t, entity('&')));
            } else {
                assert(!starts_with(t, entity('<'))) by {
                    if starts_with(t, entity('<')) {
                        assert(t.take(4)[1] == 'l');
                    }
                }
                assert(!starts_with(t, entity('>'))) by {
                    if starts_with(t, entity('>')) {
                        assert(t.take(4)[1] == 'g');
                    }
                }
                assert(!starts_with(t, entity('&'))) by {
                    if starts_with(t, entity('&')) {
                        assert(t.take(5)[1] == 'a');
                    }
                }
                assert(starts_with(t, entity('"')));
            }
            assert(unescaped(t) =~= seq![c] + unescaped(tail));
        } else {
            assert(t[0] != '&');
            assert(!starts_with(t, entity('<'))) by {
                if starts_with(t, entity('<')) {
                    assert(t.take(4)[0] == '&');
                }
            }
            assert(!starts_with(t, entity('>'))) by {
                if starts_with(t, entity('>')) {
                    assert(t.take(4)[0] == '&');
                }
            }
            assert(!starts_with(t, entity('&'))) by {
                if starts_with(t, entity('&')) {
                    assert(t.take(5)[0] == '&');
                }
            }
            assert(!starts_with(t, entity('"'))) by {
                if starts_with(t, entity('"')) {
                    assert(t.take(6)[0] == '&');
                }
            }
            assert(t.drop_first() =~= tail);
            assert(unescaped(t) =~= seq![c] + unescaped(tail));
        }
        assert(seq![c] + s.drop_first() =~= s);
    }
}

/// The entity that stands for `c`, one of `< > & "`.
fn entity_of(c: char) -> (e: &'static str)
    ensures
        e@ == entity(c),
{
    proof {
        reveal_strlit("&lt;");
        reveal_strlit("&gt;");
        reveal_strlit("&amp;");
        reveal_strlit("&quot;");
    }
    let e = if c == '<' {
        "&lt;"
    } else if c == '>' {
        "&gt;"
    } else if c == '&' {
        "&amp;"
    } else {
        "&quot;"
    };
    assert(e@ =~= entity(c));
    e
}

/// Appends the escaped form of `v` to `buf`, character by character and
/// without an escaped copy in between.
pub fn escape_into(buf: &mut String, v: &str, escape_quote: bool)
    ensures
        final(buf)@ == old(buf)@ + escaped(v@, escape_quote),
{
    assert(v@.take(0) =~= Seq::<char>::empty());
    assert(buf@ =~= old(buf)@ + escaped(v@.take(0), escape_quote));
    for c in it: v.chars()
        invariant
            it.seq() == v@,
            buf@ == old(buf)@ + escaped(v@.take(it.index()), escape_quote),
    {
        proof {
            let done = v@.take(it.index());
            lemma_escaped_push(done, c, escape_quote);
            assert(v@.take(it.index() + 1) =~= done.push(c));
        }
        let ghost before = buf@;
        if c == '<' || c == '>' || c == '&' || (escape_quote && c == '"') {
            buf.append(entity_of(c));
        } else {
            buf.push(c);
            assert(buf@ =~= before + seq![c]);
        }
        assert(buf@ =~= old(buf)@ + escaped(v@.take(it.index() + 1), escape_quote));
    }
    assert(v@.take(v@.len() as int) =~= v@);
}

} // verus!
