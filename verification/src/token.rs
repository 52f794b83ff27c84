//! Lexical tokens, the input of the grammar.
//!
//! A token sequence is what a host tokenizer produced from markup source
//! text. Tokens are plain values: text, one punctuation character, or a
//! delimited group holding a nested token sequence.

use vstd::prelude::*;

verus! {

/// A source-position tag. It is carried through to errors unchanged; the
/// grammar never looks inside.
#[derive(Clone, Copy, Debug, PartialEq, Eq, Structural)]
pub struct Span {
    pub tag: u64,
}

/// The bracket kind of a delimited group.
#[derive(Clone, Copy, Debug, PartialEq, Eq, Structural)]
pub enum Delimiter {
    /// `( ... )`
    Parenthesis,
    /// `{ ... }`
    Brace,
    /// `[ ... ]`
    Bracket,
    /// A group without visible brackets.
    Invisible,
}

/// An identifier token.
#[derive(Debug)]
pub struct Ident {
    pub text: String,
    pub span: Span,
}

/// A single punctuation character.
#[derive(Debug)]
pub struct Punct {
    pub ch: char,
    pub span: Span,
}

/// A literal token, held as its source text (quotes, prefixes and suffixes
/// included).
#[derive(Debug)]
pub struct Literal {
    pub text: String,
    pub span: Span,
}

/// A delimited group and the tokens inside it.
#[derive(Debug)]
pub struct Group {
    pub delimiter: Delimiter,
    pub stream: Vec<Token>,
    pub span: Span,
}

/// One lexical unit.
#[derive(Debug)]
pub enum Token {
    Ident(Ident),
    Punct(Punct),
    Literal(Literal),
    Group(Group),
}

impl Token {
    /// The position tag of this token.
    pub open spec fn spec_span(&self) -> Span {
        match *self {
            Token::Ident(i) => i.span,
            Token::Punct(p) => p.span,
            Token::Literal(l) => l.span,
            Token::Group(g) => g.span,
        }
    }

    /// Whether this token is the punctuation character `c`.
    pub open spec fn spec_is_punct(&self, c: char) -> bool {
        *self matches Token::Punct(p) && p.ch == c
    }

    /// The position tag of this token.
    #[verifier::when_used_as_spec(spec_span)]
    pub fn span(&self) -> (s: Span)
        ensures
            s == self.span(),
    {
        match self {
            Token::Ident(i) => i.span,
            Token::Punct(p) => p.span,
            Token::Literal(l) => l.span,
            Token::Group(g) => g.span,
        }
    }

    /// Whether this token is the punctuation character `c`.
    #[verifier::when_used_as_spec(spec_is_punct)]
    pub fn is_punct(&self, c: char) -> (b: bool)
        ensures
            b == self.is_punct(c),
    {
        match self {
            Token::Punct(p) => p.ch == c,
            _ => false,
        }
    }
}

} // verus!
