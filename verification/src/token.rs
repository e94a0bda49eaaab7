//! Tokens: the unit the scanner produces and the parser consumes.

use vstd::prelude::*;

verus! {

/// The kinds of token of the language.
#[derive(Clone, Copy, Debug, PartialEq, Eq, Structural)]
pub enum TokenKind {
    LeftParen,
    RightParen,
    LeftBrace,
    RightBrace,
    Comma,
    Dot,
    Minus,
    Plus,
    Semicolon,
    Slash,
    Star,
    Bang,
    BangEqual,
    Equal,
    EqualEqual,
    Greater,
    GreaterEqual,
    Less,
    LessEqual,
    Identifier,
    StringT,
    Number,
    And,
    Class,
    Else,
    False,
    Fun,
    For,
    If,
    Nil,
    Or,
    Print,
    Return,
    Super,
    This,
    True,
    Var,
    While,
    Comment,
    WhiteSpace,
    Error,
}

/// A token: its kind, the text it carries and the line it ends on.
///
/// Only identifiers, keywords, numbers and strings carry text; a string's
/// text is what stands between its quotes.
#[derive(Debug)]
pub struct Token {
    pub kind: TokenKind,
    pub line: usize,
    pub content: String,
}

/// A token as mathematical values.
pub struct Lexeme {
    pub kind: TokenKind,
    pub line: nat,
    pub text: Seq<char>,
}

impl View for Token {
    type V = Lexeme;

    open spec fn view(&self) -> Lexeme {
        Lexeme { kind: self.kind, line: self.line as nat, text: self.content@ }
    }
}

impl Clone for Token {
    fn clone(&self) -> (r: Self)
        ensures
            r == *self,
    {
        Token { kind: self.kind, line: self.line, content: self.content.clone() }
    }
}

impl PartialEq for Token {
    fn eq(&self, other: &Token) -> (r: bool) {
        self.kind == other.kind && self.line == other.line && self.content == other.content
    }
}

impl vstd::std_specs::cmp::PartialEqSpecImpl for Token {
    open spec fn obeys_eq_spec() -> bool {
        true
    }

    open spec fn eq_spec(&self, other: &Token) -> bool {
        self.kind == other.kind && self.line == other.line && self.content@ == other.content@
    }
}

impl Token {
    pub fn new(kind: TokenKind, line: usize, content: String) -> (r: Token)
        ensures
            r.kind == kind,
            r.line == line,
            r.content == content,
    {
        Token { kind, line, content }
    }
}

/// The views of a list of tokens, in order.
pub open spec fn lexemes(tokens: Seq<Token>) -> Seq<Lexeme> {
    Seq::new(tokens.len(), |i: int| tokens[i]@)
}

} // verus!
