//! Tokens produced by the scanner.
use vstd::prelude::*;

verus! {

/// The kind of a token. Identifiers, string literals and number literals
/// carry their text in [`Token::text`]; every other kind carries none.
#[derive(Clone, Copy, Debug, PartialEq, Eq, Structural)]
pub enum TokenKind {
    Identifier,
    Str,
    Number,
    LeftParen,
    RightParen,
    LeftBrace,
    RightBrace,
    LeftBracket,
    RightBracket,
    Comma,
    Dot,
    Semicolon,
    Colon,
    Pipe,
    Plus,
    Minus,
    Star,
    Slash,
    Equal,
    EqualEqual,
    Bang,
    BangEqual,
    Less,
    LessEqual,
    Greater,
    GreaterEqual,
    Arrow,
    Let,
    Fn,
    If,
    Else,
    While,
    For,
    Return,
    True,
    False,
    Nil,
    Struct,
    Type,
    TypeStr,
    TypeNumber,
    TypeBool,
    Eof,
}

/// A token: its kind and, for identifiers and literals, its text.
///
/// A number literal keeps its lexeme (digits and dots); it is turned into a
/// number when it is evaluated.
#[derive(Clone, Debug, PartialEq, Eq)]
pub struct Token {
    pub kind: TokenKind,
    pub text: String,
}

/// The mathematical model of a token.
pub ghost struct TokenView {
    pub kind: TokenKind,
    pub text: Seq<char>,
}

impl View for Token {
    type V = TokenView;

    open spec fn view(&self) -> TokenView {
        TokenView { kind: self.kind, text: self.text@ }
    }
}

pub open spec fn simple_token(kind: TokenKind) -> TokenView {
    TokenView { kind, text: Seq::empty() }
}

pub open spec fn tokens_view(ts: Seq<Token>) -> Seq<TokenView> {
    ts.map_values(|t: Token| t@)
}

impl Token {
    /// A token of a kind that carries no text.
    pub fn simple(kind: TokenKind) -> (r: Token)
        ensures
            r@ == simple_token(kind),
    {
        Token { kind, text: String::new() }
    }

    /// A token of the given kind and text.
    pub fn with_text(kind: TokenKind, text: String) -> (r: Token)
        ensures
            r@ == (TokenView { kind, text: text@ }),
    {
        Token { kind, text }
    }
}

} // verus!
