//! The closed set of lexical categories the tokenizer produces.

use vstd::prelude::*;

verus! {

/// A lexical token: operator, delimiter, keyword, literal or identifier.
///
/// Tokens are produced one at a time by the tokenizer; they hold no position
/// information.
#[derive(Debug, PartialEq)]
pub enum Token {
    /// A byte that belongs to no token class.
    Illegal,
    /// A blank line: two newlines in immediate succession.
    Blank,
    /// The end of the input stream.
    Eof,

    /// An identifier: a maximal run of alphabetic or underscore characters
    /// that is not a keyword.
    Ident(String),
    /// An integer literal.
    Int(i64),
    /// A string literal: the text between two double quotes.
    String(String),
    /// A boolean literal, from the keywords `true` and `false`.
    Bool(bool),

    /// The assignment operator `=`.
    Assign,
    /// The keyword `if`.
    If,
    /// The keyword `else`.
    Else,

    /// The operator `+`.
    Plus,
    /// The operator `-`.
    Minus,
    /// The operator `!`.
    Bang,
    /// The operator `*`.
    Asterisk,
    /// The operator `/`.
    Slash,

    /// The comparison `==`.
    Equal,
    /// The comparison `!=`.
    NotEqual,
    /// The comparison `<`.
    LessThan,
    /// The comparison `<=`.
    LessThanEqual,
    /// The comparison `>`.
    GreaterThan,
    /// The comparison `>=`.
    GreaterThanEqual,

    /// The delimiter `,`.
    Comma,
    /// The delimiter `:`.
    Colon,
    /// The delimiter `;`.
    Semicolon,
    /// The delimiter `(`.
    Lparen,
    /// The delimiter `)`.
    Rparen,
    /// The delimiter `{`.
    Lbrace,
    /// The delimiter `}`.
    Rbrace,
    /// The delimiter `[`.
    Lbracket,
    /// The delimiter `]`.
    Rbracket,

    /// The keyword `fun`.
    Func,
    /// The keyword `let`.
    Let,
    /// The keyword `return`.
    Return,
}

/// The mathematical model of a token: identifier and string payloads are
/// sequences of characters.
pub enum TokenV {
    Illegal,
    Blank,
    Eof,
    Ident(Seq<char>),
    Int(i64),
    StrLit(Seq<char>),
    Bool(bool),
    Assign,
    If,
    Else,
    Plus,
    Minus,
    Bang,
    Asterisk,
    Slash,
    Equal,
    NotEqual,
    LessThan,
    LessThanEqual,
    GreaterThan,
    GreaterThanEqual,
    Comma,
    Colon,
    Semicolon,
    Lparen,
    Rparen,
    Lbrace,
    Rbrace,
    Lbracket,
    Rbracket,
    Func,
    Let,
    Return,
}

impl Clone for Token {
    /// A clone is the same token.
    fn clone(&self) -> (r: Token)
        ensures
            r == *self,
    {
        match self {
            Token::Illegal => Token::Illegal,
            Token::Blank => Token::Blank,
            Token::Eof => Token::Eof,
            Token::Ident(s) => Token::Ident(s.clone()),
            Token::Int(i) => Token::Int(*i),
            Token::String(s) => Token::String(s.clone()),
            Token::Bool(b) => Token::Bool(*b),
            Token::Assign => Token::Assign,
            Token::If => Token::If,
            Token::Else => Token::Else,
            Token::Plus => Token::Plus,
            Token::Minus => Token::Minus,
            Token::Bang => Token::Bang,
            Token::Asterisk => Token::Asterisk,
            Token::Slash => Token::Slash,
            Token::Equal => Token::Equal,
            Token::NotEqual => Token::NotEqual,
            Token::LessThan => Token::LessThan,
            Token::LessThanEqual => Token::LessThanEqual,
            Token::GreaterThan => Token::GreaterThan,
            Token::GreaterThanEqual => Token::GreaterThanEqual,
            Token::Comma => Token::Comma,
            Token::Colon => Token::Colon,
            Token::Semicolon => Token::Semicolon,
            Token::Lparen => Token::Lparen,
            Token::Rparen => Token::Rparen,
            Token::Lbrace => Token::Lbrace,
            Token::Rbrace => Token::Rbrace,
            Token::Lbracket => Token::Lbracket,
            Token::Rbracket => Token::Rbracket,
            Token::Func => Token::Func,
            Token::Let => Token::Let,
            Token::Return => Token::Return,
        }
    }
}

/// The model a `Token` denotes.
pub open spec fn tok_v(t: Token) -> TokenV {
    match t {
        Token::Illegal => TokenV::Illegal,
        Token::Blank => TokenV::Blank,
        Token::Eof => TokenV::Eof,
        Token::Ident(s) => TokenV::Ident(s@),
        Token::Int(i) => TokenV::Int(i),
        Token::String(s) => TokenV::StrLit(s@),
        Token::Bool(b) => TokenV::Bool(b),
        Token::Assign => TokenV::Assign,
        Token::If => TokenV::If,
        Token::Else => TokenV::Else,
        Token::Plus => TokenV::Plus,
        Token::Minus => TokenV::Minus,
        Token::Bang => TokenV::Bang,
        Token::Asterisk => TokenV::Asterisk,
        Token::Slash => TokenV::Slash,
        Token::Equal => TokenV::Equal,
        Token::NotEqual => TokenV::NotEqual,
        Token::LessThan => TokenV::LessThan,
        Token::LessThanEqual => TokenV::LessThanEqual,
        Token::GreaterThan => TokenV::GreaterThan,
        Token::GreaterThanEqual => TokenV::GreaterThanEqual,
        Token::Comma => TokenV::Comma,
        Token::Colon => TokenV::Colon,
        Token::Semicolon => TokenV::Semicolon,
        Token::Lparen => TokenV::Lparen,
        Token::Rparen => TokenV::Rparen,
        Token::Lbrace => TokenV::Lbrace,
        Token::Rbrace => TokenV::Rbrace,
        Token::Lbracket => TokenV::Lbracket,
        Token::Rbracket => TokenV::Rbracket,
        Token::Func => TokenV::Func,
        Token::Let => TokenV::Let,
        Token::Return => TokenV::Return,
    }
}

} // verus!
