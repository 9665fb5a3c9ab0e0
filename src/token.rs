//! Tokens of the source language, and the tables that turn words and signs into tokens.
use vstd::prelude::*;
use crate::text::{same_chars, string_of};

verus! {

/// One token of the source text.
#[derive(Debug, Clone)]
pub enum Token {
    Plus,
    Subtract,
    Multiply,
    Divide,
    Modulus,
    Assign,
    Less,
    LessEqual,
    Greater,
    GreaterEqual,
    Equality,
    NotEqual,
    LeftParen,
    RightParen,
    LeftCurly,
    RightCurly,
    LeftBracket,
    RightBracket,
    Comma,
    Semicolon,
    Num(i32),
    Ident(String),
    If,
    While,
    Read,
    Func,
    Return,
    Int,
    Print,
    Else,
    Break,
    Continue,
}

/// A token as a mathematical value: an identifier is its sequence of characters.
pub enum TokenView {
    Plus,
    Subtract,
    Multiply,
    Divide,
    Modulus,
    Assign,
    Less,
    LessEqual,
    Greater,
    GreaterEqual,
    Equality,
    NotEqual,
    LeftParen,
    RightParen,
    LeftCurly,
    RightCurly,
    LeftBracket,
    RightBracket,
    Comma,
    Semicolon,
    Num(i32),
    Ident(Seq<char>),
    If,
    While,
    Read,
    Func,
    Return,
    Int,
    Print,
    Else,
    Break,
    Continue,
}

impl View for Token {
    type V = TokenView;

    open spec fn view(&self) -> TokenView {
        match self {
            Token::Plus => TokenView::Plus,
            Token::Subtract => TokenView::Subtract,
            Token::Multiply => TokenView::Multiply,
            Token::Divide => TokenView::Divide,
            Token::Modulus => TokenView::Modulus,
            Token::Assign => TokenView::Assign,
            Token::Less => TokenView::Less,
            Token::LessEqual => TokenView::LessEqual,
            Token::Greater => TokenView::Greater,
            Token::GreaterEqual => TokenView::GreaterEqual,
            Token::Equality => TokenView::Equality,
            Token::NotEqual => TokenView::NotEqual,
            Token::LeftParen => TokenView::LeftParen,
            Token::RightParen => TokenView::RightParen,
            Token::LeftCurly => TokenView::LeftCurly,
            Token::RightCurly => TokenView::RightCurly,
            Token::LeftBracket => TokenView::LeftBracket,
            Token::RightBracket => TokenView::RightBracket,
            Token::Comma => TokenView::Comma,
            Token::Semicolon => TokenView::Semicolon,
            Token::Num(n) => TokenView::Num(*n),
            Token::Ident(s) => TokenView::Ident(s@),
            Token::If => TokenView::If,
            Token::While => TokenView::While,
            Token::Read => TokenView::Read,
            Token::Func => TokenView::Func,
            Token::Return => TokenView::Return,
            Token::Int => TokenView::Int,
            Token::Print => TokenView::Print,
            Token::Else => TokenView::Else,
            Token::Break => TokenView::Break,
            Token::Continue => TokenView::Continue,
        }
    }
}

/// The views of a sequence of tokens.
pub open spec fn tokens_view(ts: Seq<Token>) -> Seq<TokenView> {
    ts.map_values(|t: Token| t@)
}

/// The reserved word spelled by `w`, if any.
pub open spec fn keyword(w: Seq<char>) -> Option<TokenView> {
    if w == "func"@ {
        Some(TokenView::Func)
    } else if w == "return"@ {
        Some(TokenView::Return)
    } else if w == "int"@ {
        Some(TokenView::Int)
    } else if w == "print"@ {
        Some(TokenView::Print)
    } else if w == "else"@ {
        Some(TokenView::Else)
    } else if w == "break"@ {
        Some(TokenView::Break)
    } else if w == "continue"@ {
        Some(TokenView::Continue)
    } else if w == "read"@ {
        Some(TokenView::Read)
    } else if w == "while"@ {
        Some(TokenView::While)
    } else if w == "if"@ {
        Some(TokenView::If)
    } else {
        None
    }
}

/// The token for a word: its reserved word, or else an identifier.
pub open spec fn word_token(w: Seq<char>) -> TokenView {
    match keyword(w) {
        Some(t) => t,
        None => TokenView::Ident(w),
    }
}

/// The comparison or assignment token that starts with `c`, with `=` after it when
/// `eq` holds; `!` alone is no token.
pub open spec fn sign_token(c: char, eq: bool) -> Option<TokenView> {
    if c == '<' {
        Some(if eq { TokenView::LessEqual } else { TokenView::Less })
    } else if c == '>' {
        Some(if eq { TokenView::GreaterEqual } else { TokenView::Greater })
    } else if c == '=' {
        Some(if eq { TokenView::Equality } else { TokenView::Assign })
    } else if c == '!' && eq {
        Some(TokenView::NotEqual)
    } else {
        None
    }
}

/// The token of a one-character operator or punctuation mark.
pub open spec fn single_token(c: char) -> Option<TokenView> {
    if c == '+' {
        Some(TokenView::Plus)
    } else if c == '-' {
        Some(TokenView::Subtract)
    } else if c == '*' {
        Some(TokenView::Multiply)
    } else if c == '/' {
        Some(TokenView::Divide)
    } else if c == '%' {
        Some(TokenView::Modulus)
    } else if c == ',' {
        Some(TokenView::Comma)
    } else if c == '(' {
        Some(TokenView::LeftParen)
    } else if c == ')' {
        Some(TokenView::RightParen)
    } else if c == '[' {
        Some(TokenView::LeftBracket)
    } else if c == ']' {
        Some(TokenView::RightBracket)
    } else if c == '{' {
        Some(TokenView::LeftCurly)
    } else if c == '}' {
        Some(TokenView::RightCurly)
    } else if c == ';' {
        Some(TokenView::Semicolon)
    } else {
        None
    }
}

/// Turns a scanned word into its reserved-word token, or else into an identifier.
pub fn create_identifier(code: &Vec<char>) -> (r: Token)
    ensures
        r@ == word_token(code@),
{
    if same_chars(code, "func") {
        Token::Func
    } else if same_chars(code, "return") {
        Token::Return
    } else if same_chars(code, "int") {
        Token::Int
    } else if same_chars(code, "print") {
        Token::Print
    } else if same_chars(code, "else") {
        Token::Else
    } else if same_chars(code, "break") {
        Token::Break
    } else if same_chars(code, "continue") {
        Token::Continue
    } else if same_chars(code, "read") {
        Token::Read
    } else if same_chars(code, "while") {
        Token::While
    } else if same_chars(code, "if") {
        Token::If
    } else {
        Token::Ident(string_of(code))
    }
}

/// The token of a comparison or assignment sign: `c`, followed by `=` when `eq` holds.
pub fn create_sign(c: char, eq: bool) -> (r: Option<Token>)
    ensures
        match r {
            Some(t) => sign_token(c, eq) == Some(t@),
            None => sign_token(c, eq) is None,
        },
{
    if c == '<' {
        Some(if eq { Token::LessEqual } else { Token::Less })
    } else if c == '>' {
        Some(if eq { Token::GreaterEqual } else { Token::Greater })
    } else if c == '=' {
        Some(if eq { Token::Equality } else { Token::Assign })
    } else if c == '!' && eq {
        Some(Token::NotEqual)
    } else {
        None
    }
}

/// The token of a one-character operator or punctuation mark.
pub fn create_single(c: char) -> (r: Option<Token>)
    ensures
        match r {
            Some(t) => single_token(c) == Some(t@),
            None => single_token(c) is None,
        },
{
    if c == '+' {
        Some(Token::Plus)
    } else if c == '-' {
        Some(Token::Subtract)
    } else if c == '*' {
        Some(Token::Multiply)
    } else if c == '/' {
        Some(Token::Divide)
    } else if c == '%' {
        Some(Token::Modulus)
    } else if c == ',' {
        Some(Token::Comma)
    } else if c == '(' {
        Some(Token::LeftParen)
    } else if c == ')' {
        Some(Token::RightParen)
    } else if c == '[' {
        Some(Token::LeftBracket)
    } else if c == ']' {
        Some(Token::RightBracket)
    } else if c == '{' {
        Some(Token::LeftCurly)
    } else if c == '}' {
        Some(Token::RightCurly)
    } else if c == ';' {
        Some(Token::Semicolon)
    } else {
        None
    }
}

} // verus!
