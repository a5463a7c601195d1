use vstd::prelude::*;

use crate::types::nodes::expressions::Operator;

verus! {

/// The reserved words of the language.
#[derive(Debug, Clone, Copy, PartialEq, Eq, Structural)]
pub enum Keyword {
    Function,
    Variable,
    Return,
    Structure,
    If,
    ElseIf,
    Else,
    While,
}

/// The kind of a token, with the text it carries where it carries any.
#[derive(Debug, PartialEq)]
pub enum TokenType {
    Semicolon,
    Colon,
    OpeningParenthesis,
    ClosingParenthesis,
    OpeningBrace,
    ClosingBrace,
    Literal(String),
    Operator(Operator),
    Identifier(String),
    Keyword(Keyword),
    Equals,
    Comma,
    Dot,
}

/// A token with the (line, column) of its first and last character.
#[derive(Debug, PartialEq)]
pub struct Token {
    pub token: TokenType,
    pub start: (usize, usize),
    pub end: (usize, usize),
}

impl Clone for TokenType {
    fn clone(&self) -> (r: Self)
        ensures
            r == *self,
    {
        match self {
            TokenType::Semicolon => TokenType::Semicolon,
            TokenType::Colon => TokenType::Colon,
            TokenType::OpeningParenthesis => TokenType::OpeningParenthesis,
            TokenType::ClosingParenthesis => TokenType::ClosingParenthesis,
            TokenType::OpeningBrace => TokenType::OpeningBrace,
            TokenType::ClosingBrace => TokenType::ClosingBrace,
            TokenType::Literal(s) => TokenType::Literal(s.clone()),
            TokenType::Operator(o) => TokenType::Operator(*o),
            TokenType::Identifier(s) => TokenType::Identifier(s.clone()),
            TokenType::Keyword(k) => TokenType::Keyword(*k),
            TokenType::Equals => TokenType::Equals,
            TokenType::Comma => TokenType::Comma,
            TokenType::Dot => TokenType::Dot,
        }
    }
}

impl Clone for Token {
    fn clone(&self) -> (r: Self)
        ensures
            r == *self,
    {
        Token { token: self.token.clone(), start: self.start, end: self.end }
    }
}

/// `TokenType` with its text taken as a sequence of characters.
pub enum TokenTypeView {
    Semicolon,
    Colon,
    OpeningParenthesis,
    ClosingParenthesis,
    OpeningBrace,
    ClosingBrace,
    Literal(Seq<char>),
    Operator(Operator),
    Identifier(Seq<char>),
    Keyword(Keyword),
    Equals,
    Comma,
    Dot,
}

impl View for TokenType {
    type V = TokenTypeView;

    open spec fn view(&self) -> TokenTypeView {
        match self {
            TokenType::Semicolon => TokenTypeView::Semicolon,
            TokenType::Colon => TokenTypeView::Colon,
            TokenType::OpeningParenthesis => TokenTypeView::OpeningParenthesis,
            TokenType::ClosingParenthesis => TokenTypeView::ClosingParenthesis,
            TokenType::OpeningBrace => TokenTypeView::OpeningBrace,
            TokenType::ClosingBrace => TokenTypeView::ClosingBrace,
            TokenType::Literal(s) => TokenTypeView::Literal(s@),
            TokenType::Operator(o) => TokenTypeView::Operator(*o),
            TokenType::Identifier(s) => TokenTypeView::Identifier(s@),
            TokenType::Keyword(k) => TokenTypeView::Keyword(*k),
            TokenType::Equals => TokenTypeView::Equals,
            TokenType::Comma => TokenTypeView::Comma,
            TokenType::Dot => TokenTypeView::Dot,
        }
    }
}

} // verus!
