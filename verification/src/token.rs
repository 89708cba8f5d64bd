//! The lexical symbols.
use crate::value::AeonDouble;
use vstd::prelude::*;
use vstd::string::StringExecFns;

verus! {

/// A lexical symbol.
#[derive(Debug)]
pub enum Token {
    LeftBracket,
    RightBracket,
    LeftBrace,
    RightBrace,
    LeftParenthesis,
    RightParenthesis,
    Colon,
    Comma,
    Identifier(String),
    String(String),
    Integer(i64),
    Double(AeonDouble),
    At,
    Nil,
    True,
    False,
}

/// Mathematical model of a [`Token`].
pub enum TokenView {
    LeftBracket,
    RightBracket,
    LeftBrace,
    RightBrace,
    LeftParenthesis,
    RightParenthesis,
    Colon,
    Comma,
    Identifier(Seq<char>),
    String(Seq<char>),
    Integer(i64),
    Double(Seq<char>),
    At,
    Nil,
    True,
    False,
}

impl View for Token {
    type V = TokenView;

    open spec fn view(&self) -> TokenView {
        match self {
            Token::LeftBracket => TokenView::LeftBracket,
            Token::RightBracket => TokenView::RightBracket,
            Token::LeftBrace => TokenView::LeftBrace,
            Token::RightBrace => TokenView::RightBrace,
            Token::LeftParenthesis => TokenView::LeftParenthesis,
            Token::RightParenthesis => TokenView::RightParenthesis,
            Token::Colon => TokenView::Colon,
            Token::Comma => TokenView::Comma,
            Token::Identifier(s) => TokenView::Identifier(s@),
            Token::String(s) => TokenView::String(s@),
            Token::Integer(i) => TokenView::Integer(*i),
            Token::Double(d) => TokenView::Double(d@),
            Token::At => TokenView::At,
            Token::Nil => TokenView::Nil,
            Token::True => TokenView::True,
            Token::False => TokenView::False,
        }
    }
}

impl TokenView {
    /// How an error message names the token.
    pub open spec fn describe(self) -> Seq<char> {
        match self {
            TokenView::LeftBracket => "'['"@,
            TokenView::RightBracket => "']'"@,
            TokenView::LeftBrace => "'{'"@,
            TokenView::RightBrace => "'}'"@,
            TokenView::LeftParenthesis => "'('"@,
            TokenView::RightParenthesis => "')'"@,
            TokenView::Colon => "':'"@,
            TokenView::Comma => "','"@,
            TokenView::Identifier(name) => "identifier "@ + name,
            TokenView::String(_) => "a string"@,
            TokenView::Integer(_) => "an integer"@,
            TokenView::Double(text) => "double "@ + text,
            TokenView::At => "'@'"@,
            TokenView::Nil => "nil"@,
            TokenView::True => "true"@,
            TokenView::False => "false"@,
        }
    }
}

impl Token {
    /// How an error message names the token.
    pub fn describe(&self) -> (r: String)
        ensures
            r@ == self@.describe(),
    {
        match self {
            Token::LeftBracket => String::from_str("'['"),
            Token::RightBracket => String::from_str("']'"),
            Token::LeftBrace => String::from_str("'{'"),
            Token::RightBrace => String::from_str("'}'"),
            Token::LeftParenthesis => String::from_str("'('"),
            Token::RightParenthesis => String::from_str("')'"),
            Token::Colon => String::from_str("':'"),
            Token::Comma => String::from_str("','"),
            Token::Identifier(name) => {
                let mut r = String::from_str("identifier ");
                r.append(name.as_str());
                r
            },
            Token::String(_) => String::from_str("a string"),
            Token::Integer(_) => String::from_str("an integer"),
            Token::Double(d) => {
                let mut r = String::from_str("double ");
                r.append(d.as_str());
                r
            },
            Token::At => String::from_str("'@'"),
            Token::Nil => String::from_str("nil"),
            Token::True => String::from_str("true"),
            Token::False => String::from_str("false"),
        }
    }
}

} // verus!
