//! Tokens: what the lexer hands to the parser.

use vstd::prelude::*;
use vstd::string::*;

verus! {

/// What a token is, with its payload.
///
/// A float is carried as its decimal text: this library never computes with
/// floating-point values, it only passes them on.
#[derive(Debug, PartialEq)]
pub enum TokenType {
    Control(String),
    Word(String),
    Int(i64),
    Float(String),
    Symbol(String),
}

/// A token with its place in the source: the grapheme index where it starts,
/// the line and column, and how many graphemes it covers.
#[derive(Debug)]
pub struct Token {
    pub kind: TokenType,
    pub position: (usize, usize),
    pub index: usize,
    pub span: usize,
}

pub enum TokenTypeView {
    Control(Seq<char>),
    Word(Seq<char>),
    Int(i64),
    Float(Seq<char>),
    Symbol(Seq<char>),
}

pub struct TokenView {
    pub kind: TokenTypeView,
    pub position: (usize, usize),
    pub index: usize,
    pub span: usize,
}

impl View for TokenType {
    type V = TokenTypeView;

    open spec fn view(&self) -> TokenTypeView {
        match self {
            TokenType::Control(s) => TokenTypeView::Control(s@),
            TokenType::Word(s) => TokenTypeView::Word(s@),
            TokenType::Int(i) => TokenTypeView::Int(*i),
            TokenType::Float(s) => TokenTypeView::Float(s@),
            TokenType::Symbol(s) => TokenTypeView::Symbol(s@),
        }
    }
}

impl View for Token {
    type V = TokenView;

    open spec fn view(&self) -> TokenView {
        TokenView {
            kind: self.kind@,
            position: self.position,
            index: self.index,
            span: self.span,
        }
    }
}

/// The contents of a vector of tokens.
pub open spec fn token_views(v: Seq<Token>) -> Seq<TokenView> {
    Seq::new(v.len(), |i: int| v[i]@)
}

impl Clone for TokenType {
    fn clone(&self) -> (r: Self)
        ensures
            r@ == self@,
    {
        match self {
            TokenType::Control(s) => TokenType::Control(s.clone()),
            TokenType::Word(s) => TokenType::Word(s.clone()),
            TokenType::Int(i) => TokenType::Int(*i),
            TokenType::Float(s) => TokenType::Float(s.clone()),
            TokenType::Symbol(s) => TokenType::Symbol(s.clone()),
        }
    }
}

impl Clone for Token {
    fn clone(&self) -> (r: Self)
        ensures
            r@ == self@,
    {
        Token {
            kind: self.kind.clone(),
            position: self.position,
            index: self.index,
            span: self.span,
        }
    }
}

impl Token {
    pub fn new_control(sym: &str, position: (usize, usize), index: usize, span: usize) -> (r: Token)
        ensures
            r@ == (TokenView { kind: TokenTypeView::Control(sym@), position, index, span }),
    {
        Token { kind: TokenType::Control(String::from_str(sym)), position, index, span }
    }

    pub fn new_word(val: &str, position: (usize, usize), index: usize, span: usize) -> (r: Token)
        ensures
            r@ == (TokenView { kind: TokenTypeView::Word(val@), position, index, span }),
    {
        Token { kind: TokenType::Word(String::from_str(val)), position, index, span }
    }

    pub fn new_symbol(sym: &str, position: (usize, usize), index: usize, span: usize) -> (r: Token)
        ensures
            r@ == (TokenView { kind: TokenTypeView::Symbol(sym@), position, index, span }),
    {
        Token { kind: TokenType::Symbol(String::from_str(sym)), position, index, span }
    }

    pub fn new_int(val: i64, position: (usize, usize), index: usize, span: usize) -> (r: Token)
        ensures
            r@ == (TokenView { kind: TokenTypeView::Int(val), position, index, span }),
    {
        Token { kind: TokenType::Int(val), position, index, span }
    }

    /// A float token; `val` is the decimal text of the number.
    pub fn new_float(val: &str, position: (usize, usize), index: usize, span: usize) -> (r: Token)
        ensures
            r@ == (TokenView { kind: TokenTypeView::Float(val@), position, index, span }),
    {
        Token { kind: TokenType::Float(String::from_str(val)), position, index, span }
    }
}

} // verus!
