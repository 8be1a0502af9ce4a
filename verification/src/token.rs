//! Tokens: one lexical unit each, immutable once made.

use vstd::prelude::*;
use vstd::string::StringExecFns;
use crate::render::{append_dec_i64, dec_int};
use crate::scan::TokenV;

verus! {

/// The kind of a token, with its payload. An integer literal holds its value;
/// a decimal literal holds its exact text, digits with one decimal point, as
/// it stood in the input.
#[derive(Debug, Clone, PartialEq)]
pub enum TokenType {
    Int(i64),
    Float(String),
    Plus,
    Minus,
    Mul,
    Div,
    LParen,
    RParen,
}

/// One lexical unit of the input.
#[derive(Debug, Clone, PartialEq)]
pub struct Token {
    pub type_: TokenType,
}

impl View for Token {
    type V = TokenV;

    open spec fn view(&self) -> TokenV {
        match self.type_ {
            TokenType::Int(n) => TokenV::Int(n as int),
            TokenType::Float(lit) => TokenV::Float(lit@),
            TokenType::Plus => TokenV::Plus,
            TokenType::Minus => TokenV::Minus,
            TokenType::Mul => TokenV::Mul,
            TokenType::Div => TokenV::Div,
            TokenType::LParen => TokenV::LParen,
            TokenType::RParen => TokenV::RParen,
        }
    }
}

/// The rendered form of a token, one line per kind.
pub open spec fn spec_render(t: TokenV) -> Seq<char> {
    match t {
        TokenV::Int(n) => "INT("@ + dec_int(n) + ")"@,
        TokenV::Float(lit) => "FLOAT("@ + lit + ")"@,
        TokenV::Plus => "PLUS"@,
        TokenV::Minus => "MINUS"@,
        TokenV::Mul => "MULTIPLY"@,
        TokenV::Div => "DIVIDE"@,
        TokenV::LParen => "LEFT-PAREN"@,
        TokenV::RParen => "RPAREN"@,
    }
}

impl Token {
    pub fn new(type_: TokenType) -> (t: Token)
        ensures
            t.type_ == type_,
    {
        Token { type_ }
    }

    /// The token's textual rendering.
    pub fn render(&self) -> (r: String)
        ensures
            r@ == spec_render(self@),
    {
        match &self.type_ {
            TokenType::Int(n) => {
                let mut r = "INT(".to_owned();
                append_dec_i64(&mut r, *n);
                r.append(")");
                proof {
                    assert(r@ =~= spec_render(self@));
                }
                r
            },
            TokenType::Float(lit) => {
                let mut r = "FLOAT(".to_owned();
                r.append(lit.as_str());
                r.append(")");
                proof {
                    assert(r@ =~= spec_render(self@));
                }
                r
            },
            TokenType::Plus => "PLUS".to_owned(),
            TokenType::Minus => "MINUS".to_owned(),
            TokenType::Mul => "MULTIPLY".to_owned(),
            TokenType::Div => "DIVIDE".to_owned(),
            TokenType::LParen => "LEFT-PAREN".to_owned(),
            TokenType::RParen => "RPAREN".to_owned(),
        }
    }
}

} // verus!
