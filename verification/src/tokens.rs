//! Tokens: the minimal lexical units produced by the lexer and consumed by
//! the parser.  A token carries its kind, its exact lexeme (already stripped
//! of delimiting quotes for string literals), and the source position at
//! which scanning of the token stopped.

use vstd::prelude::*;

verus! {

/// The closed set of token kinds.
#[derive(Clone, Copy, PartialEq, Eq, Structural, Debug)]
pub enum TokenType {
    Integer,
    Float,
    Text,
    Identifier,
    Assign,
    Definition,
    Lambda,
    Return,
    LParen,
    RParen,
    LBrace,
    RBrace,
    LBracket,
    RBracket,
    Colon,
    Comma,
    Period,
    Semicolon,
    False,
    True,
    If,
    Else,
    Do,
    End,
    Arrow,
    BinOp,
}

/// Binary operators, as classified by the operator table.
#[derive(Clone, Copy, PartialEq, Eq, Structural, Debug)]
pub enum BinOp {
    Mul,
    Div,
    Plus,
    Minus,
    Equal,
    NotEqual,
    Lt,
    Gt,
    LtEqual,
    GtEqual,
}

/// The mathematical image of a [`Token`]: the lexeme is a sequence of
/// characters rather than a `String`.
#[verifier::ext_equal]
pub ghost struct TokenV {
    pub token_type: TokenType,
    pub content: Seq<char>,
    pub row: u32,
    pub col: u32,
}

/// One token: kind, lexeme, 1-based source line, and the column at which
/// scanning of the token stopped.
#[derive(Clone, Debug)]
pub struct Token {
    pub token_type: TokenType,
    pub content: String,
    pub row: u32,
    pub col: u32,
}

impl View for Token {
    type V = TokenV;

    open spec fn view(&self) -> TokenV {
        TokenV {
            token_type: self.token_type,
            content: self.content@,
            row: self.row,
            col: self.col,
        }
    }
}

impl DeepView for Token {
    type V = TokenV;

    open spec fn deep_view(&self) -> TokenV {
        self.view()
    }
}

impl Token {
    pub fn new(token_type: TokenType, content: String, row: u32, col: u32) -> (t: Token)
        ensures
            t@ == (TokenV { token_type, content: content@, row, col }),
    {
        Token { token_type, content, row, col }
    }
}

} // verus!
