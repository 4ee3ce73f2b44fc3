//! The two disjoint failure classes of the front end.
//!
//! A [`LexError`] ends a whole tokenization pass: no partial token list is
//! usable.  A [`ParseError`] is a structural failure that the parsing
//! routines propagate outward without attempting recovery.

use vstd::prelude::*;
use vstd::string::StringExecFns;
use crate::tokens::TokenType;

verus! {

/// The name of a token kind, as diagnostics spell it.
pub open spec fn token_type_name(t: TokenType) -> Seq<char> {
    match t {
        TokenType::Integer => "Integer"@,
        TokenType::Float => "Float"@,
        TokenType::Text => "Text"@,
        TokenType::Identifier => "Identifier"@,
        TokenType::Assign => "Assign"@,
        TokenType::Definition => "Definition"@,
        TokenType::Lambda => "Lambda"@,
        TokenType::Return => "Return"@,
        TokenType::LParen => "LParen"@,
        TokenType::RParen => "RParen"@,
        TokenType::LBrace => "LBrace"@,
        TokenType::RBrace => "RBrace"@,
        TokenType::LBracket => "LBracket"@,
        TokenType::RBracket => "RBracket"@,
        TokenType::Colon => "Colon"@,
        TokenType::Comma => "Comma"@,
        TokenType::Period => "Period"@,
        TokenType::Semicolon => "Semicolon"@,
        TokenType::False => "False"@,
        TokenType::True => "True"@,
        TokenType::If => "If"@,
        TokenType::Else => "Else"@,
        TokenType::Do => "Do"@,
        TokenType::End => "End"@,
        TokenType::Arrow => "Arrow"@,
        TokenType::BinOp => "BinOp"@,
    }
}

/// The diagnostic name of a token kind.
pub fn token_type_text(t: TokenType) -> (r: &'static str)
    ensures
        r@ == token_type_name(t),
{
    match t {
        TokenType::Integer => "Integer",
        TokenType::Float => "Float",
        TokenType::Text => "Text",
        TokenType::Identifier => "Identifier",
        TokenType::Assign => "Assign",
        TokenType::Definition => "Definition",
        TokenType::Lambda => "Lambda",
        TokenType::Return => "Return",
        TokenType::LParen => "LParen",
        TokenType::RParen => "RParen",
        TokenType::LBrace => "LBrace",
        TokenType::RBrace => "RBrace",
        TokenType::LBracket => "LBracket",
        TokenType::RBracket => "RBracket",
        TokenType::Colon => "Colon",
        TokenType::Comma => "Comma",
        TokenType::Period => "Period",
        TokenType::Semicolon => "Semicolon",
        TokenType::False => "False",
        TokenType::True => "True",
        TokenType::If => "If",
        TokenType::Else => "Else",
        TokenType::Do => "Do",
        TokenType::End => "End",
        TokenType::Arrow => "Arrow",
        TokenType::BinOp => "BinOp",
    }
}

/// Relies on String::push: appends exactly one character.
#[verifier::external_body]
fn push_char(s: &mut String, c: char)
    ensures
        final(s)@ == old(s)@.push(c),
{
    s.push(c);
}

/// A fatal failure of the scanner.
#[derive(Clone, Copy, PartialEq, Eq, Structural, Debug)]
pub enum LexError {
    /// A character that starts no token was found at the given 1-based line
    /// and 0-based column.
    UnrecognizedChar { c: char, row: u32, col: u32 },
    /// A string literal opened at the given position is never closed by its
    /// delimiter on the same line.
    UnterminatedString { row: u32, col: u32 },
}

/// A structural failure of the parser.
#[derive(Clone, Copy, PartialEq, Eq, Structural, Debug)]
pub enum ParseError {
    /// A specific token kind was required, and a different one was found.
    Expected { expected: TokenType, found: TokenType },
    /// No primary expression can start with a token of this kind.
    UnexpectedToken { found: TokenType },
    /// The token sequence ended where another token was required.
    UnexpectedEnd,
    /// An `Integer` token whose lexeme is not a decimal integer that fits
    /// in a 64-bit signed machine integer.
    BadIntegerLiteral,
    /// A block opened by `do` has no matching `end`.
    MissingBlockEnd,
}

/// The diagnostic text of a lexical failure.
pub open spec fn lex_error_text(e: LexError) -> Seq<char> {
    match e {
        LexError::UnrecognizedChar { c, row, col } => "unrecognized character "@ + seq![c]
            + " at line "@ + crate::numbers::dec_digits(row as int) + ", column "@
            + crate::numbers::dec_digits(col as int),
        LexError::UnterminatedString { row, col } => "unterminated string at line "@
            + crate::numbers::dec_digits(row as int) + ", column "@
            + crate::numbers::dec_digits(col as int),
    }
}

/// The diagnostic text of a structural parse failure.
pub open spec fn parse_error_text(e: ParseError) -> Seq<char> {
    match e {
        ParseError::Expected { expected, found } => "expected "@ + token_type_name(expected)
            + " but found "@ + token_type_name(found),
        ParseError::UnexpectedToken { found } => "no expression can start with "@
            + token_type_name(found),
        ParseError::UnexpectedEnd => "unexpected end of input"@,
        ParseError::BadIntegerLiteral => "integer literal does not fit in 64 bits"@,
        ParseError::MissingBlockEnd => "block is missing its matching end"@,
    }
}

impl LexError {
    /// The descriptive text of this failure: the offending character where
    /// there is one, and its line and column.
    pub fn describe(&self) -> (r: String)
        ensures
            r@ == lex_error_text(*self),
    {
        match self {
            LexError::UnrecognizedChar { c, row, col } => {
                let mut s = String::from_str("unrecognized character ");
                push_char(&mut s, *c);
                s.append(" at line ");
                s.append(crate::numbers::u32_text(*row).as_str());
                s.append(", column ");
                s.append(crate::numbers::u32_text(*col).as_str());
                proof {
                    assert(s@ =~= lex_error_text(*self));
                }
                s
            },
            LexError::UnterminatedString { row, col } => {
                let mut s = String::from_str("unterminated string at line ");
                s.append(crate::numbers::u32_text(*row).as_str());
                s.append(", column ");
                s.append(crate::numbers::u32_text(*col).as_str());
                proof {
                    assert(s@ =~= lex_error_text(*self));
                }
                s
            },
        }
    }
}

impl ParseError {
    /// The descriptive text of this failure: the expected and found token
    /// kinds where both are known.
    pub fn describe(&self) -> (r: String)
        ensures
            r@ == parse_error_text(*self),
    {
        match self {
            ParseError::Expected { expected, found } => {
                let mut s = String::from_str("expected ");
                s.append(token_type_text(*expected));
                s.append(" but found ");
                s.append(token_type_text(*found));
                proof {
                    assert(s@ =~= parse_error_text(*self));
                }
                s
            },
            ParseError::UnexpectedToken { found } => {
                let mut s = String::from_str("no expression can start with ");
                s.append(token_type_text(*found));
                proof {
                    assert(s@ =~= parse_error_text(*self));
                }
                s
            },
            ParseError::UnexpectedEnd => String::from_str("unexpected end of input"),
            ParseError::BadIntegerLiteral => String::from_str(
                "integer literal does not fit in 64 bits",
            ),
            ParseError::MissingBlockEnd => String::from_str(
                "block is missing its matching end",
            ),
        }
    }
}

} // verus!
