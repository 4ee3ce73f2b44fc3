//! The mathematical scanner: a character-level description of tokenization.
//!
//! [`spec_tokenize`] maps a whole source text to the token sequence the
//! lexer must produce, or to the lexical error that ends the pass.  Source
//! text is split into physical lines; each line is scanned left to right,
//! classifying by the current character and at most one character of
//! lookahead, with maximal-munch runs for identifiers and numbers.

use vstd::prelude::*;
use crate::tokens::{TokenType, BinOp, TokenV};
use crate::errors::LexError;

verus! {

/// Decimal digit.
pub open spec fn is_digit_char(c: char) -> bool {
    ('0' as u32) <= (c as u32) && (c as u32) <= ('9' as u32)
}

/// ASCII letter.  Identifier rules are ASCII-only.
pub open spec fn is_alpha_char(c: char) -> bool {
    (('a' as u32) <= (c as u32) && (c as u32) <= ('z' as u32))
    || (('A' as u32) <= (c as u32) && (c as u32) <= ('Z' as u32))
}

/// Characters that may continue an identifier.
pub open spec fn is_ident_char(c: char) -> bool {
    is_alpha_char(c) || is_digit_char(c) || c == '_' || c == '?' || c == '!'
}

/// The fixed keyword set; any other identifier-shaped lexeme is an
/// `Identifier`.
pub open spec fn keyword_kind(s: Seq<char>) -> Option<TokenType> {
    if s == "define"@ {
        Some(TokenType::Definition)
    } else if s == "lambda"@ {
        Some(TokenType::Lambda)
    } else if s == "if"@ {
        Some(TokenType::If)
    } else if s == "else"@ {
        Some(TokenType::Else)
    } else if s == "return"@ {
        Some(TokenType::Return)
    } else if s == "true"@ {
        Some(TokenType::True)
    } else if s == "false"@ {
        Some(TokenType::False)
    } else if s == "do"@ {
        Some(TokenType::Do)
    } else if s == "end"@ {
        Some(TokenType::End)
    } else {
        None
    }
}

/// The binary-operator table: lexeme to operator and precedence rank.
/// A smaller rank binds tighter; rank 3 is intentionally left unused.
pub open spec fn bin_op_of(s: Seq<char>) -> Option<(BinOp, u8)> {
    if s == "*"@ {
        Some((BinOp::Mul, 1u8))
    } else if s == "/"@ {
        Some((BinOp::Div, 1u8))
    } else if s == "+"@ {
        Some((BinOp::Plus, 2u8))
    } else if s == "-"@ {
        Some((BinOp::Minus, 2u8))
    } else if s == "=="@ {
        Some((BinOp::Equal, 4u8))
    } else if s == "~="@ {
        Some((BinOp::NotEqual, 4u8))
    } else if s == "<"@ {
        Some((BinOp::Lt, 4u8))
    } else if s == ">"@ {
        Some((BinOp::Gt, 4u8))
    } else if s == "<="@ {
        Some((BinOp::LtEqual, 4u8))
    } else if s == ">="@ {
        Some((BinOp::GtEqual, 4u8))
    } else {
        None
    }
}

/// Single-character punctuation tokens.
pub open spec fn punct_kind(c: char) -> Option<TokenType> {
    if c == '=' {
        Some(TokenType::Assign)
    } else if c == '(' {
        Some(TokenType::LParen)
    } else if c == ')' {
        Some(TokenType::RParen)
    } else if c == '[' {
        Some(TokenType::LBracket)
    } else if c == ']' {
        Some(TokenType::RBracket)
    } else if c == '{' {
        Some(TokenType::LBrace)
    } else if c == '}' {
        Some(TokenType::RBrace)
    } else if c == ':' {
        Some(TokenType::Colon)
    } else if c == ',' {
        Some(TokenType::Comma)
    } else if c == '.' {
        Some(TokenType::Period)
    } else if c == ';' {
        Some(TokenType::Semicolon)
    } else {
        None
    }
}

/// End of the maximal run of identifier characters starting at `i`.
pub open spec fn ident_end(line: Seq<char>, i: int) -> int
    decreases line.len() - i,
{
    if 0 <= i < line.len() && is_ident_char(line[i]) {
        ident_end(line, i + 1)
    } else {
        i
    }
}

/// End of the maximal run of decimal digits starting at `i`.
pub open spec fn digits_end(line: Seq<char>, i: int) -> int
    decreases line.len() - i,
{
    if 0 <= i < line.len() && is_digit_char(line[i]) {
        digits_end(line, i + 1)
    } else {
        i
    }
}

/// First position at or after `i` holding character `c`, if any.
pub open spec fn find_char(line: Seq<char>, i: int, c: char) -> Option<int>
    decreases line.len() - i,
{
    if !(0 <= i < line.len()) {
        None
    } else if line[i] == c {
        Some(i)
    } else {
        find_char(line, i + 1, c)
    }
}

/// Clamps a scan position into `[lo, len]`.  On every reachable path the
/// clamped position equals the unclamped one; the clamp only makes the
/// strict advance of the scanner self-evident to the termination checker.
pub open spec fn clip(len: int, lo: int, j: int) -> int {
    let k = if j < lo { lo } else { j };
    if k > len { len } else { k }
}

/// A token view at line `row`, closed at column `col`.
pub open spec fn tokv(kind: TokenType, content: Seq<char>, row: int, col: int) -> TokenV {
    TokenV { token_type: kind, content, row: row as u32, col: col as u32 }
}

/// Scans one physical line from position `i` onward.
///
/// Classification order: skip spaces; NUL ends the line; a quote opens a
/// string literal closed by the same delimiter; a letter starts a keyword
/// or identifier; a digit (or `.`/`-` followed by a digit) starts a number;
/// `->` is the arrow; then the longest (two-character, else one-character)
/// operator-table match; then single-character punctuation.  Anything else
/// is a fatal lexical error.
pub open spec fn scan_line(line: Seq<char>, i: int, row: int) -> Result<Seq<TokenV>, LexError>
    decreases line.len() - i,
{
    let len = line.len() as int;
    if !(0 <= i < len) {
        Ok(Seq::empty())
    } else {
        let c = line[i];
        if c == ' ' {
            scan_line(line, i + 1, row)
        } else if c == '\0' || c == '\n' {
            Ok(Seq::empty())
        } else if c == '"' || c == '\'' {
            match find_char(line, i + 1, c) {
                Some(j) => match scan_line(line, clip(len, i + 1, j + 1), row) {
                    Ok(rest) => Ok(
                        seq![tokv(TokenType::Text, line.subrange(i + 1, j), row, j)] + rest,
                    ),
                    Err(e) => Err(e),
                },
                None => Err(LexError::UnterminatedString { row: row as u32, col: i as u32 }),
            }
        } else if is_alpha_char(c) {
            let e = clip(len, i + 1, ident_end(line, i));
            let s = line.subrange(i, e);
            let kind = match keyword_kind(s) {
                Some(k) => k,
                None => TokenType::Identifier,
            };
            match scan_line(line, e, row) {
                Ok(rest) => Ok(seq![tokv(kind, s, row, e)] + rest),
                Err(err) => Err(err),
            }
        } else if is_digit_char(c) || ((c == '.' || c == '-') && i + 1 < len
            && is_digit_char(line[i + 1])) {
            let p = if c == '-' { i + 1 } else { i };
            let e1 = digits_end(line, p);
            if e1 < len && line[e1] == '.' && e1 + 1 < len && is_digit_char(line[e1 + 1]) {
                let e2 = clip(len, i + 1, digits_end(line, e1 + 1));
                match scan_line(line, e2, row) {
                    Ok(rest) => Ok(
                        seq![tokv(TokenType::Float, line.subrange(i, e2), row, e2)] + rest,
                    ),
                    Err(err) => Err(err),
                }
            } else {
                let e = clip(len, i + 1, e1);
                match scan_line(line, e, row) {
                    Ok(rest) => Ok(
                        seq![tokv(TokenType::Integer, line.subrange(i, e), row, e)] + rest,
                    ),
                    Err(err) => Err(err),
                }
            }
        } else if c == '-' && i + 1 < len && line[i + 1] == '>' {
            match scan_line(line, i + 2, row) {
                Ok(rest) => Ok(
                    seq![tokv(TokenType::Arrow, line.subrange(i, i + 2), row, i + 2)] + rest,
                ),
                Err(err) => Err(err),
            }
        } else if i + 2 <= len && bin_op_of(line.subrange(i, i + 2)) is Some {
            match scan_line(line, i + 2, row) {
                Ok(rest) => Ok(
                    seq![tokv(TokenType::BinOp, line.subrange(i, i + 2), row, i + 2)] + rest,
                ),
                Err(err) => Err(err),
            }
        } else if bin_op_of(line.subrange(i, i + 1)) is Some {
            match scan_line(line, i + 1, row) {
                Ok(rest) => Ok(
                    seq![tokv(TokenType::BinOp, line.subrange(i, i + 1), row, i + 1)] + rest,
                ),
                Err(err) => Err(err),
            }
        } else {
            match punct_kind(c) {
                Some(kind) => match scan_line(line, i + 1, row) {
                    Ok(rest) => Ok(
                        seq![tokv(kind, line.subrange(i, i + 1), row, i + 1)] + rest,
                    ),
                    Err(err) => Err(err),
                },
                None => Err(LexError::UnrecognizedChar { c, row: row as u32, col: i as u32 }),
            }
        }
    }
}

/// Drops the carriage return that a `"\r\n"` line terminator leaves at
/// the end of a line.  A carriage return not followed by a newline stays,
/// and the scanner then rejects it as an unrecognized character.
pub open spec fn strip_cr(line: Seq<char>) -> Seq<char> {
    if line.len() > 0 && line[line.len() - 1] == '\r' {
        line.drop_last()
    } else {
        line
    }
}

/// Scans a whole source text, line by line, numbering lines from `row`.
pub open spec fn scan_source(src: Seq<char>, row: int) -> Result<Seq<TokenV>, LexError>
    decreases src.len(),
{
    let len = src.len() as int;
    if src.len() == 0 {
        Ok(Seq::empty())
    } else {
        match find_char(src, 0, '\n') {
            None => scan_line(src, 0, row),
            Some(j) => match scan_line(strip_cr(src.subrange(0, j)), 0, row) {
                Ok(first) => match scan_source(src.subrange(clip(len, 1, j + 1), len), row + 1) {
                    Ok(rest) => Ok(first + rest),
                    Err(e) => Err(e),
                },
                Err(e) => Err(e),
            },
        }
    }
}

/// The token sequence of a whole source text, with lines numbered from 1.
pub open spec fn spec_tokenize(src: Seq<char>) -> Result<Seq<TokenV>, LexError> {
    scan_source(src, 1)
}

} // verus!
