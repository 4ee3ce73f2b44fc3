//! The mathematical grammar: a token-level description of parsing.
//!
//! These functions map a token-view sequence and a start position to the
//! abstract syntax tree the parser must build, together with the position
//! one past the construct, or to the structural error that ends the parse.
//! All operators are left-associative; a smaller precedence rank binds
//! tighter.  Block bodies are the token runs between `do` and the matching
//! `end`, parsed as programs in their own right.

use vstd::prelude::*;
use crate::tokens::{TokenType, BinOp, TokenV};
use crate::errors::ParseError;
use crate::scan::{bin_op_of, clip};
use crate::numbers::spec_parse_i64;

verus! {

/// The mathematical image of an expression node.
#[verifier::ext_equal]
pub ghost enum ExprV {
    Integer(i64),
    Float(Seq<char>),
    Text(Seq<char>),
    Bool(bool),
    Identifier(Seq<char>),
    Operation(Box<ExprV>, BinOp, Box<ExprV>),
    Call(Box<ExprV>, Seq<ExprV>),
    Assignment(Box<ExprV>, Box<ExprV>),
    Definition(Option<Seq<char>>, Seq<Seq<char>>, Seq<StmtV>, Option<Seq<char>>),
    Return(Box<ExprV>),
}

/// The mathematical image of a statement node.
#[verifier::ext_equal]
pub ghost enum StmtV {
    If(Box<ExprV>, Box<StmtV>),
    IfElse(Box<ExprV>, Box<StmtV>, Box<StmtV>),
    Block(Seq<StmtV>),
    Expression(Box<ExprV>),
    Assignment(Seq<char>, Box<ExprV>),
}

/// Kind of the token at `i`.
pub open spec fn kind_at(toks: Seq<TokenV>, i: int) -> TokenType {
    toks[i].token_type
}

/// Lexeme of the token at `i`.
pub open spec fn text_at(toks: Seq<TokenV>, i: int) -> Seq<char> {
    toks[i].content
}

/// Index of the `end` matching an already-open block, scanning from `i`
/// with `depth` blocks open.
pub open spec fn block_end_from(toks: Seq<TokenV>, i: int, depth: int) -> Option<int>
    decreases toks.len() - i,
{
    if !(0 <= i < toks.len()) {
        None
    } else if kind_at(toks, i) == TokenType::Do {
        block_end_from(toks, i + 1, depth + 1)
    } else if kind_at(toks, i) == TokenType::End {
        if depth == 1 {
            Some(i)
        } else {
            block_end_from(toks, i + 1, depth - 1)
        }
    } else {
        block_end_from(toks, i + 1, depth)
    }
}

/// Parameter names of a definition: a run of identifiers, each optionally
/// followed by a comma, closed by `)`.  Returns the names and the position
/// one past the closing parenthesis.
pub open spec fn params_at(toks: Seq<TokenV>, i: int) -> Result<(Seq<Seq<char>>, int), ParseError>
    decreases toks.len() - i,
{
    if !(0 <= i < toks.len()) {
        Err(ParseError::UnexpectedEnd)
    } else if kind_at(toks, i) == TokenType::Identifier {
        let name = text_at(toks, i);
        let j = if i + 1 < toks.len() && kind_at(toks, i + 1) == TokenType::Comma {
            i + 2
        } else {
            i + 1
        };
        match params_at(toks, j) {
            Ok((rest, p)) => Ok((seq![name] + rest, p)),
            Err(e) => Err(e),
        }
    } else if kind_at(toks, i) == TokenType::RParen {
        Ok((Seq::empty(), i + 1))
    } else {
        Err(ParseError::Expected { expected: TokenType::RParen, found: kind_at(toks, i) })
    }
}

/// A primary expression at `i`: a literal, an identifier (possibly a call),
/// a parenthesized expression (possibly called), a definition, or `return`.
pub open spec fn word_at(toks: Seq<TokenV>, i: int) -> Result<(ExprV, int), ParseError>
    decreases toks.len() - i, 1int,
{
    let len = toks.len() as int;
    if !(0 <= i < len) {
        Err(ParseError::UnexpectedEnd)
    } else {
        match kind_at(toks, i) {
            TokenType::Integer => match spec_parse_i64(text_at(toks, i)) {
                Some(v) => Ok((ExprV::Integer(v), i + 1)),
                None => Err(ParseError::BadIntegerLiteral),
            },
            TokenType::Float => Ok((ExprV::Float(text_at(toks, i)), i + 1)),
            TokenType::Text => Ok((ExprV::Text(text_at(toks, i)), i + 1)),
            TokenType::True => Ok((ExprV::Bool(true), i + 1)),
            TokenType::False => Ok((ExprV::Bool(false), i + 1)),
            TokenType::LParen => match expr_at(toks, i + 1) {
                Ok((inner, j0)) => {
                    let j = clip(len, i + 2, j0);
                    if j >= len {
                        Err(ParseError::UnexpectedEnd)
                    } else if kind_at(toks, j) != TokenType::RParen {
                        Err(ParseError::Expected {
                            expected: TokenType::RParen,
                            found: kind_at(toks, j),
                        })
                    } else if j + 1 < len && kind_at(toks, j + 1) == TokenType::LParen {
                        match args_at(toks, j + 2) {
                            Ok((args, j2)) => Ok((ExprV::Call(Box::new(inner), args), j2)),
                            Err(e) => Err(e),
                        }
                    } else {
                        Ok((inner, j + 1))
                    }
                },
                Err(e) => Err(e),
            },
            TokenType::Identifier => {
                let id = ExprV::Identifier(text_at(toks, i));
                if i + 1 < len && kind_at(toks, i + 1) == TokenType::LParen {
                    match args_at(toks, i + 2) {
                        Ok((args, j)) => Ok((ExprV::Call(Box::new(id), args), j)),
                        Err(e) => Err(e),
                    }
                } else {
                    Ok((id, i + 1))
                }
            },
            TokenType::Definition => define_at(toks, i),
            TokenType::Return => match expr_at(toks, i + 1) {
                Ok((value, j)) => Ok((ExprV::Return(Box::new(value)), j)),
                Err(e) => Err(e),
            },
            _ => Err(ParseError::UnexpectedToken { found: kind_at(toks, i) }),
        }
    }
}

/// A function definition at `i` (whose token is `define`): an optional
/// name, a parenthesized parameter list, an optional `-> identifier`
/// return-type annotation, and a block body.
pub open spec fn define_at(toks: Seq<TokenV>, i: int) -> Result<(ExprV, int), ParseError>
    decreases toks.len() - i, 0int,
{
    let len = toks.len() as int;
    let name = if i + 1 < len && kind_at(toks, i + 1) == TokenType::Identifier {
        Some(text_at(toks, i + 1))
    } else {
        None
    };
    let p0 = if name is Some {
        i + 2
    } else {
        i + 1
    };
    if p0 >= len {
        Err(ParseError::UnexpectedEnd)
    } else if kind_at(toks, p0) != TokenType::LParen {
        Err(ParseError::Expected { expected: TokenType::LParen, found: kind_at(toks, p0) })
    } else {
        match params_at(toks, p0 + 1) {
            Ok((params, p1)) => {
                let p2 = clip(len, p0 + 2, p1);
                if p2 < len && kind_at(toks, p2) == TokenType::Arrow {
                    if p2 + 1 >= len {
                        Err(ParseError::UnexpectedEnd)
                    } else if kind_at(toks, p2 + 1) != TokenType::Identifier {
                        Err(ParseError::Expected {
                            expected: TokenType::Identifier,
                            found: kind_at(toks, p2 + 1),
                        })
                    } else {
                        match block_at(toks, p2 + 2) {
                            Ok((body, j)) => Ok((
                                ExprV::Definition(
                                    name,
                                    params,
                                    body,
                                    Some(text_at(toks, p2 + 1)),
                                ),
                                j,
                            )),
                            Err(e) => Err(e),
                        }
                    }
                } else {
                    match block_at(toks, p2) {
                        Ok((body, j)) => Ok((ExprV::Definition(name, params, body, None), j)),
                        Err(e) => Err(e),
                    }
                }
            },
            Err(e) => Err(e),
        }
    }
}

/// The arguments of a call, starting one past the opening parenthesis:
/// full expressions, each followed by a `,` (consumed, list continues) or
/// by the closing `)` (list ends); any other token there is a structural
/// error.  An empty list (immediate `)`) is legal.  Returns the arguments
/// and the position one past the closing parenthesis.
pub open spec fn args_at(toks: Seq<TokenV>, i: int) -> Result<(Seq<ExprV>, int), ParseError>
    decreases toks.len() - i, 13int,
{
    let len = toks.len() as int;
    if !(0 <= i < len) {
        Err(ParseError::UnexpectedEnd)
    } else if kind_at(toks, i) == TokenType::RParen {
        Ok((Seq::empty(), i + 1))
    } else {
        match expr_at(toks, i) {
            Ok((arg, j0)) => {
                let j = clip(len, i + 1, j0);
                if j >= len {
                    Err(ParseError::UnexpectedEnd)
                } else if kind_at(toks, j) == TokenType::Comma {
                    match args_at(toks, j + 1) {
                        Ok((rest, p)) => Ok((seq![arg] + rest, p)),
                        Err(e) => Err(e),
                    }
                } else if kind_at(toks, j) == TokenType::RParen {
                    Ok((seq![arg], j + 1))
                } else {
                    Err(ParseError::Expected {
                        expected: TokenType::RParen,
                        found: kind_at(toks, j),
                    })
                }
            },
            Err(e) => Err(e),
        }
    }
}

/// Binds further operators of rank exactly `r` to `left`, left to right.
pub open spec fn more_ops_at(toks: Seq<TokenV>, left: ExprV, i: int, r: u8) -> Result<
    (ExprV, int),
    ParseError,
>
    decreases toks.len() - i, 2 + 2 * (r as int),
{
    let len = toks.len() as int;
    if r >= 1 && 0 <= i < len && kind_at(toks, i) == TokenType::BinOp {
        match bin_op_of(text_at(toks, i)) {
            Some((op, rank)) => if rank == r {
                match expr_lvl_at(toks, i + 1, (r - 1) as u8) {
                    Ok((right, j0)) => {
                        let j = clip(len, i + 2, j0);
                        more_ops_at(
                            toks,
                            ExprV::Operation(Box::new(left), op, Box::new(right)),
                            j,
                            r,
                        )
                    },
                    Err(e) => Err(e),
                }
            } else {
                Ok((left, i))
            },
            None => Ok((left, i)),
        }
    } else {
        Ok((left, i))
    }
}

/// An expression at `i` built from operators of rank at most `r`; rank 0
/// is a primary expression.
pub open spec fn expr_lvl_at(toks: Seq<TokenV>, i: int, r: u8) -> Result<(ExprV, int), ParseError>
    decreases toks.len() - i, 3 + 2 * (r as int),
{
    if !(0 <= i <= toks.len()) {
        Err(ParseError::UnexpectedEnd)
    } else if r == 0 {
        word_at(toks, i)
    } else {
        match expr_lvl_at(toks, i, (r - 1) as u8) {
            Ok((left, j0)) => {
                let j = clip(toks.len() as int, i + 1, j0);
                more_ops_at(toks, left, j, r)
            },
            Err(e) => Err(e),
        }
    }
}

/// A full expression at `i`: all operator ranks are available.
pub open spec fn expr_at(toks: Seq<TokenV>, i: int) -> Result<(ExprV, int), ParseError>
    decreases toks.len() - i, 12int,
{
    expr_lvl_at(toks, i, 4)
}

/// A block at `i`: `do`, the tokens up to the matching `end`, parsed as a
/// program of their own.  Returns the body and the position one past the
/// `end`.
pub open spec fn block_at(toks: Seq<TokenV>, i: int) -> Result<(Seq<StmtV>, int), ParseError>
    decreases toks.len() - i, 14int,
{
    let len = toks.len() as int;
    if !(0 <= i < len) {
        Err(ParseError::UnexpectedEnd)
    } else if kind_at(toks, i) != TokenType::Do {
        Err(ParseError::Expected { expected: TokenType::Do, found: kind_at(toks, i) })
    } else {
        match block_end_from(toks, i + 1, 1) {
            None => Err(ParseError::MissingBlockEnd),
            Some(e0) => {
                let e = clip(len, i + 1, e0);
                match stmts_from(toks.subrange(i + 1, e), 0) {
                    Ok(body) => Ok((body, e + 1)),
                    Err(err) => Err(err),
                }
            },
        }
    }
}

/// A statement at `i`: an assignment, an `if` (with optional `else`), or
/// an expression statement.
pub open spec fn stmt_at(toks: Seq<TokenV>, i: int) -> Result<(StmtV, int), ParseError>
    decreases toks.len() - i, 15int,
{
    let len = toks.len() as int;
    if !(0 <= i < len) {
        Err(ParseError::UnexpectedEnd)
    } else if kind_at(toks, i) == TokenType::Identifier && i + 1 < len && kind_at(toks, i + 1)
        == TokenType::Assign {
        match expr_at(toks, i + 2) {
            Ok((value, j)) => Ok((StmtV::Assignment(text_at(toks, i), Box::new(value)), j)),
            Err(e) => Err(e),
        }
    } else if kind_at(toks, i) == TokenType::If {
        match expr_at(toks, i + 1) {
            Ok((cond, j0)) => {
                let j = clip(len, i + 2, j0);
                match block_at(toks, j) {
                    Ok((body, j1)) => {
                        let j2 = clip(len, j + 2, j1);
                        if j2 < len && kind_at(toks, j2) == TokenType::Else {
                            match block_at(toks, j2 + 1) {
                                Ok((els, j3)) => Ok((
                                    StmtV::IfElse(
                                        Box::new(cond),
                                        Box::new(StmtV::Block(body)),
                                        Box::new(StmtV::Block(els)),
                                    ),
                                    j3,
                                )),
                                Err(e) => Err(e),
                            }
                        } else {
                            Ok((StmtV::If(Box::new(cond), Box::new(StmtV::Block(body))), j2))
                        }
                    },
                    Err(e) => Err(e),
                }
            },
            Err(e) => Err(e),
        }
    } else {
        match expr_at(toks, i) {
            Ok((e0, j)) => Ok((StmtV::Expression(Box::new(e0)), j)),
            Err(e) => Err(e),
        }
    }
}

/// The statements from `i` to the end of the token sequence.
pub open spec fn stmts_from(toks: Seq<TokenV>, i: int) -> Result<Seq<StmtV>, ParseError>
    decreases toks.len() - i, 16int,
{
    let len = toks.len() as int;
    if i >= len {
        Ok(Seq::empty())
    } else {
        match stmt_at(toks, i) {
            Ok((s, j0)) => {
                let j = clip(len, i + 1, j0);
                match stmts_from(toks, j) {
                    Ok(rest) => Ok(seq![s] + rest),
                    Err(e) => Err(e),
                }
            },
            Err(e) => Err(e),
        }
    }
}

/// The program denoted by a whole token sequence.
pub open spec fn spec_parse_program(toks: Seq<TokenV>) -> Result<Seq<StmtV>, ParseError> {
    stmts_from(toks, 0)
}

} // verus!
