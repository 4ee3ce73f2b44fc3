//! Abstract syntax trees and the parser.
//!
//! The parser consumes a [`Lexer`]'s token list and produces the statement
//! list that the mathematical grammar in [`crate::grammar`] assigns to it.
//! Parsing works on an explicit position into the token list; one token of
//! lookahead decides each parse action, and block bodies are re-parsed as
//! programs of their own over the extracted token run.

use vstd::prelude::*;
use crate::tokens::{Token, TokenType, BinOp};
use crate::errors::ParseError;
use crate::lexer::{Lexer, toks_view};
use crate::numbers::parse_i64;
use crate::scan::clip;
use crate::grammar::{
    ExprV, StmtV, block_end_from, params_at, word_at, define_at, args_at, more_ops_at,
    expr_lvl_at, expr_at, block_at, stmt_at, stmts_from, spec_parse_program,
};

verus! {

/// An expression node.  Every node exclusively owns its children.
///
/// A `Float` holds the literal's exact lexeme: the library keeps numeric
/// text intact and leaves binary floating-point conversion to its callers.
#[derive(Debug, PartialEq)]
pub enum Expression {
    Integer(i64),
    Float(String),
    Text(String),
    Bool(bool),
    Identifier(String),
    Operation(Box<Expression>, BinOp, Box<Expression>),
    Call(Box<Expression>, Vec<Expression>),
    Assignment(Box<Expression>, Box<Expression>),
    Definition(Option<String>, Vec<String>, Vec<Statement>, Option<String>),
    Return(Box<Expression>),
}

/// A statement node.
#[derive(Debug, PartialEq)]
pub enum Statement {
    If(Box<Expression>, Box<Statement>),
    IfElse(Box<Expression>, Box<Statement>, Box<Statement>),
    Block(Vec<Statement>),
    Expression(Box<Expression>),
    Assignment(String, Box<Expression>),
}

/// View of an optional name.
pub open spec fn opt_str_view(o: Option<String>) -> Option<Seq<char>> {
    match o {
        Some(s) => Some(s@),
        None => None,
    }
}

/// Views of a name list, from index `k` on.
pub open spec fn strs_view(v: Vec<String>, k: int) -> Seq<Seq<char>>
    decreases v@.len() - k,
{
    if 0 <= k < v@.len() {
        seq![v@[k]@] + strs_view(v, k + 1)
    } else {
        Seq::empty()
    }
}

/// The mathematical image of an expression.
pub open spec fn expr_view(e: Expression) -> ExprV
    decreases e, 0int,
{
    match e {
        Expression::Integer(x) => ExprV::Integer(x),
        Expression::Float(s) => ExprV::Float(s@),
        Expression::Text(s) => ExprV::Text(s@),
        Expression::Bool(b) => ExprV::Bool(b),
        Expression::Identifier(s) => ExprV::Identifier(s@),
        Expression::Operation(l, op, r) => ExprV::Operation(
            Box::new(expr_view(*l)),
            op,
            Box::new(expr_view(*r)),
        ),
        Expression::Call(f, args) => ExprV::Call(Box::new(expr_view(*f)), exprs_view(args, 0)),
        Expression::Assignment(t, v) => ExprV::Assignment(
            Box::new(expr_view(*t)),
            Box::new(expr_view(*v)),
        ),
        Expression::Definition(name, params, body, ret) => ExprV::Definition(
            opt_str_view(name),
            strs_view(params, 0),
            stmts_view(body, 0),
            opt_str_view(ret),
        ),
        Expression::Return(v) => ExprV::Return(Box::new(expr_view(*v))),
    }
}

/// Views of an expression list, from index `k` on.
pub open spec fn exprs_view(v: Vec<Expression>, k: int) -> Seq<ExprV>
    decreases v, v@.len() - k,
{
    if 0 <= k < v@.len() {
        seq![expr_view(v@[k])] + exprs_view(v, k + 1)
    } else {
        Seq::empty()
    }
}

/// The mathematical image of a statement.
pub open spec fn stmt_view(s: Statement) -> StmtV
    decreases s, 0int,
{
    match s {
        Statement::If(c, b) => StmtV::If(Box::new(expr_view(*c)), Box::new(stmt_view(*b))),
        Statement::IfElse(c, t, e) => StmtV::IfElse(
            Box::new(expr_view(*c)),
            Box::new(stmt_view(*t)),
            Box::new(stmt_view(*e)),
        ),
        Statement::Block(body) => StmtV::Block(stmts_view(body, 0)),
        Statement::Expression(e) => StmtV::Expression(Box::new(expr_view(*e))),
        Statement::Assignment(n, e) => StmtV::Assignment(n@, Box::new(expr_view(*e))),
    }
}

/// Views of a statement list, from index `k` on.
pub open spec fn stmts_view(v: Vec<Statement>, k: int) -> Seq<StmtV>
    decreases v, v@.len() - k,
{
    if 0 <= k < v@.len() {
        seq![stmt_view(v@[k])] + stmts_view(v, k + 1)
    } else {
        Seq::empty()
    }
}

proof fn lemma_strs_shift(v: Vec<String>, a: String, v2: Vec<String>, k: int)
    requires
        v2@ == v@.insert(0, a),
        0 <= k <= v@.len(),
    ensures
        strs_view(v2, k + 1) == strs_view(v, k),
    decreases v@.len() - k,
{
    assert(v2@ =~= seq![a] + v@);
    if k < v@.len() {
        assert(v2@[k + 1] == v@[k]);
        lemma_strs_shift(v, a, v2, k + 1);
    }
}

proof fn lemma_exprs_shift(v: Vec<Expression>, a: Expression, v2: Vec<Expression>, k: int)
    requires
        v2@ == v@.insert(0, a),
        0 <= k <= v@.len(),
    ensures
        exprs_view(v2, k + 1) == exprs_view(v, k),
    decreases v@.len() - k,
{
    assert(v2@ =~= seq![a] + v@);
    if k < v@.len() {
        assert(v2@[k + 1] == v@[k]);
        lemma_exprs_shift(v, a, v2, k + 1);
    }
}

proof fn lemma_stmts_shift(v: Vec<Statement>, a: Statement, v2: Vec<Statement>, k: int)
    requires
        v2@ == v@.insert(0, a),
        0 <= k <= v@.len(),
    ensures
        stmts_view(v2, k + 1) == stmts_view(v, k),
    decreases v@.len() - k,
{
    assert(v2@ =~= seq![a] + v@);
    if k < v@.len() {
        assert(v2@[k + 1] == v@[k]);
        lemma_stmts_shift(v, a, v2, k + 1);
    }
}

/// An owned copy of a token.
fn clone_token(t: &Token) -> (r: Token)
    ensures
        r@ == t@,
{
    Token::new(t.token_type, t.content.clone(), t.row, t.col)
}

/// Parameter names of a definition: identifiers with optional commas,
/// closed by `)`.
fn parse_params(toks: &Vec<Token>, i: usize) -> (r: Result<(Vec<String>, usize), ParseError>)
    requires
        i <= toks@.len(),
    ensures
        (match r {
            Ok((ps, j)) => i < j <= toks@.len() && params_at(toks_view(toks@), i as int)
                == Ok::<_, ParseError>((strs_view(ps, 0), j as int)),
            Err(e) => params_at(toks_view(toks@), i as int) == Err::<(Seq<Seq<char>>, int),
                _,
            >(e),
        }),
    decreases toks@.len() - i,
{
    if i >= toks.len() {
        return Err(ParseError::UnexpectedEnd);
    }
    if toks[i].token_type == TokenType::Identifier {
        let name = toks[i].content.clone();
        let j = if i + 1 < toks.len() && toks[i + 1].token_type == TokenType::Comma {
            i + 2
        } else {
            i + 1
        };
        match parse_params(toks, j) {
            Ok((rest, p)) => {
                let ghost restg = rest;
                let mut ps = rest;
                ps.insert(0, name);
                proof {
                    lemma_strs_shift(restg, name, ps, 0);
                    assert(strs_view(ps, 0) =~= seq![name@] + strs_view(restg, 0));
                }
                Ok((ps, p))
            },
            Err(e) => Err(e),
        }
    } else if toks[i].token_type == TokenType::RParen {
        Ok((Vec::new(), i + 1))
    } else {
        Err(ParseError::Expected { expected: TokenType::RParen, found: toks[i].token_type })
    }
}

/// The index of the `end` matching an already-open block.  The depth is
/// carried in a 128-bit integer only so that no side condition on the
/// token count is needed; it never exceeds the token count plus one.
fn find_end(toks: &Vec<Token>, i: usize, depth: u128) -> (r: Option<usize>)
    requires
        i <= toks@.len(),
        1 <= depth <= i + 1,
    ensures
        (match r {
            Some(e) => i <= e < toks@.len() && toks@[e as int]@.token_type == TokenType::End
                && block_end_from(toks_view(toks@), i as int, depth as int) == Some(e as int),
            None => block_end_from(toks_view(toks@), i as int, depth as int) is None,
        }),
    decreases toks@.len() - i,
{
    if i >= toks.len() {
        return None;
    }
    if toks[i].token_type == TokenType::Do {
        find_end(toks, i + 1, depth + 1)
    } else if toks[i].token_type == TokenType::End {
        if depth == 1 {
            Some(i)
        } else {
            find_end(toks, i + 1, depth - 1)
        }
    } else {
        find_end(toks, i + 1, depth)
    }
}

/// A primary expression: a literal, an identifier or call, a parenthesized
/// expression (possibly called), a definition, or `return`.
#[verifier::rlimit(60)]
fn parse_word(toks: &Vec<Token>, i: usize) -> (r: Result<(Expression, usize), ParseError>)
    requires
        i <= toks@.len(),
    ensures
        (match r {
            Ok((e, j)) => i < j <= toks@.len() && word_at(toks_view(toks@), i as int)
                == Ok::<_, ParseError>((expr_view(e), j as int)),
            Err(pe) => word_at(toks_view(toks@), i as int) == Err::<(ExprV, int), _>(pe),
        }),
    decreases toks@.len() - i, 1int,
{
    if i >= toks.len() {
        return Err(ParseError::UnexpectedEnd);
    }
    let kind = toks[i].token_type;
    match kind {
        TokenType::Integer => match parse_i64(toks[i].content.as_str()) {
            Some(v) => Ok((Expression::Integer(v), i + 1)),
            None => Err(ParseError::BadIntegerLiteral),
        },
        TokenType::Float => Ok((Expression::Float(toks[i].content.clone()), i + 1)),
        TokenType::Text => Ok((Expression::Text(toks[i].content.clone()), i + 1)),
        TokenType::True => Ok((Expression::Bool(true), i + 1)),
        TokenType::False => Ok((Expression::Bool(false), i + 1)),
        TokenType::LParen => match parse_expression(toks, i + 1) {
            Ok((inner, j)) => {
                proof {
                    assert(clip(toks@.len() as int, i as int + 2, j as int) == j as int);
                }
                if j >= toks.len() {
                    Err(ParseError::UnexpectedEnd)
                } else if toks[j].token_type != TokenType::RParen {
                    Err(ParseError::Expected {
                        expected: TokenType::RParen,
                        found: toks[j].token_type,
                    })
                } else if j + 1 < toks.len() && toks[j + 1].token_type == TokenType::LParen {
                    match parse_caller_args(toks, j + 2) {
                        Ok((args, j2)) => Ok((
                            Expression::Call(Box::new(inner), args),
                            j2,
                        )),
                        Err(e) => Err(e),
                    }
                } else {
                    Ok((inner, j + 1))
                }
            },
            Err(e) => Err(e),
        },
        TokenType::Identifier => {
            if i + 1 < toks.len() && toks[i + 1].token_type == TokenType::LParen {
                match parse_caller_args(toks, i + 2) {
                    Ok((args, j)) => {
                        let callee = Expression::Identifier(toks[i].content.clone());
                        proof {
                            assert(expr_view(callee) == ExprV::Identifier(
                                toks@[i as int]@.content,
                            ));
                        }
                        let ghost calleev = expr_view(callee);
                        let ghost argsv = exprs_view(args, 0);
                        let result = Expression::Call(Box::new(callee), args);
                        proof {
                            assert(expr_view(result) == ExprV::Call(
                                Box::new(calleev),
                                argsv,
                            ));
                        }
                        Ok((result, j))
                    },
                    Err(e) => Err(e),
                }
            } else {
                Ok((Expression::Identifier(toks[i].content.clone()), i + 1))
            }
        },
        TokenType::Definition => parse_define(toks, i),
        TokenType::Return => match parse_expression(toks, i + 1) {
            Ok((value, j)) => Ok((Expression::Return(Box::new(value)), j)),
            Err(e) => Err(e),
        },
        _ => Err(ParseError::UnexpectedToken { found: kind }),
    }
}

/// A function definition: optional name, parameter list, optional
/// `-> identifier` annotation, block body.
#[verifier::rlimit(100)]
fn parse_define(toks: &Vec<Token>, i: usize) -> (r: Result<(Expression, usize), ParseError>)
    requires
        i < toks@.len(),
    ensures
        (match r {
            Ok((e, j)) => i < j <= toks@.len() && define_at(toks_view(toks@), i as int)
                == Ok::<_, ParseError>((expr_view(e), j as int)),
            Err(pe) => define_at(toks_view(toks@), i as int) == Err::<(ExprV, int), _>(pe),
        }),
    decreases toks@.len() - i, 0int,
{
    let n = toks.len();
    let has_name = i + 1 < n && toks[i + 1].token_type == TokenType::Identifier;
    let name: Option<String> = if has_name {
        Some(toks[i + 1].content.clone())
    } else {
        None
    };
    let p0 = if has_name {
        i + 2
    } else {
        i + 1
    };
    if p0 >= toks.len() {
        return Err(ParseError::UnexpectedEnd);
    }
    if toks[p0].token_type != TokenType::LParen {
        return Err(ParseError::Expected {
            expected: TokenType::LParen,
            found: toks[p0].token_type,
        });
    }
    match parse_params(toks, p0 + 1) {
        Ok((params, p1)) => {
            proof {
                assert(clip(toks@.len() as int, p0 as int + 2, p1 as int) == p1 as int);
            }
            if p1 < toks.len() && toks[p1].token_type == TokenType::Arrow {
                if p1 + 1 >= toks.len() {
                    Err(ParseError::UnexpectedEnd)
                } else if toks[p1 + 1].token_type != TokenType::Identifier {
                    Err(ParseError::Expected {
                        expected: TokenType::Identifier,
                        found: toks[p1 + 1].token_type,
                    })
                } else {
                    let ret: Option<String> = Some(toks[p1 + 1].content.clone());
                    match parse_block(toks, p1 + 2) {
                        Ok((body, j)) => {
                            let ghost namev = opt_str_view(name);
                            let ghost paramsv = strs_view(params, 0);
                            let ghost bodyv = stmts_view(body, 0);
                            let ghost retv = opt_str_view(ret);
                            let result = Expression::Definition(name, params, body, ret);
                            proof {
                                assert(expr_view(result) == ExprV::Definition(
                                    namev,
                                    paramsv,
                                    bodyv,
                                    retv,
                                ));
                            }
                            Ok((result, j))
                        },
                        Err(e) => Err(e),
                    }
                }
            } else {
                match parse_block(toks, p1) {
                    Ok((body, j)) => {
                        let ghost namev = opt_str_view(name);
                        let ghost paramsv = strs_view(params, 0);
                        let ghost bodyv = stmts_view(body, 0);
                        let result = Expression::Definition(name, params, body, None);
                        proof {
                            assert(expr_view(result) == ExprV::Definition(
                                namev,
                                paramsv,
                                bodyv,
                                None,
                            ));
                        }
                        Ok((result, j))
                    },
                    Err(e) => Err(e),
                }
            }
        },
        Err(e) => Err(e),
    }
}

/// Call arguments, starting one past the opening parenthesis: full
/// expressions, each followed by a comma (list continues) or by the
/// closing parenthesis (list ends); anything else there is an error.
#[verifier::rlimit(60)]
fn parse_caller_args(toks: &Vec<Token>, i: usize) -> (r: Result<
    (Vec<Expression>, usize),
    ParseError,
>)
    requires
        i <= toks@.len(),
    ensures
        (match r {
            Ok((args, j)) => i < j <= toks@.len() && args_at(toks_view(toks@), i as int)
                == Ok::<_, ParseError>((exprs_view(args, 0), j as int)),
            Err(pe) => args_at(toks_view(toks@), i as int) == Err::<(Seq<ExprV>, int), _>(pe),
        }),
    decreases toks@.len() - i, 13int,
{
    if i >= toks.len() {
        return Err(ParseError::UnexpectedEnd);
    }
    if toks[i].token_type == TokenType::RParen {
        return Ok((Vec::new(), i + 1));
    }
    match parse_expression(toks, i) {
        Ok((arg, j)) => {
            proof {
                assert(clip(toks@.len() as int, i as int + 1, j as int) == j as int);
            }
            if j >= toks.len() {
                Err(ParseError::UnexpectedEnd)
            } else if toks[j].token_type == TokenType::Comma {
                match parse_caller_args(toks, j + 1) {
                    Ok((rest, p)) => {
                        let ghost restg = rest;
                        let ghost argg = arg;
                        let mut args = rest;
                        args.insert(0, arg);
                        proof {
                            lemma_exprs_shift(restg, argg, args, 0);
                            assert(exprs_view(args, 0) =~= seq![expr_view(argg)] + exprs_view(
                                restg,
                                0,
                            ));
                        }
                        Ok((args, p))
                    },
                    Err(e) => Err(e),
                }
            } else if toks[j].token_type == TokenType::RParen {
                let ghost argg = arg;
                let mut args: Vec<Expression> = Vec::new();
                args.push(arg);
                proof {
                    assert(exprs_view(args, 1) =~= Seq::<ExprV>::empty());
                    assert(exprs_view(args, 0) =~= seq![expr_view(argg)]);
                }
                Ok((args, j + 1))
            } else {
                Err(ParseError::Expected {
                    expected: TokenType::RParen,
                    found: toks[j].token_type,
                })
            }
        },
        Err(e) => Err(e),
    }
}

/// Binds further operators of rank exactly `r` to `left`, left to right.
#[verifier::rlimit(60)]
fn parse_more_ops(toks: &Vec<Token>, left: Expression, i: usize, r: u8) -> (res: Result<
    (Expression, usize),
    ParseError,
>)
    requires
        i <= toks@.len(),
    ensures
        (match res {
            Ok((e, j)) => i <= j <= toks@.len() && more_ops_at(
                toks_view(toks@),
                expr_view(left),
                i as int,
                r,
            ) == Ok::<_, ParseError>((expr_view(e), j as int)),
            Err(pe) => more_ops_at(toks_view(toks@), expr_view(left), i as int, r) == Err::<
                (ExprV, int),
                _,
            >(pe),
        }),
    decreases toks@.len() - i, 2 + 2 * (r as int),
{
    if r >= 1 && i < toks.len() && toks[i].token_type == TokenType::BinOp {
        match Lexer::bin_op(toks[i].content.as_str()) {
            Some((op, rank)) => {
                if rank == r {
                    match parse_expr_level(toks, i + 1, r - 1) {
                        Ok((right, j)) => {
                            proof {
                                assert(clip(toks@.len() as int, i as int + 2, j as int)
                                    == j as int);
                            }
                            let combined = Expression::Operation(
                                Box::new(left),
                                op,
                                Box::new(right),
                            );
                            parse_more_ops(toks, combined, j, r)
                        },
                        Err(e) => Err(e),
                    }
                } else {
                    Ok((left, i))
                }
            },
            None => Ok((left, i)),
        }
    } else {
        Ok((left, i))
    }
}

/// An expression built from operators of rank at most `r`; rank 0 is a
/// primary expression.
fn parse_expr_level(toks: &Vec<Token>, i: usize, r: u8) -> (res: Result<
    (Expression, usize),
    ParseError,
>)
    requires
        i <= toks@.len(),
    ensures
        (match res {
            Ok((e, j)) => i < j <= toks@.len() && expr_lvl_at(toks_view(toks@), i as int, r)
                == Ok::<_, ParseError>((expr_view(e), j as int)),
            Err(pe) => expr_lvl_at(toks_view(toks@), i as int, r) == Err::<(ExprV, int), _>(pe),
        }),
    decreases toks@.len() - i, 3 + 2 * (r as int),
{
    if r == 0 {
        parse_word(toks, i)
    } else {
        match parse_expr_level(toks, i, r - 1) {
            Ok((left, j)) => {
                proof {
                    assert(clip(toks@.len() as int, i as int + 1, j as int) == j as int);
                }
                parse_more_ops(toks, left, j, r)
            },
            Err(e) => Err(e),
        }
    }
}

/// A full expression: all operator ranks are available.
fn parse_expression(toks: &Vec<Token>, i: usize) -> (r: Result<(Expression, usize), ParseError>)
    requires
        i <= toks@.len(),
    ensures
        (match r {
            Ok((e, j)) => i < j <= toks@.len() && expr_at(toks_view(toks@), i as int)
                == Ok::<_, ParseError>((expr_view(e), j as int)),
            Err(pe) => expr_at(toks_view(toks@), i as int) == Err::<(ExprV, int), _>(pe),
        }),
    decreases toks@.len() - i, 12int,
{
    parse_expr_level(toks, i, 4)
}

/// A block: `do`, the tokens up to the matching `end`, parsed as a program
/// of their own.
#[verifier::rlimit(60)]
fn parse_block(toks: &Vec<Token>, i: usize) -> (r: Result<(Vec<Statement>, usize), ParseError>)
    requires
        i <= toks@.len(),
    ensures
        (match r {
            Ok((body, j)) => i + 1 < j <= toks@.len() && block_at(toks_view(toks@), i as int)
                == Ok::<_, ParseError>((stmts_view(body, 0), j as int)),
            Err(pe) => block_at(toks_view(toks@), i as int) == Err::<(Seq<StmtV>, int), _>(pe),
        }),
    decreases toks@.len() - i, 14int,
{
    if i >= toks.len() {
        return Err(ParseError::UnexpectedEnd);
    }
    if toks[i].token_type != TokenType::Do {
        return Err(ParseError::Expected { expected: TokenType::Do, found: toks[i].token_type });
    }
    match find_end(toks, i + 1, 1) {
        None => Err(ParseError::MissingBlockEnd),
        Some(e) => {
            proof {
                assert(clip(toks@.len() as int, i as int + 1, e as int) == e as int);
            }
            let mut sub: Vec<Token> = Vec::new();
            let mut k = i + 1;
            while k < e
                invariant
                    i + 1 <= k <= e <= toks@.len(),
                    sub@.len() == k - (i + 1),
                    forall|t: int| 0 <= t < sub@.len() ==> #[trigger] sub@[t]@
                        == toks@[i + 1 + t]@,
                decreases e - k,
            {
                sub.push(clone_token(&toks[k]));
                k += 1;
            }
            proof {
                assert(toks_view(sub@) =~= toks_view(toks@).subrange(i as int + 1, e as int));
            }
            match parse_statements(&sub, 0) {
                Ok(body) => Ok((body, e + 1)),
                Err(err) => Err(err),
            }
        },
    }
}

/// A statement: an assignment, an `if` with optional `else`, or an
/// expression statement.
#[verifier::rlimit(60)]
fn parse_statement(toks: &Vec<Token>, i: usize) -> (r: Result<(Statement, usize), ParseError>)
    requires
        i <= toks@.len(),
    ensures
        (match r {
            Ok((s, j)) => i < j <= toks@.len() && stmt_at(toks_view(toks@), i as int)
                == Ok::<_, ParseError>((stmt_view(s), j as int)),
            Err(pe) => stmt_at(toks_view(toks@), i as int) == Err::<(StmtV, int), _>(pe),
        }),
    decreases toks@.len() - i, 15int,
{
    if i >= toks.len() {
        return Err(ParseError::UnexpectedEnd);
    }
    if toks[i].token_type == TokenType::Identifier && i + 1 < toks.len() && toks[i
        + 1].token_type == TokenType::Assign {
        match parse_expression(toks, i + 2) {
            Ok((value, j)) => Ok((
                Statement::Assignment(toks[i].content.clone(), Box::new(value)),
                j,
            )),
            Err(e) => Err(e),
        }
    } else if toks[i].token_type == TokenType::If {
        match parse_expression(toks, i + 1) {
            Ok((cond, j)) => {
                proof {
                    assert(clip(toks@.len() as int, i as int + 2, j as int) == j as int);
                }
                match parse_block(toks, j) {
                    Ok((body, j1)) => {
                        proof {
                            assert(clip(toks@.len() as int, j as int + 2, j1 as int)
                                == j1 as int);
                        }
                        if j1 < toks.len() && toks[j1].token_type == TokenType::Else {
                            match parse_block(toks, j1 + 1) {
                                Ok((els, j3)) => {
                                    let ghost bodyv = stmts_view(body, 0);
                                    let ghost elsv = stmts_view(els, 0);
                                    let tb = Statement::Block(body);
                                    let eb = Statement::Block(els);
                                    proof {
                                        assert(stmt_view(tb) == StmtV::Block(bodyv));
                                        assert(stmt_view(eb) == StmtV::Block(elsv));
                                    }
                                    let ghost tbv = stmt_view(tb);
                                    let ghost ebv = stmt_view(eb);
                                    let ghost condv = expr_view(cond);
                                    let st = Statement::IfElse(
                                        Box::new(cond),
                                        Box::new(tb),
                                        Box::new(eb),
                                    );
                                    proof {
                                        assert(stmt_view(st) == StmtV::IfElse(
                                            Box::new(condv),
                                            Box::new(tbv),
                                            Box::new(ebv),
                                        ));
                                    }
                                    Ok((st, j3))
                                },
                                Err(e) => Err(e),
                            }
                        } else {
                            let ghost bodyv = stmts_view(body, 0);
                            let tb = Statement::Block(body);
                            proof {
                                assert(stmt_view(tb) == StmtV::Block(bodyv));
                            }
                            let ghost tbv = stmt_view(tb);
                            let ghost condv = expr_view(cond);
                            let st = Statement::If(Box::new(cond), Box::new(tb));
                            proof {
                                assert(stmt_view(st) == StmtV::If(
                                    Box::new(condv),
                                    Box::new(tbv),
                                ));
                            }
                            Ok((st, j1))
                        }
                    },
                    Err(e) => Err(e),
                }
            },
            Err(e) => Err(e),
        }
    } else {
        match parse_expression(toks, i) {
            Ok((e0, j)) => Ok((Statement::Expression(Box::new(e0)), j)),
            Err(e) => Err(e),
        }
    }
}

/// The statements from `i` to the end of the token list.
#[verifier::rlimit(60)]
fn parse_statements(toks: &Vec<Token>, i: usize) -> (r: Result<Vec<Statement>, ParseError>)
    requires
        i <= toks@.len(),
    ensures
        (match r {
            Ok(sts) => stmts_from(toks_view(toks@), i as int) == Ok::<_, ParseError>(
                stmts_view(sts, 0),
            ),
            Err(pe) => stmts_from(toks_view(toks@), i as int) == Err::<Seq<StmtV>, _>(pe),
        }),
    decreases toks@.len() - i, 16int,
{
    if i >= toks.len() {
        return Ok(Vec::new());
    }
    match parse_statement(toks, i) {
        Ok((s, j)) => {
            proof {
                assert(clip(toks@.len() as int, i as int + 1, j as int) == j as int);
            }
            match parse_statements(toks, j) {
                Ok(rest) => {
                    let ghost restg = rest;
                    let ghost sg = s;
                    let mut sts = rest;
                    sts.insert(0, s);
                    proof {
                        lemma_stmts_shift(restg, sg, sts, 0);
                        assert(stmts_view(sts, 0) =~= seq![stmt_view(sg)] + stmts_view(
                            restg,
                            0,
                        ));
                    }
                    Ok(sts)
                },
                Err(e) => Err(e),
            }
        },
        Err(e) => Err(e),
    }
}

/// The parser: consumes a lexer's token list and produces the statement
/// list of the program, or the first structural failure.
pub struct Parser {
    pub lexer: Lexer,
}

impl Parser {
    pub fn new() -> (r: Parser)
        ensures
            r.lexer.tokens@.len() == 0,
            r.lexer.top == 0,
            r.lexer.wf(),
    {
        Parser { lexer: Lexer::new() }
    }

    pub fn from(lexer: Lexer) -> (r: Parser)
        ensures
            r.lexer.tokens@ == lexer.tokens@,
            r.lexer.top == lexer.top,
    {
        Parser { lexer }
    }

    /// Parses the statements of the token run from the cursor to the end
    /// of the token list.  On success the cursor rests at the end; on a
    /// structural failure it does not move.
    pub fn parse_full(&mut self) -> (r: Result<Vec<Statement>, ParseError>)
        requires
            old(self).lexer.wf(),
        ensures
            final(self).lexer.wf(),
            final(self).lexer.tokens@ == old(self).lexer.tokens@,
            (match r {
                Ok(sts) => final(self).lexer.top == old(self).lexer.tokens@.len() && stmts_from(
                    toks_view(old(self).lexer.tokens@),
                    old(self).lexer.top as int,
                ) == Ok::<_, ParseError>(stmts_view(sts, 0)),
                Err(e) => final(self).lexer.top == old(self).lexer.top && stmts_from(
                    toks_view(old(self).lexer.tokens@),
                    old(self).lexer.top as int,
                ) == Err::<Seq<StmtV>, _>(e),
            }),
    {
        match parse_statements(&self.lexer.tokens, self.lexer.top) {
            Ok(sts) => {
                self.lexer.top = self.lexer.tokens.len();
                Ok(sts)
            },
            Err(e) => Err(e),
        }
    }

    /// Parses an extracted token list in isolation, as a program of its
    /// own.
    pub fn parse_from_tokens(tokens: Vec<Token>) -> (r: Result<Vec<Statement>, ParseError>)
        ensures
            (match r {
                Ok(sts) => spec_parse_program(toks_view(tokens@)) == Ok::<_, ParseError>(
                    stmts_view(sts, 0),
                ),
                Err(e) => spec_parse_program(toks_view(tokens@)) == Err::<Seq<StmtV>, _>(e),
            }),
    {
        let mut parser = Parser::from(Lexer::from(tokens));
        parser.parse_full()
    }
}

} // verus!
