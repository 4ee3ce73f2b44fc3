//! Laws of the front end, stated over the mathematical scanner and
//! grammar and proved once and for all.

use vstd::prelude::*;
use crate::tokens::{TokenType, TokenV};
use crate::errors::LexError;
use crate::scan::{
    is_digit_char, digits_end, find_char, scan_line, scan_source, spec_tokenize, tokv,
};
use crate::numbers::is_int_lexeme;
use crate::grammar::{
    block_end_from, params_at, word_at, define_at, args_at, more_ops_at, expr_lvl_at, expr_at,
    block_at, stmt_at, stmts_from, spec_parse_program, ExprV,
};

verus! {

/// Number of tokens of the given kind in the range `[i, j)`.
pub open spec fn count_kind(toks: Seq<TokenV>, kind: TokenType, i: int, j: int) -> int
    decreases j - i,
{
    if i < j {
        (if 0 <= i < toks.len() && toks[i].token_type == kind {
            1int
        } else {
            0int
        }) + count_kind(toks, kind, i + 1, j)
    } else {
        0
    }
}

proof fn lemma_count_one(toks: Seq<TokenV>, kind: TokenType, i: int)
    ensures
        count_kind(toks, kind, i, i + 1) == (if 0 <= i < toks.len() && toks[i].token_type
            == kind {
            1int
        } else {
            0int
        }),
{
    assert(count_kind(toks, kind, i + 1, i + 1) == 0);
}

proof fn lemma_count_split(toks: Seq<TokenV>, kind: TokenType, i: int, m: int, j: int)
    requires
        i <= m <= j,
    ensures
        count_kind(toks, kind, i, j) == count_kind(toks, kind, i, m) + count_kind(
            toks,
            kind,
            m,
            j,
        ),
    decreases m - i,
{
    if i < m {
        lemma_count_split(toks, kind, i + 1, m, j);
    } else {
        assert(count_kind(toks, kind, i, i) == 0);
    }
}

proof fn lemma_count_subrange(toks: Seq<TokenV>, lo: int, hi: int, kind: TokenType, i: int, j: int)
    requires
        0 <= lo <= hi <= toks.len(),
        0 <= i <= j <= hi - lo,
    ensures
        count_kind(toks.subrange(lo, hi), kind, i, j) == count_kind(toks, kind, lo + i, lo + j),
    decreases j - i,
{
    if i < j {
        assert(toks.subrange(lo, hi)[i] == toks[lo + i]);
        lemma_count_subrange(toks, lo, hi, kind, i + 1, j);
    }
}

proof fn lemma_block_end_props(toks: Seq<TokenV>, i: int, d: int)
    requires
        block_end_from(toks, i, d) is Some,
    ensures
        i <= block_end_from(toks, i, d)->Some_0 < toks.len(),
        toks[block_end_from(toks, i, d)->Some_0].token_type == TokenType::End,
    decreases toks.len() - i,
{
    if 0 <= i < toks.len() {
        if toks[i].token_type == TokenType::Do {
            lemma_block_end_props(toks, i + 1, d + 1);
        } else if toks[i].token_type == TokenType::End {
            if d != 1 {
                lemma_block_end_props(toks, i + 1, d - 1);
            }
        } else {
            lemma_block_end_props(toks, i + 1, d);
        }
    }
}

proof fn lemma_params_clean(toks: Seq<TokenV>, i: int)
    requires
        params_at(toks, i) is Ok,
    ensures
        i < params_at(toks, i)->Ok_0.1 <= toks.len(),
        count_kind(toks, TokenType::Do, i, params_at(toks, i)->Ok_0.1) == 0,
        count_kind(toks, TokenType::End, i, params_at(toks, i)->Ok_0.1) == 0,
    decreases toks.len() - i,
{
    let p = params_at(toks, i)->Ok_0.1;
    if toks[i].token_type == TokenType::Identifier {
        let j = if i + 1 < toks.len() && toks[i + 1].token_type == TokenType::Comma {
            i + 2
        } else {
            i + 1
        };
        lemma_params_clean(toks, j);
        lemma_count_split(toks, TokenType::Do, i, j, p);
        lemma_count_split(toks, TokenType::End, i, j, p);
        if j == i + 2 {
            lemma_count_split(toks, TokenType::Do, i, i + 1, j);
            lemma_count_split(toks, TokenType::End, i, i + 1, j);
            lemma_count_one(toks, TokenType::Do, i + 1);
            lemma_count_one(toks, TokenType::End, i + 1);
        }
        lemma_count_one(toks, TokenType::Do, i);
        lemma_count_one(toks, TokenType::End, i);
    } else {
        lemma_count_one(toks, TokenType::Do, i);
        lemma_count_one(toks, TokenType::End, i);
    }
}

proof fn lemma_word_balance(toks: Seq<TokenV>, i: int)
    requires
        word_at(toks, i) is Ok,
    ensures
        i < word_at(toks, i)->Ok_0.1 <= toks.len(),
        count_kind(toks, TokenType::Do, i, word_at(toks, i)->Ok_0.1) == count_kind(
            toks,
            TokenType::End,
            i,
            word_at(toks, i)->Ok_0.1,
        ),
    decreases toks.len() - i, 1int,
{
    let len = toks.len() as int;
    let j = word_at(toks, i)->Ok_0.1;
    let kind = toks[i].token_type;
    if kind == TokenType::Definition {
        lemma_define_balance(toks, i);
    } else if kind == TokenType::LParen {
        lemma_expr_balance(toks, i + 1);
        let j0 = expr_at(toks, i + 1)->Ok_0.1;
        if j0 + 1 < len && toks[j0 + 1].token_type == TokenType::LParen {
            lemma_args_balance(toks, j0 + 2);
            lemma_count_split(toks, TokenType::Do, i, i + 1, j);
            lemma_count_split(toks, TokenType::End, i, i + 1, j);
            lemma_count_split(toks, TokenType::Do, i + 1, j0, j);
            lemma_count_split(toks, TokenType::End, i + 1, j0, j);
            lemma_count_split(toks, TokenType::Do, j0, j0 + 1, j);
            lemma_count_split(toks, TokenType::End, j0, j0 + 1, j);
            lemma_count_split(toks, TokenType::Do, j0 + 1, j0 + 2, j);
            lemma_count_split(toks, TokenType::End, j0 + 1, j0 + 2, j);
            lemma_count_one(toks, TokenType::Do, i);
            lemma_count_one(toks, TokenType::End, i);
            lemma_count_one(toks, TokenType::Do, j0);
            lemma_count_one(toks, TokenType::End, j0);
            lemma_count_one(toks, TokenType::Do, j0 + 1);
            lemma_count_one(toks, TokenType::End, j0 + 1);
        } else {
            lemma_count_split(toks, TokenType::Do, i, i + 1, j);
            lemma_count_split(toks, TokenType::End, i, i + 1, j);
            lemma_count_split(toks, TokenType::Do, i + 1, j0, j);
            lemma_count_split(toks, TokenType::End, i + 1, j0, j);
            lemma_count_one(toks, TokenType::Do, i);
            lemma_count_one(toks, TokenType::End, i);
            lemma_count_one(toks, TokenType::Do, j0);
            lemma_count_one(toks, TokenType::End, j0);
        }
    } else if kind == TokenType::Identifier {
        if i + 1 < len && toks[i + 1].token_type == TokenType::LParen {
            lemma_args_balance(toks, i + 2);
            lemma_count_split(toks, TokenType::Do, i, i + 1, j);
            lemma_count_split(toks, TokenType::End, i, i + 1, j);
            lemma_count_split(toks, TokenType::Do, i + 1, i + 2, j);
            lemma_count_split(toks, TokenType::End, i + 1, i + 2, j);
            lemma_count_one(toks, TokenType::Do, i);
            lemma_count_one(toks, TokenType::End, i);
            lemma_count_one(toks, TokenType::Do, i + 1);
            lemma_count_one(toks, TokenType::End, i + 1);
        } else {
            lemma_count_one(toks, TokenType::Do, i);
            lemma_count_one(toks, TokenType::End, i);
        }
    } else if kind == TokenType::Return {
        lemma_expr_balance(toks, i + 1);
        lemma_count_split(toks, TokenType::Do, i, i + 1, j);
        lemma_count_split(toks, TokenType::End, i, i + 1, j);
        lemma_count_one(toks, TokenType::Do, i);
        lemma_count_one(toks, TokenType::End, i);
    } else {
        lemma_count_one(toks, TokenType::Do, i);
        lemma_count_one(toks, TokenType::End, i);
    }
}

#[verifier::rlimit(100)]
proof fn lemma_define_balance(toks: Seq<TokenV>, i: int)
    requires
        define_at(toks, i) is Ok,
        0 <= i < toks.len(),
        toks[i].token_type == TokenType::Definition,
    ensures
        i < define_at(toks, i)->Ok_0.1 <= toks.len(),
        count_kind(toks, TokenType::Do, i, define_at(toks, i)->Ok_0.1) == count_kind(
            toks,
            TokenType::End,
            i,
            define_at(toks, i)->Ok_0.1,
        ),
    decreases toks.len() - i, 0int,
{
    let len = toks.len() as int;
    let j = define_at(toks, i)->Ok_0.1;
    let p0 = if i + 1 < len && toks[i + 1].token_type == TokenType::Identifier {
        i + 2
    } else {
        i + 1
    };
    lemma_params_clean(toks, p0 + 1);
    let p1 = params_at(toks, p0 + 1)->Ok_0.1;
    let body = if p1 < len && toks[p1].token_type == TokenType::Arrow {
        p1 + 2
    } else {
        p1
    };
    lemma_block_balance(toks, body);
    lemma_count_split(toks, TokenType::Do, i, p0 + 1, j);
    lemma_count_split(toks, TokenType::End, i, p0 + 1, j);
    lemma_count_split(toks, TokenType::Do, p0 + 1, p1, j);
    lemma_count_split(toks, TokenType::End, p0 + 1, p1, j);
    lemma_count_split(toks, TokenType::Do, p1, body, j);
    lemma_count_split(toks, TokenType::End, p1, body, j);
    assert(count_kind(toks, TokenType::Do, i, p0 + 1) == 0 && count_kind(
        toks,
        TokenType::End,
        i,
        p0 + 1,
    ) == 0) by {
        lemma_count_split(toks, TokenType::Do, i, i + 1, p0 + 1);
        lemma_count_split(toks, TokenType::End, i, i + 1, p0 + 1);
        lemma_count_one(toks, TokenType::Do, i);
        lemma_count_one(toks, TokenType::End, i);
        if p0 == i + 2 {
            lemma_count_split(toks, TokenType::Do, i + 1, i + 2, p0 + 1);
            lemma_count_split(toks, TokenType::End, i + 1, i + 2, p0 + 1);
            lemma_count_one(toks, TokenType::Do, i + 1);
            lemma_count_one(toks, TokenType::End, i + 1);
        }
        lemma_count_one(toks, TokenType::Do, p0);
        lemma_count_one(toks, TokenType::End, p0);
    }
    assert(count_kind(toks, TokenType::Do, p1, body) == 0 && count_kind(
        toks,
        TokenType::End,
        p1,
        body,
    ) == 0) by {
        if body == p1 + 2 {
            lemma_count_split(toks, TokenType::Do, p1, p1 + 1, body);
            lemma_count_split(toks, TokenType::End, p1, p1 + 1, body);
            lemma_count_one(toks, TokenType::Do, p1);
            lemma_count_one(toks, TokenType::End, p1);
            lemma_count_one(toks, TokenType::Do, p1 + 1);
            lemma_count_one(toks, TokenType::End, p1 + 1);
        } else {
            assert(count_kind(toks, TokenType::Do, p1, p1) == 0);
            assert(count_kind(toks, TokenType::End, p1, p1) == 0);
        }
    }
}

proof fn lemma_args_balance(toks: Seq<TokenV>, i: int)
    requires
        args_at(toks, i) is Ok,
    ensures
        i < args_at(toks, i)->Ok_0.1 <= toks.len(),
        count_kind(toks, TokenType::Do, i, args_at(toks, i)->Ok_0.1) == count_kind(
            toks,
            TokenType::End,
            i,
            args_at(toks, i)->Ok_0.1,
        ),
    decreases toks.len() - i, 13int,
{
    let len = toks.len() as int;
    let p = args_at(toks, i)->Ok_0.1;
    if toks[i].token_type == TokenType::RParen {
        lemma_count_one(toks, TokenType::Do, i);
        lemma_count_one(toks, TokenType::End, i);
    } else {
        lemma_expr_balance(toks, i);
        let j = expr_at(toks, i)->Ok_0.1;
        if toks[j].token_type == TokenType::Comma {
            lemma_args_balance(toks, j + 1);
        }
        lemma_count_split(toks, TokenType::Do, i, j, p);
        lemma_count_split(toks, TokenType::End, i, j, p);
        lemma_count_split(toks, TokenType::Do, j, j + 1, p);
        lemma_count_split(toks, TokenType::End, j, j + 1, p);
        lemma_count_one(toks, TokenType::Do, j);
        lemma_count_one(toks, TokenType::End, j);
    }
}

proof fn lemma_more_ops_balance(toks: Seq<TokenV>, left: ExprV, i: int, r: u8)
    requires
        more_ops_at(toks, left, i, r) is Ok,
        0 <= i <= toks.len(),
    ensures
        i <= more_ops_at(toks, left, i, r)->Ok_0.1 <= toks.len(),
        count_kind(toks, TokenType::Do, i, more_ops_at(toks, left, i, r)->Ok_0.1) == count_kind(
            toks,
            TokenType::End,
            i,
            more_ops_at(toks, left, i, r)->Ok_0.1,
        ),
    decreases toks.len() - i, 2 + 2 * (r as int),
{
    let len = toks.len() as int;
    let p = more_ops_at(toks, left, i, r)->Ok_0.1;
    if r >= 1 && 0 <= i < len && toks[i].token_type == TokenType::BinOp {
        match crate::scan::bin_op_of(toks[i].content) {
            Some((op, rank)) => {
                if rank == r {
                    lemma_expr_lvl_balance(toks, i + 1, (r - 1) as u8);
                    let j0 = expr_lvl_at(toks, i + 1, (r - 1) as u8)->Ok_0.1;
                    let combined = ExprV::Operation(
                        Box::new(left),
                        op,
                        Box::new(expr_lvl_at(toks, i + 1, (r - 1) as u8)->Ok_0.0),
                    );
                    lemma_more_ops_balance(toks, combined, j0, r);
                    lemma_count_split(toks, TokenType::Do, i, i + 1, p);
                    lemma_count_split(toks, TokenType::End, i, i + 1, p);
                    lemma_count_split(toks, TokenType::Do, i + 1, j0, p);
                    lemma_count_split(toks, TokenType::End, i + 1, j0, p);
                    lemma_count_one(toks, TokenType::Do, i);
                    lemma_count_one(toks, TokenType::End, i);
                } else {
                    assert(count_kind(toks, TokenType::Do, i, i) == 0);
                    assert(count_kind(toks, TokenType::End, i, i) == 0);
                }
            },
            None => {
                assert(count_kind(toks, TokenType::Do, i, i) == 0);
                assert(count_kind(toks, TokenType::End, i, i) == 0);
            },
        }
    } else {
        assert(count_kind(toks, TokenType::Do, i, i) == 0);
        assert(count_kind(toks, TokenType::End, i, i) == 0);
    }
}

proof fn lemma_expr_lvl_balance(toks: Seq<TokenV>, i: int, r: u8)
    requires
        expr_lvl_at(toks, i, r) is Ok,
    ensures
        i < expr_lvl_at(toks, i, r)->Ok_0.1 <= toks.len(),
        count_kind(toks, TokenType::Do, i, expr_lvl_at(toks, i, r)->Ok_0.1) == count_kind(
            toks,
            TokenType::End,
            i,
            expr_lvl_at(toks, i, r)->Ok_0.1,
        ),
    decreases toks.len() - i, 3 + 2 * (r as int),
{
    if r == 0 {
        lemma_word_balance(toks, i);
    } else {
        lemma_expr_lvl_balance(toks, i, (r - 1) as u8);
        let j0 = expr_lvl_at(toks, i, (r - 1) as u8)->Ok_0.1;
        let left = expr_lvl_at(toks, i, (r - 1) as u8)->Ok_0.0;
        lemma_more_ops_balance(toks, left, j0, r);
        let p = expr_lvl_at(toks, i, r)->Ok_0.1;
        lemma_count_split(toks, TokenType::Do, i, j0, p);
        lemma_count_split(toks, TokenType::End, i, j0, p);
    }
}

proof fn lemma_expr_balance(toks: Seq<TokenV>, i: int)
    requires
        expr_at(toks, i) is Ok,
    ensures
        i < expr_at(toks, i)->Ok_0.1 <= toks.len(),
        count_kind(toks, TokenType::Do, i, expr_at(toks, i)->Ok_0.1) == count_kind(
            toks,
            TokenType::End,
            i,
            expr_at(toks, i)->Ok_0.1,
        ),
    decreases toks.len() - i, 12int,
{
    lemma_expr_lvl_balance(toks, i, 4);
}

proof fn lemma_block_balance(toks: Seq<TokenV>, i: int)
    requires
        block_at(toks, i) is Ok,
    ensures
        i + 1 < block_at(toks, i)->Ok_0.1 <= toks.len(),
        count_kind(toks, TokenType::Do, i, block_at(toks, i)->Ok_0.1) == count_kind(
            toks,
            TokenType::End,
            i,
            block_at(toks, i)->Ok_0.1,
        ),
    decreases toks.len() - i, 14int,
{
    let len = toks.len() as int;
    lemma_block_end_props(toks, i + 1, 1);
    let e = block_end_from(toks, i + 1, 1)->Some_0;
    let sub = toks.subrange(i + 1, e);
    lemma_stmts_balance(sub, 0);
    lemma_count_subrange(toks, i + 1, e, TokenType::Do, 0, e - (i + 1));
    lemma_count_subrange(toks, i + 1, e, TokenType::End, 0, e - (i + 1));
    lemma_count_split(toks, TokenType::Do, i, i + 1, e + 1);
    lemma_count_split(toks, TokenType::End, i, i + 1, e + 1);
    lemma_count_split(toks, TokenType::Do, i + 1, e, e + 1);
    lemma_count_split(toks, TokenType::End, i + 1, e, e + 1);
    lemma_count_one(toks, TokenType::Do, i);
    lemma_count_one(toks, TokenType::End, i);
    lemma_count_one(toks, TokenType::Do, e);
    lemma_count_one(toks, TokenType::End, e);
}

proof fn lemma_stmt_balance(toks: Seq<TokenV>, i: int)
    requires
        stmt_at(toks, i) is Ok,
    ensures
        i < stmt_at(toks, i)->Ok_0.1 <= toks.len(),
        count_kind(toks, TokenType::Do, i, stmt_at(toks, i)->Ok_0.1) == count_kind(
            toks,
            TokenType::End,
            i,
            stmt_at(toks, i)->Ok_0.1,
        ),
    decreases toks.len() - i, 15int,
{
    let len = toks.len() as int;
    let p = stmt_at(toks, i)->Ok_0.1;
    if toks[i].token_type == TokenType::Identifier && i + 1 < len && toks[i + 1].token_type
        == TokenType::Assign {
        lemma_expr_balance(toks, i + 2);
        lemma_count_split(toks, TokenType::Do, i, i + 1, p);
        lemma_count_split(toks, TokenType::End, i, i + 1, p);
        lemma_count_split(toks, TokenType::Do, i + 1, i + 2, p);
        lemma_count_split(toks, TokenType::End, i + 1, i + 2, p);
        lemma_count_one(toks, TokenType::Do, i);
        lemma_count_one(toks, TokenType::End, i);
        lemma_count_one(toks, TokenType::Do, i + 1);
        lemma_count_one(toks, TokenType::End, i + 1);
    } else if toks[i].token_type == TokenType::If {
        lemma_expr_balance(toks, i + 1);
        let j = expr_at(toks, i + 1)->Ok_0.1;
        lemma_block_balance(toks, j);
        let j1 = block_at(toks, j)->Ok_0.1;
        if j1 < len && toks[j1].token_type == TokenType::Else {
            lemma_block_balance(toks, j1 + 1);
            lemma_count_split(toks, TokenType::Do, i, i + 1, p);
            lemma_count_split(toks, TokenType::End, i, i + 1, p);
            lemma_count_split(toks, TokenType::Do, i + 1, j, p);
            lemma_count_split(toks, TokenType::End, i + 1, j, p);
            lemma_count_split(toks, TokenType::Do, j, j1, p);
            lemma_count_split(toks, TokenType::End, j, j1, p);
            lemma_count_split(toks, TokenType::Do, j1, j1 + 1, p);
            lemma_count_split(toks, TokenType::End, j1, j1 + 1, p);
            lemma_count_one(toks, TokenType::Do, i);
            lemma_count_one(toks, TokenType::End, i);
            lemma_count_one(toks, TokenType::Do, j1);
            lemma_count_one(toks, TokenType::End, j1);
        } else {
            lemma_count_split(toks, TokenType::Do, i, i + 1, p);
            lemma_count_split(toks, TokenType::End, i, i + 1, p);
            lemma_count_split(toks, TokenType::Do, i + 1, j, p);
            lemma_count_split(toks, TokenType::End, i + 1, j, p);
            lemma_count_one(toks, TokenType::Do, i);
            lemma_count_one(toks, TokenType::End, i);
        }
    } else {
        lemma_expr_balance(toks, i);
    }
}

proof fn lemma_stmts_balance(toks: Seq<TokenV>, i: int)
    requires
        stmts_from(toks, i) is Ok,
        0 <= i,
    ensures
        count_kind(toks, TokenType::Do, i, toks.len() as int) == count_kind(
            toks,
            TokenType::End,
            i,
            toks.len() as int,
        ),
    decreases toks.len() - i, 16int,
{
    let len = toks.len() as int;
    if i >= len {
        assert(count_kind(toks, TokenType::Do, i, len) == 0);
        assert(count_kind(toks, TokenType::End, i, len) == 0);
    } else {
        lemma_stmt_balance(toks, i);
        let j = stmt_at(toks, i)->Ok_0.1;
        lemma_stmts_balance(toks, j);
        lemma_count_split(toks, TokenType::Do, i, j, len);
        lemma_count_split(toks, TokenType::End, i, j, len);
    }
}

/// Law: a token sequence with unequal numbers of `do` and `end` tokens
/// has no parse; the parser reports a structural error on it rather than
/// silently returning a truncated or over-extended statement list.
pub proof fn lemma_unbalanced_markers_fail(toks: Seq<TokenV>)
    requires
        count_kind(toks, TokenType::Do, 0, toks.len() as int) != count_kind(
            toks,
            TokenType::End,
            0,
            toks.len() as int,
        ),
    ensures
        spec_parse_program(toks) is Err,
{
    if spec_parse_program(toks) is Ok {
        lemma_stmts_balance(toks, 0);
    }
}

proof fn lemma_find_char_none(s: Seq<char>, i: int, c: char)
    requires
        forall|k: int| i <= k < s.len() ==> s[k] != c,
    ensures
        find_char(s, i, c) is None,
    decreases s.len() - i,
{
    if 0 <= i < s.len() {
        lemma_find_char_none(s, i + 1, c);
    }
}

proof fn lemma_find_char_first(s: Seq<char>, i: int, c: char, j: int)
    requires
        0 <= i <= j < s.len(),
        s[j] == c,
        forall|k: int| i <= k < j ==> s[k] != c,
    ensures
        find_char(s, i, c) == Some(j),
    decreases j - i,
{
    if i < j {
        lemma_find_char_first(s, i + 1, c, j);
    }
}

proof fn lemma_digits_end_at(s: Seq<char>, p: int, d: int)
    requires
        0 <= p <= d <= s.len(),
        forall|k: int| p <= k < d ==> is_digit_char(#[trigger] s[k]),
        d == s.len() || !is_digit_char(s[d]),
    ensures
        digits_end(s, p) == d,
    decreases d - p,
{
    if p < d {
        lemma_digits_end_at(s, p + 1, d);
    }
}

/// Law: tokenizing a lexeme of the shape `-?digits` yields exactly one
/// `Integer` token whose text is the whole lexeme, so re-reading the
/// token's text gives back the literal's value exactly.
pub proof fn lemma_tokenize_integer_lexeme(s: Seq<char>)
    requires
        is_int_lexeme(s),
    ensures
        spec_tokenize(s) == Ok::<Seq<TokenV>, LexError>(
            seq![tokv(TokenType::Integer, s, 1, s.len() as int)],
        ),
{
    let len = s.len() as int;
    assert(forall|k: int| 1 <= k < len ==> is_digit_char(#[trigger] s[k])) by {
        if s[0] == '-' {
            assert forall|k: int| 1 <= k < len implies is_digit_char(#[trigger] s[k]) by {
                assert(s.skip(1)[k - 1] == s[k]);
            }
        }
    }
    assert(forall|k: int| 0 <= k < len ==> s[k] != '\n');
    lemma_find_char_none(s, 0, '\n');
    if s[0] == '-' {
        lemma_digits_end_at(s, 1, len);
    } else {
        lemma_digits_end_at(s, 0, len);
    }
    assert(s.subrange(0, len) =~= s);
    assert(scan_line(s, len, 1) == Ok::<Seq<TokenV>, LexError>(Seq::empty()));
    assert(seq![tokv(TokenType::Integer, s, 1, len)] + Seq::<TokenV>::empty() =~= seq![
        tokv(TokenType::Integer, s, 1, len),
    ]);
    assert(scan_line(s, 0, 1) == Ok::<Seq<TokenV>, LexError>(
        seq![tokv(TokenType::Integer, s, 1, len)],
    ));
    assert(scan_source(s, 1) == scan_line(s, 0, 1));
}

/// Law: tokenizing a lexeme of the shape `-?digits.digits` (the dot at
/// position `d`) yields exactly one `Float` token whose text is the whole
/// lexeme, so re-reading the token's text gives back the literal exactly.
pub proof fn lemma_tokenize_float_lexeme(s: Seq<char>, d: int)
    requires
        0 <= d,
        d + 1 < s.len(),
        s[d] == '.',
        if s[0] == '-' {
            2 <= d
        } else {
            1 <= d
        },
        forall|k: int| (if s[0] == '-' { 1int } else { 0int }) <= k < d ==> is_digit_char(
            #[trigger] s[k],
        ),
        forall|k: int| d < k < s.len() ==> is_digit_char(#[trigger] s[k]),
    ensures
        spec_tokenize(s) == Ok::<Seq<TokenV>, LexError>(
            seq![tokv(TokenType::Float, s, 1, s.len() as int)],
        ),
{
    let len = s.len() as int;
    assert(forall|k: int| 0 <= k < len ==> s[k] != '\n');
    lemma_find_char_none(s, 0, '\n');
    let p: int = if s[0] == '-' {
        1
    } else {
        0
    };
    lemma_digits_end_at(s, p, d);
    lemma_digits_end_at(s, d + 1, len);
    assert(s.subrange(0, len) =~= s);
    assert(scan_line(s, len, 1) == Ok::<Seq<TokenV>, LexError>(Seq::empty()));
    assert(seq![tokv(TokenType::Float, s, 1, len)] + Seq::<TokenV>::empty() =~= seq![
        tokv(TokenType::Float, s, 1, len),
    ]);
    assert(scan_line(s, 0, 1) == Ok::<Seq<TokenV>, LexError>(
        seq![tokv(TokenType::Float, s, 1, len)],
    ));
    assert(scan_source(s, 1) == scan_line(s, 0, 1));
}

/// Law: tokenizing a string delimited by matching quotes with no interior
/// occurrence of that delimiter yields one `Text` token whose content is
/// the inner substring with the delimiters stripped.
pub proof fn lemma_tokenize_string_literal(delim: char, inner: Seq<char>)
    requires
        delim == '"' || delim == '\'',
        forall|k: int| 0 <= k < inner.len() ==> inner[k] != delim,
        forall|k: int| 0 <= k < inner.len() ==> inner[k] != '\n',
    ensures
        spec_tokenize(seq![delim] + inner + seq![delim]) == Ok::<Seq<TokenV>, LexError>(
            seq![tokv(TokenType::Text, inner, 1, inner.len() as int + 1)],
        ),
{
    let s = seq![delim] + inner + seq![delim];
    let len = s.len() as int;
    assert(len == inner.len() + 2);
    assert(s[0] == delim);
    assert(s[len - 1] == delim);
    assert(forall|k: int| 1 <= k < len - 1 ==> s[k] == inner[k - 1]);
    assert(forall|k: int| 0 <= k < len ==> s[k] != '\n');
    lemma_find_char_none(s, 0, '\n');
    lemma_find_char_first(s, 1, delim, len - 1);
    assert(s.subrange(1, len - 1) =~= inner);
    assert(scan_line(s, len, 1) == Ok::<Seq<TokenV>, LexError>(Seq::empty()));
    assert(seq![tokv(TokenType::Text, inner, 1, len - 1)] + Seq::<TokenV>::empty() =~= seq![
        tokv(TokenType::Text, inner, 1, len - 1),
    ]);
    assert(scan_line(s, 0, 1) == Ok::<Seq<TokenV>, LexError>(
        seq![tokv(TokenType::Text, inner, 1, len - 1)],
    ));
    assert(scan_source(s, 1) == scan_line(s, 0, 1));
}

} // verus!
