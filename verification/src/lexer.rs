//! The executable lexer: scans source text into a token list and exposes a
//! bidirectional cursor over it.
//!
//! Every scanning routine is proved to agree with the mathematical scanner
//! in [`crate::scan`].

use vstd::prelude::*;
use vstd::string::StrSliceExecFns;
use vstd::string::StringExecFns;
use crate::tokens::{Token, TokenType, TokenV, BinOp};
use crate::errors::{LexError, ParseError};
use crate::scan::{
    is_digit_char, is_alpha_char, is_ident_char, keyword_kind, bin_op_of, punct_kind,
    ident_end, digits_end, find_char, clip, tokv, scan_line, strip_cr, scan_source,
    spec_tokenize,
};

verus! {

/// The token views of a token sequence, in order.
pub open spec fn toks_view(s: Seq<Token>) -> Seq<TokenV> {
    Seq::new(s.len(), |i: int| s[i]@)
}

proof fn lemma_toks_view_push(s: Seq<Token>, t: Token)
    ensures
        toks_view(s.push(t)) == toks_view(s).push(t@),
{
    assert(toks_view(s.push(t)) =~= toks_view(s).push(t@));
}

proof fn lemma_toks_view_concat(a: Seq<Token>, b: Seq<Token>)
    ensures
        toks_view(a + b) == toks_view(a) + toks_view(b),
{
    assert(toks_view(a + b) =~= toks_view(a) + toks_view(b));
}

/// True exactly when the two string slices hold the same characters.
fn str_eq(a: &str, b: &str) -> (r: bool)
    ensures
        r == (a@ == b@),
{
    let n = a.unicode_len();
    let m = b.unicode_len();
    if n != m {
        return false;
    }
    let mut k: usize = 0;
    while k < n
        invariant
            n == a@.len(),
            n == b@.len(),
            k <= n,
            forall|t: int| 0 <= t < k ==> a@[t] == b@[t],
        decreases n - k,
    {
        if a.get_char(k) != b.get_char(k) {
            return false;
        }
        k += 1;
    }
    proof {
        assert(a@ =~= b@);
    }
    true
}

/// The characters of a string slice, as a vector.
fn str_to_chars(s: &str) -> (v: Vec<char>)
    ensures
        v@ == s@,
{
    let n = s.unicode_len();
    let mut v: Vec<char> = Vec::new();
    let mut k: usize = 0;
    while k < n
        invariant
            n == s@.len(),
            k <= n,
            v@ == s@.subrange(0, k as int),
        decreases n - k,
    {
        v.push(s.get_char(k));
        proof {
            assert(v@ =~= s@.subrange(0, k + 1 as int));
        }
        k += 1;
    }
    proof {
        assert(v@ =~= s@);
    }
    v
}

fn char_is_digit(c: char) -> (r: bool)
    ensures
        r == is_digit_char(c),
{
    let u: u32 = c as u32;
    ('0' as u32) <= u && u <= ('9' as u32)
}

fn char_is_alpha(c: char) -> (r: bool)
    ensures
        r == is_alpha_char(c),
{
    let u: u32 = c as u32;
    (('a' as u32) <= u && u <= ('z' as u32)) || (('A' as u32) <= u && u <= ('Z' as u32))
}

fn char_is_ident(c: char) -> (r: bool)
    ensures
        r == is_ident_char(c),
{
    char_is_alpha(c) || char_is_digit(c) || c == '_' || c == '?' || c == '!'
}

/// The keyword kind of a lexeme, if it is one.
fn keyword_of(s: &str) -> (r: Option<TokenType>)
    ensures
        r == keyword_kind(s@),
{
    if str_eq(s, "define") {
        Some(TokenType::Definition)
    } else if str_eq(s, "lambda") {
        Some(TokenType::Lambda)
    } else if str_eq(s, "if") {
        Some(TokenType::If)
    } else if str_eq(s, "else") {
        Some(TokenType::Else)
    } else if str_eq(s, "return") {
        Some(TokenType::Return)
    } else if str_eq(s, "true") {
        Some(TokenType::True)
    } else if str_eq(s, "false") {
        Some(TokenType::False)
    } else if str_eq(s, "do") {
        Some(TokenType::Do)
    } else if str_eq(s, "end") {
        Some(TokenType::End)
    } else {
        None
    }
}

fn find_char_from(lc: &Vec<char>, i: usize, c: char) -> (r: Option<usize>)
    requires
        i <= lc@.len(),
    ensures
        (match r {
            Some(j) => i <= j < lc@.len() && find_char(lc@, i as int, c) == Some(j as int),
            None => find_char(lc@, i as int, c) is None,
        }),
    decreases lc@.len() - i,
{
    if i >= lc.len() {
        None
    } else if lc[i] == c {
        Some(i)
    } else {
        find_char_from(lc, i + 1, c)
    }
}

fn ident_run_end(lc: &Vec<char>, i: usize) -> (e: usize)
    requires
        i <= lc@.len(),
    ensures
        e as int == ident_end(lc@, i as int),
        i <= e <= lc@.len(),
        i < lc@.len() && is_ident_char(lc@[i as int]) ==> e >= i + 1,
    decreases lc@.len() - i,
{
    if i < lc.len() && char_is_ident(lc[i]) {
        ident_run_end(lc, i + 1)
    } else {
        i
    }
}

fn digits_run_end(lc: &Vec<char>, i: usize) -> (e: usize)
    requires
        i <= lc@.len(),
    ensures
        e as int == digits_end(lc@, i as int),
        i <= e <= lc@.len(),
        i < lc@.len() && is_digit_char(lc@[i as int]) ==> e >= i + 1,
    decreases lc@.len() - i,
{
    if i < lc.len() && char_is_digit(lc[i]) {
        digits_run_end(lc, i + 1)
    } else {
        i
    }
}

/// Scans one line from position `i` onward, appending the tokens to `out`.
#[verifier::rlimit(60)]
fn scan_line_into(line: &str, lc: &Vec<char>, i: usize, row: u32, out: &mut Vec<Token>) -> (r:
    Result<(), LexError>)
    requires
        lc@ == line@,
        i <= lc@.len(),
        lc@.len() < u32::MAX,
    ensures
        (match scan_line(line@, i as int, row as int) {
            Ok(toks) => r is Ok && toks_view(final(out)@) == toks_view(old(out)@) + toks,
            Err(e) => r == Err::<(), LexError>(e),
        }),
    decreases lc@.len() - i,
{
    proof {
        assert(toks_view(out@) =~= toks_view(out@) + Seq::<TokenV>::empty());
    }
    if i >= lc.len() {
        return Ok(());
    }
    let c = lc[i];
    if c == ' ' {
        return scan_line_into(line, lc, i + 1, row, out);
    }
    if c == '\0' || c == '\n' {
        return Ok(());
    }
    if c == '"' || c == '\'' {
        match find_char_from(lc, i + 1, c) {
            Some(j) => {
                let content = String::from_str(line.substring_char(i + 1, j));
                let tok = Token::new(TokenType::Text, content, row, j as u32);
                let ghost pre = out@;
                let ghost tv = tokv(TokenType::Text, line@.subrange(i as int + 1, j as int),
                    row as int, j as int);
                proof {
                    assert(tok@ =~= tv);
                }
                out.push(tok);
                proof {
                    lemma_toks_view_push(pre, tok);
                }
                let r = scan_line_into(line, lc, j + 1, row, out);
                proof {
                    assert(clip(lc@.len() as int, i as int + 1, j as int + 1) == j as int + 1);
                    if let Ok(rest) = scan_line(line@, j as int + 1, row as int) {
                        assert(toks_view(pre).push(tv) + rest =~= toks_view(pre) + (seq![tv]
                            + rest));
                    }
                }
                return r;
            },
            None => {
                return Err(LexError::UnterminatedString { row, col: i as u32 });
            },
        }
    }
    if char_is_alpha(c) {
        let e = ident_run_end(lc, i);
        proof {
            assert(ident_end(lc@, i as int) == ident_end(lc@, i as int + 1));
            assert(e as int == clip(lc@.len() as int, i as int + 1, ident_end(lc@, i as int)));
        }
        let lexeme = line.substring_char(i, e);
        let kind = match keyword_of(lexeme) {
            Some(k) => k,
            None => TokenType::Identifier,
        };
        let tok = Token::new(kind, String::from_str(lexeme), row, e as u32);
        let ghost pre = out@;
        let ghost tv = tokv(kind, line@.subrange(i as int, e as int), row as int, e as int);
        proof {
            assert(tok@ =~= tv);
        }
        out.push(tok);
        proof {
            lemma_toks_view_push(pre, tok);
        }
        let r = scan_line_into(line, lc, e, row, out);
        proof {
            if let Ok(rest) = scan_line(line@, e as int, row as int) {
                assert(toks_view(pre).push(tv) + rest =~= toks_view(pre) + (seq![tv] + rest));
            }
        }
        return r;
    }
    let has_next = i + 1 < lc.len();
    let next_digit = has_next && char_is_digit(lc[i + 1]);
    if char_is_digit(c) || ((c == '.' || c == '-') && next_digit) {
        let p = if c == '-' { i + 1 } else { i };
        let e1 = digits_run_end(lc, p);
        if e1 < lc.len() && lc[e1] == '.' && e1 + 1 < lc.len() && char_is_digit(lc[e1 + 1]) {
            let e2 = digits_run_end(lc, e1 + 1);
            proof {
                assert(digits_end(lc@, e1 as int + 1) == digits_end(lc@, e1 as int + 2));
                assert(e2 as int == clip(lc@.len() as int, i as int + 1,
                    digits_end(lc@, e1 as int + 1)));
            }
            let tok = Token::new(TokenType::Float, String::from_str(line.substring_char(i, e2)),
                row, e2 as u32);
            let ghost pre = out@;
            let ghost tv = tokv(TokenType::Float, line@.subrange(i as int, e2 as int),
                row as int, e2 as int);
            proof {
                assert(tok@ =~= tv);
            }
            out.push(tok);
            proof {
                lemma_toks_view_push(pre, tok);
            }
            let r = scan_line_into(line, lc, e2, row, out);
            proof {
                if let Ok(rest) = scan_line(line@, e2 as int, row as int) {
                    assert(toks_view(pre).push(tv) + rest =~= toks_view(pre) + (seq![tv] + rest));
                }
            }
            return r;
        } else {
            proof {
                if c != '-' {
                    assert(digits_end(lc@, i as int) == digits_end(lc@, i as int + 1));
                }
            }
            let e = if e1 > i { e1 } else { i + 1 };
            proof {
                assert(e as int == clip(lc@.len() as int, i as int + 1,
                    digits_end(lc@, p as int)));
            }
            let tok = Token::new(TokenType::Integer,
                String::from_str(line.substring_char(i, e)), row, e as u32);
            let ghost pre = out@;
            let ghost tv = tokv(TokenType::Integer, line@.subrange(i as int, e as int),
                row as int, e as int);
            proof {
                assert(tok@ =~= tv);
            }
            out.push(tok);
            proof {
                lemma_toks_view_push(pre, tok);
            }
            let r = scan_line_into(line, lc, e, row, out);
            proof {
                if let Ok(rest) = scan_line(line@, e as int, row as int) {
                    assert(toks_view(pre).push(tv) + rest =~= toks_view(pre) + (seq![tv] + rest));
                }
            }
            return r;
        }
    }
    if c == '-' && has_next && lc[i + 1] == '>' {
        let tok = Token::new(TokenType::Arrow, String::from_str(line.substring_char(i, i + 2)),
            row, (i + 2) as u32);
        let ghost pre = out@;
        let ghost tv = tokv(TokenType::Arrow, line@.subrange(i as int, i as int + 2), row as int,
            i as int + 2);
        proof {
            assert(tok@ =~= tv);
        }
        out.push(tok);
        proof {
            lemma_toks_view_push(pre, tok);
        }
        let r = scan_line_into(line, lc, i + 2, row, out);
        proof {
            if let Ok(rest) = scan_line(line@, i as int + 2, row as int) {
                assert(toks_view(pre).push(tv) + rest =~= toks_view(pre) + (seq![tv] + rest));
            }
        }
        return r;
    }
    if i + 2 <= lc.len() {
        let two = line.substring_char(i, i + 2);
        if Lexer::bin_op(two).is_some() {
            let tok = Token::new(TokenType::BinOp, String::from_str(two), row, (i + 2) as u32);
            let ghost pre = out@;
            let ghost tv = tokv(TokenType::BinOp, line@.subrange(i as int, i as int + 2),
                row as int, i as int + 2);
            proof {
                assert(tok@ =~= tv);
            }
            out.push(tok);
            proof {
                lemma_toks_view_push(pre, tok);
            }
            let r = scan_line_into(line, lc, i + 2, row, out);
            proof {
                if let Ok(rest) = scan_line(line@, i as int + 2, row as int) {
                    assert(toks_view(pre).push(tv) + rest =~= toks_view(pre) + (seq![tv]
                        + rest));
                }
            }
            return r;
        }
    }
    let one = line.substring_char(i, i + 1);
    if Lexer::bin_op(one).is_some() {
        let tok = Token::new(TokenType::BinOp, String::from_str(one), row, (i + 1) as u32);
        let ghost pre = out@;
        let ghost tv = tokv(TokenType::BinOp, line@.subrange(i as int, i as int + 1), row as int,
            i as int + 1);
        proof {
            assert(tok@ =~= tv);
        }
        out.push(tok);
        proof {
            lemma_toks_view_push(pre, tok);
        }
        let r = scan_line_into(line, lc, i + 1, row, out);
        proof {
            if let Ok(rest) = scan_line(line@, i as int + 1, row as int) {
                assert(toks_view(pre).push(tv) + rest =~= toks_view(pre) + (seq![tv] + rest));
            }
        }
        return r;
    }
    let pk = match c {
        '=' => Some(TokenType::Assign),
        '(' => Some(TokenType::LParen),
        ')' => Some(TokenType::RParen),
        '[' => Some(TokenType::LBracket),
        ']' => Some(TokenType::RBracket),
        '{' => Some(TokenType::LBrace),
        '}' => Some(TokenType::RBrace),
        ':' => Some(TokenType::Colon),
        ',' => Some(TokenType::Comma),
        '.' => Some(TokenType::Period),
        ';' => Some(TokenType::Semicolon),
        _ => None,
    };
    proof {
        assert(pk == punct_kind(c));
    }
    match pk {
        Some(kind) => {
            let tok = Token::new(kind, String::from_str(one), row, (i + 1) as u32);
            let ghost pre = out@;
            let ghost tv = tokv(kind, line@.subrange(i as int, i as int + 1), row as int,
                i as int + 1);
            proof {
                assert(tok@ =~= tv);
            }
            out.push(tok);
            proof {
                lemma_toks_view_push(pre, tok);
            }
            let r = scan_line_into(line, lc, i + 1, row, out);
            proof {
                if let Ok(rest) = scan_line(line@, i as int + 1, row as int) {
                    assert(toks_view(pre).push(tv) + rest =~= toks_view(pre) + (seq![tv]
                        + rest));
                }
            }
            r
        },
        None => Err(LexError::UnrecognizedChar { c, row, col: i as u32 }),
    }
}

/// Scans a whole source slice, line by line, numbering lines from `row`.
#[verifier::rlimit(60)]
fn scan_lines_into(src: &str, sc: &Vec<char>, row: u32, out: &mut Vec<Token>) -> (r: Result<
    (),
    LexError,
>)
    requires
        sc@ == src@,
        1 <= row,
        row + sc@.len() <= u32::MAX,
    ensures
        (match scan_source(src@, row as int) {
            Ok(toks) => r is Ok && toks_view(final(out)@) == toks_view(old(out)@) + toks,
            Err(e) => r == Err::<(), LexError>(e),
        }),
    decreases sc@.len(),
{
    let n = sc.len();
    if n == 0 {
        proof {
            assert(toks_view(out@) =~= toks_view(out@) + Seq::<TokenV>::empty());
        }
        return Ok(());
    }
    match find_char_from(sc, 0, '\n') {
        None => scan_line_into(src, sc, 0, row, out),
        Some(j) => {
            let le = if j > 0 && sc[j - 1] == '\r' {
                j - 1
            } else {
                j
            };
            let line = src.substring_char(0, le);
            proof {
                if j > 0 && sc@[j as int - 1] == '\r' {
                    assert(src@.subrange(0, j as int).drop_last() =~= src@.subrange(
                        0,
                        j as int - 1,
                    ));
                }
                assert(line@ =~= strip_cr(src@.subrange(0, j as int)));
            }
            let lcs = str_to_chars(line);
            let ghost pre = out@;
            match scan_line_into(line, &lcs, 0, row, out) {
                Ok(()) => {
                    let rest = src.substring_char(j + 1, n);
                    proof {
                        assert(clip(src@.len() as int, 1, j as int + 1) == j as int + 1);
                    }
                    let rcs = str_to_chars(rest);
                    let ghost mid = out@;
                    let r = scan_lines_into(rest, &rcs, row + 1, out);
                    proof {
                        if let Ok(first) = scan_line(strip_cr(src@.subrange(0, j as int)), 0,
                            row as int) {
                            if let Ok(more) = scan_source(src@.subrange(j as int + 1,
                                src@.len() as int), row as int + 1) {
                                assert((toks_view(pre) + first) + more =~= toks_view(pre)
                                    + (first + more));
                            }
                        }
                    }
                    r
                },
                Err(e) => Err(e),
            }
        },
    }
}

/// Tokenizer and token cursor.
///
/// `tokens` is the token list built by [`Lexer::tokenize`] (or handed in by
/// [`Lexer::from`]); `top` is the cursor, always within `[0, tokens.len()]`.
pub struct Lexer {
    pub tokens: Vec<Token>,
    pub top: usize,
}

impl Lexer {
    /// Cursor stays within the token list.
    pub open spec fn wf(&self) -> bool {
        self.top <= self.tokens@.len()
    }

    /// The token under the cursor; at or past the last token this clamps
    /// to the final token, so repeated reads past the end are safe.
    pub open spec fn spec_current(&self) -> TokenV {
        if self.top < self.tokens@.len() {
            self.tokens@[self.top as int]@
        } else {
            self.tokens@[self.tokens@.len() - 1]@
        }
    }

    pub fn new() -> (r: Lexer)
        ensures
            r.tokens@.len() == 0,
            r.top == 0,
            r.wf(),
    {
        Lexer { tokens: Vec::new(), top: 0 }
    }

    /// A lexer directly over an already-extracted token list, cursor at the
    /// start.
    pub fn from(tokens: Vec<Token>) -> (r: Lexer)
        ensures
            r.tokens@ == tokens@,
            r.top == 0,
            r.wf(),
    {
        Lexer { tokens, top: 0 }
    }

    pub fn get_tokens(&self) -> (r: &Vec<Token>)
        ensures
            r@ == self.tokens@,
    {
        &self.tokens
    }

    /// Clears all internal state.
    pub fn reset(&mut self)
        ensures
            final(self).tokens@.len() == 0,
            final(self).top == 0,
            final(self).wf(),
    {
        self.tokens = Vec::new();
        self.top = 0;
    }

    /// The operator table: lexeme to operator and precedence rank (smaller
    /// binds tighter).
    pub fn bin_op(v: &str) -> (r: Option<(BinOp, u8)>)
        ensures
            r == bin_op_of(v@),
    {
        if str_eq(v, "*") {
            Some((BinOp::Mul, 1))
        } else if str_eq(v, "/") {
            Some((BinOp::Div, 1))
        } else if str_eq(v, "+") {
            Some((BinOp::Plus, 2))
        } else if str_eq(v, "-") {
            Some((BinOp::Minus, 2))
        } else if str_eq(v, "==") {
            Some((BinOp::Equal, 4))
        } else if str_eq(v, "~=") {
            Some((BinOp::NotEqual, 4))
        } else if str_eq(v, "<") {
            Some((BinOp::Lt, 4))
        } else if str_eq(v, ">") {
            Some((BinOp::Gt, 4))
        } else if str_eq(v, "<=") {
            Some((BinOp::LtEqual, 4))
        } else if str_eq(v, ">=") {
            Some((BinOp::GtEqual, 4))
        } else {
            None
        }
    }

    /// Moves the cursor one token forward; reports whether it moved.
    pub fn next_token(&mut self) -> (r: bool)
        ensures
            final(self).tokens@ == old(self).tokens@,
            (if old(self).top < old(self).tokens@.len() {
                r && final(self).top == old(self).top + 1
            } else {
                !r && final(self).top == old(self).top
            }),
    {
        if self.top < self.tokens.len() {
            self.top += 1;
            true
        } else {
            false
        }
    }

    /// Moves the cursor one token back; reports whether it moved.
    pub fn previous_token(&mut self) -> (r: bool)
        ensures
            final(self).tokens@ == old(self).tokens@,
            (if old(self).top != 0 {
                r && final(self).top == old(self).top - 1
            } else {
                !r && final(self).top == old(self).top
            }),
    {
        if self.top != 0 {
            self.top -= 1;
            true
        } else {
            false
        }
    }

    /// Tokens at or after the cursor.
    pub fn tokens_remaining(&self) -> (r: usize)
        requires
            self.wf(),
        ensures
            r == self.tokens@.len() - self.top,
    {
        self.tokens.len() - self.top
    }

    /// The token under the cursor, clamped to the final token past the end.
    pub fn current_token(&self) -> (r: &Token)
        requires
            self.tokens@.len() > 0,
        ensures
            r@ == self.spec_current(),
    {
        if self.top > self.tokens.len() - 1 {
            return &self.tokens[self.tokens.len() - 1];
        }
        &self.tokens[self.top]
    }

    /// The lexeme of the token under the cursor.
    pub fn current_token_content(&self) -> (r: String)
        requires
            self.tokens@.len() > 0,
        ensures
            r@ == self.spec_current().content,
    {
        self.current_token().content.clone()
    }

    /// Requires the token under the cursor to have the given kind.
    pub fn match_current_token(&self, t: TokenType) -> (r: Result<&Token, ParseError>)
        requires
            self.tokens@.len() > 0,
        ensures
            (match r {
                Ok(tok) => self.spec_current().token_type == t && tok@ == self.spec_current(),
                Err(e) => self.spec_current().token_type != t && e == (ParseError::Expected {
                    expected: t,
                    found: self.spec_current().token_type,
                }),
            }),
    {
        let cur = self.current_token();
        if cur.token_type == t {
            Ok(cur)
        } else {
            Err(ParseError::Expected { expected: t, found: cur.token_type })
        }
    }

    /// Scans `source` and appends its tokens to the token list, leaving the
    /// cursor where it was; on a lexical error the lexer is unchanged.
    pub fn tokenize(&mut self, source: String) -> (r: Result<(), LexError>)
        requires
            old(self).wf(),
            source@.len() < u32::MAX,
        ensures
            final(self).wf(),
            final(self).top == old(self).top,
            (match spec_tokenize(source@) {
                Ok(toks) => r is Ok && toks_view(final(self).tokens@) == toks_view(
                    old(self).tokens@,
                ) + toks,
                Err(e) => r == Err::<(), LexError>(e) && final(self).tokens@ == old(
                    self,
                ).tokens@,
            }),
    {
        let src_str = source.as_str();
        let sc = str_to_chars(src_str);
        let mut scratch: Vec<Token> = Vec::new();
        match scan_lines_into(src_str, &sc, 1, &mut scratch) {
            Ok(()) => {
                let ghost pre = self.tokens@;
                let ghost got = scratch@;
                self.tokens.append(&mut scratch);
                proof {
                    lemma_toks_view_concat(pre, got);
                    if let Ok(toks) = spec_tokenize(source@) {
                        assert(Seq::<TokenV>::empty() + toks =~= toks);
                    }
                }
                Ok(())
            },
            Err(e) => Err(e),
        }
    }
}

} // verus!
