//! Decimal integer lexemes and their values.
//!
//! An `Integer` token's lexeme has the shape `-?digits`; [`parse_i64`]
//! turns it into a 64-bit signed machine integer exactly when its value
//! fits, as [`spec_parse_i64`] states.

use vstd::prelude::*;
use vstd::string::StrSliceExecFns;
use vstd::string::StringExecFns;
use crate::scan::is_digit_char;

verus! {

/// The digit character for a value below ten.
pub open spec fn digit_char(d: int) -> char {
    if d == 0 {
        '0'
    } else if d == 1 {
        '1'
    } else if d == 2 {
        '2'
    } else if d == 3 {
        '3'
    } else if d == 4 {
        '4'
    } else if d == 5 {
        '5'
    } else if d == 6 {
        '6'
    } else if d == 7 {
        '7'
    } else if d == 8 {
        '8'
    } else {
        '9'
    }
}

/// The decimal digits of a nonnegative number, most significant first.
pub open spec fn dec_digits(n: int) -> Seq<char>
    decreases n,
{
    if n < 10 {
        seq![digit_char(n)]
    } else {
        dec_digits(n / 10).push(digit_char(n % 10))
    }
}

fn digit_str(d: u32) -> (r: &'static str)
    requires
        d < 10,
    ensures
        r@ == seq![digit_char(d as int)],
{
    proof {
        reveal_strlit("0");
        reveal_strlit("1");
        reveal_strlit("2");
        reveal_strlit("3");
        reveal_strlit("4");
        reveal_strlit("5");
        reveal_strlit("6");
        reveal_strlit("7");
        reveal_strlit("8");
        reveal_strlit("9");
    }
    let r = match d {
        0 => "0",
        1 => "1",
        2 => "2",
        3 => "3",
        4 => "4",
        5 => "5",
        6 => "6",
        7 => "7",
        8 => "8",
        _ => "9",
    };
    proof {
        assert(r@ =~= seq![digit_char(d as int)]);
    }
    r
}

/// The decimal text of a 32-bit number.
pub fn u32_text(n: u32) -> (r: String)
    ensures
        r@ == dec_digits(n as int),
    decreases n,
{
    if n < 10 {
        String::from_str(digit_str(n))
    } else {
        let mut s = u32_text(n / 10);
        s.append(digit_str(n % 10));
        proof {
            assert(s@ =~= dec_digits((n / 10) as int).push(digit_char((n % 10) as int)));
        }
        s
    }
}

/// Numeric value of a decimal digit character.
pub open spec fn digit_val(c: char) -> int {
    c as u32 - '0' as u32
}

/// Every character is a decimal digit.
pub open spec fn all_digits(s: Seq<char>) -> bool {
    forall|k: int| 0 <= k < s.len() ==> is_digit_char(#[trigger] s[k])
}

/// Value of a digit string read in base ten.
pub open spec fn dec_val(s: Seq<char>) -> int
    decreases s.len(),
{
    if s.len() == 0 {
        0
    } else {
        dec_val(s.drop_last()) * 10 + digit_val(s.last())
    }
}

/// The shape `-?digits`, with at least one digit.
pub open spec fn is_int_lexeme(s: Seq<char>) -> bool {
    if s.len() > 0 && s[0] == '-' {
        s.len() >= 2 && all_digits(s.skip(1))
    } else {
        s.len() >= 1 && all_digits(s)
    }
}

/// Value of an integer lexeme, sign included.
pub open spec fn int_lexeme_value(s: Seq<char>) -> int {
    if s.len() > 0 && s[0] == '-' {
        -dec_val(s.skip(1))
    } else {
        dec_val(s)
    }
}

/// The 64-bit signed integer denoted by `s`, if `s` is an integer lexeme
/// whose value fits.
pub open spec fn spec_parse_i64(s: Seq<char>) -> Option<i64> {
    if is_int_lexeme(s) && i64::MIN <= int_lexeme_value(s) <= i64::MAX {
        Some(int_lexeme_value(s) as i64)
    } else {
        None
    }
}

proof fn lemma_dec_val_nonneg(s: Seq<char>)
    requires
        all_digits(s),
    ensures
        dec_val(s) >= 0,
    decreases s.len(),
{
    if s.len() > 0 {
        assert(all_digits(s.drop_last()));
        lemma_dec_val_nonneg(s.drop_last());
    }
}

/// Reading further digits never shrinks the value.
proof fn lemma_dec_val_prefix(s: Seq<char>, k: int)
    requires
        all_digits(s),
        0 <= k <= s.len(),
    ensures
        dec_val(s.subrange(0, k)) <= dec_val(s),
    decreases s.len() - k,
{
    if k == s.len() {
        assert(s.subrange(0, k) =~= s);
    } else {
        let a = s.subrange(0, k);
        let b = s.subrange(0, k + 1);
        assert(b.drop_last() =~= a);
        assert(all_digits(a));
        lemma_dec_val_nonneg(a);
        assert(dec_val(b) == dec_val(a) * 10 + digit_val(b.last()));
        lemma_dec_val_prefix(s, k + 1);
    }
}

/// Parses a decimal integer lexeme, or reports that the string is not one
/// or that its value does not fit.
pub fn parse_i64(s: &str) -> (r: Option<i64>)
    ensures
        r == spec_parse_i64(s@),
{
    let n = s.unicode_len();
    if n == 0 {
        return None;
    }
    let neg = s.get_char(0) == '-';
    let start: usize = if neg {
        1
    } else {
        0
    };
    if start >= n {
        return None;
    }
    let ghost digits = s@.subrange(start as int, n as int);
    let mut acc: u128 = 0;
    let mut k: usize = start;
    while k < n
        invariant
            start <= k <= n,
            n == s@.len(),
            neg == (s@[0] == '-'),
            start == if neg { 1int } else { 0int },
            digits == s@.subrange(start as int, n as int),
            all_digits(s@.subrange(start as int, k as int)),
            acc == dec_val(s@.subrange(start as int, k as int)),
            acc <= 0x8000_0000_0000_0000,
        decreases n - k,
    {
        let c = s.get_char(k);
        let u: u32 = c as u32;
        if !(('0' as u32) <= u && u <= ('9' as u32)) {
            proof {
                assert(!is_digit_char(s@[k as int]));
                if neg {
                    assert(s@.skip(1)[k - 1] == s@[k as int]);
                    assert(!all_digits(s@.skip(1)));
                } else {
                    assert(!all_digits(s@));
                }
            }
            return None;
        }
        let d: u128 = (u - ('0' as u32)) as u128;
        let ghost pre = s@.subrange(start as int, k as int);
        let ghost cur = s@.subrange(start as int, k as int + 1);
        proof {
            assert(cur.drop_last() =~= pre);
            assert(cur.last() == s@[k as int]);
            assert(all_digits(cur));
        }
        acc = acc * 10 + d;
        k += 1;
        if acc > 0x8000_0000_0000_0000 {
            proof {
                if neg {
                    assert(s@.skip(1) =~= digits);
                } else {
                    assert(s@.subrange(0, n as int) =~= s@);
                }
                if all_digits(digits) {
                    assert(digits.subrange(0, k as int - start as int) =~= cur);
                    lemma_dec_val_prefix(digits, k as int - start as int);
                    assert(dec_val(digits) >= acc > 0x8000_0000_0000_0000);
                    if neg {
                        assert(int_lexeme_value(s@) < i64::MIN);
                    } else {
                        assert(int_lexeme_value(s@) > i64::MAX);
                    }
                } else {
                    assert(!is_int_lexeme(s@));
                }
            }
            return None;
        }
    }
    proof {
        assert(s@.subrange(start as int, n as int) =~= digits);
        if neg {
            assert(s@.skip(1) =~= digits);
        } else {
            assert(s@.subrange(0, n as int) =~= s@);
        }
        assert(is_int_lexeme(s@));
    }
    if neg {
        if acc == 0x8000_0000_0000_0000 {
            Some(i64::MIN)
        } else {
            Some(-((acc as u64) as i64))
        }
    } else {
        if acc > 0x7fff_ffff_ffff_ffff {
            proof {
                assert(int_lexeme_value(s@) > i64::MAX);
            }
            None
        } else {
            Some(acc as i64)
        }
    }
}

} // verus!
