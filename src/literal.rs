//! Reading the text of literals.

use vstd::prelude::*;

verus! {

pub open spec fn is_digit(c: char) -> bool {
    '0' <= c && c <= '9'
}

pub open spec fn all_digits(s: Seq<char>) -> bool {
    s.len() > 0 && forall|i: int| 0 <= i < s.len() ==> is_digit(#[trigger] s[i])
}

/// The number that a string of decimal digits denotes.
pub open spec fn digits_value(s: Seq<char>) -> int
    decreases s.len(),
{
    if s.len() == 0 {
        0
    } else {
        digits_value(s.drop_last()) * 10 + (s.last() as int - '0' as int)
    }
}

/// The integer that an optional sign followed by decimal digits denotes.
pub open spec fn decimal_value(s: Seq<char>) -> Option<int> {
    if s.len() > 0 && (s[0] == '-' || s[0] == '+') {
        let rest = s.subrange(1, s.len() as int);
        if all_digits(rest) {
            Some(if s[0] == '-' { -digits_value(rest) } else { digits_value(rest) })
        } else {
            None
        }
    } else if all_digits(s) {
        Some(digits_value(s))
    } else {
        None
    }
}

/// The value of an `int` literal: decimal text that fits in 64 signed bits.
pub open spec fn int_literal(s: Seq<char>) -> Option<int> {
    match decimal_value(s) {
        Some(v) => if i64::MIN <= v <= i64::MAX {
            Some(v)
        } else {
            None
        },
        None => None,
    }
}

/// The value of a `bool` literal: `0` or `1`.
pub open spec fn bool_literal(s: Seq<char>) -> Option<bool> {
    if s == seq!['0'] {
        Some(false)
    } else if s == seq!['1'] {
        Some(true)
    } else {
        None
    }
}

/// The text with each escape `\n` (a backslash, then `n`), found left to
/// right, replaced by a newline.
pub open spec fn unescape_newlines(s: Seq<char>) -> Seq<char>
    decreases s.len(),
{
    if s.len() == 0 {
        s
    } else if s.len() >= 2 && s[0] == '\\' && s[1] == 'n' {
        seq!['\n'] + unescape_newlines(s.subrange(2, s.len() as int))
    } else {
        seq![s[0]] + unescape_newlines(s.subrange(1, s.len() as int))
    }
}

/// The text with each escape `\n`, found left to right, replaced by a
/// newline.
pub fn replace_newline_escapes(s: &str) -> (r: String)
    ensures
        r@ == unescape_newlines(s@),
{
    let n = s.unicode_len();
    let mut r = String::new();
    let mut i: usize = 0;
    proof {
        reveal_strlit("\n");
        assert(s@.subrange(0, n as int) =~= s@);
        assert(r@ + unescape_newlines(s@) =~= unescape_newlines(s@));
    }
    while i < n
        invariant
            i <= n,
            n == s@.len(),
            unescape_newlines(s@) == r@ + unescape_newlines(s@.subrange(i as int, n as int)),
        decreases n - i,
    {
        let ghost rest = s@.subrange(i as int, n as int);
        let c = s.get_char(i);
        if c == '\\' && i + 1 < n && s.get_char(i + 1) == 'n' {
            proof {
                reveal_strlit("\n");
                assert(rest[0] == c && rest[1] == 'n');
                assert(rest.subrange(2, rest.len() as int) =~= s@.subrange(i + 2, n as int));
                assert("\n"@ =~= seq!['\n']);
                vstd::seq_lib::lemma_concat_associative(r@, seq!['\n'], unescape_newlines(s@.subrange(i + 2, n as int)));
            }
            r.append("\n");
            i += 2;
        } else {
            let one = s.substring_char(i, i + 1);
            proof {
                assert(rest[0] == c);
                assert(one@ =~= seq![rest[0]]);
                assert(!(rest.len() >= 2 && rest[0] == '\\' && rest[1] == 'n'));
                assert(rest.subrange(1, rest.len() as int) =~= s@.subrange(i + 1, n as int));
                vstd::seq_lib::lemma_concat_associative(r@, seq![rest[0]], unescape_newlines(s@.subrange(i + 1, n as int)));
            }
            r.append(one);
            i += 1;
        }
    }
    proof {
        assert(s@.subrange(n as int, n as int) =~= Seq::<char>::empty());
        assert(r@ + Seq::<char>::empty() =~= r@);
    }
    r
}

/// The largest magnitude a literal's digits are tracked up to: one past
/// the magnitude of the smallest `i64`.
const DIGITS_CAP: u128 = 9223372036854775809;

/// Reads an `int` literal: an optional sign, then decimal digits, with a
/// value that fits in 64 signed bits.
pub fn parse_int_literal(s: &String) -> (r: Option<i64>)
    ensures
        match int_literal(s@) {
            Some(v) => r == Some(v as i64),
            None => r is None,
        },
{
    let n = s.as_str().unicode_len();
    if n == 0 {
        return None;
    }
    let first = s.as_str().get_char(0);
    let start: usize = if first == '-' || first == '+' {
        1
    } else {
        0
    };
    if start >= n {
        proof {
            assert(s@.subrange(1, s@.len() as int).len() == 0);
        }
        return None;
    }
    let ghost rest = s@.subrange(start as int, n as int);
    let mut acc: u128 = 0;
    let mut i: usize = start;
    while i < n
        invariant
            start <= i <= n,
            n == s@.len(),
            n > 0,
            s@[0] == first,
            start == (if first == '-' || first == '+' {
                1usize
            } else {
                0usize
            }),
            rest == s@.subrange(start as int, n as int),
            acc <= DIGITS_CAP,
            forall|j: int| start <= j < i ==> is_digit(#[trigger] s@[j]),
            acc == (if digits_value(s@.subrange(start as int, i as int)) < DIGITS_CAP {
                digits_value(s@.subrange(start as int, i as int))
            } else {
                DIGITS_CAP as int
            }),
            digits_value(s@.subrange(start as int, i as int)) >= 0,
        decreases n - i,
    {
        let c = s.as_str().get_char(i);
        if !('0' <= c && c <= '9') {
            proof {
                assert(rest[i - start] == c);
                assert(!all_digits(rest));
                if start == 0 {
                    assert(rest =~= s@);
                }
            }
            return None;
        }
        let d: u128 = (c as u32 - '0' as u32) as u128;
        let t: u128 = acc * 10 + d;
        let ghost x = digits_value(s@.subrange(start as int, i as int));
        proof {
            let next = s@.subrange(start as int, i + 1);
            assert(next.drop_last() =~= s@.subrange(start as int, i as int));
            assert(digits_value(next) == x * 10 + d);
            assert(x >= DIGITS_CAP ==> x * 10 + d >= DIGITS_CAP) by (nonlinear_arith)
                requires x >= 0, d >= 0;
            assert(x >= DIGITS_CAP ==> t >= DIGITS_CAP) by (nonlinear_arith)
                requires acc == DIGITS_CAP || x < DIGITS_CAP, x >= DIGITS_CAP ==> acc == DIGITS_CAP, t == acc * 10 + d, d >= 0;
        }
        acc = if t > DIGITS_CAP {
            DIGITS_CAP
        } else {
            t
        };
        i += 1;
    }
    proof {
        assert(s@.subrange(start as int, i as int) =~= rest);
        assert(all_digits(rest));
        if start == 0 {
            assert(rest =~= s@);
        }
    }
    if first == '-' {
        if acc <= 9223372036854775808 {
            Some((0 - (acc as i128)) as i64)
        } else {
            None
        }
    } else if acc <= 9223372036854775807 {
        Some(acc as i64)
    } else {
        None
    }
}

/// Where a scan of float text stands: the text read so far is an optional
/// sign, digits with at most one point, then an optional exponent.
#[derive(Clone, Copy, Debug, PartialEq, Eq, Structural)]
pub enum FloatScan {
    /// Nothing read.
    Start,
    /// A sign.
    Sign,
    /// Digits, before any point.
    Digits,
    /// A point with no digit before it.
    LeadDot,
    /// Digits, then a point.
    DigitsDot,
    /// Digits after the point.
    Fraction,
    /// The exponent mark `e` or `E`.
    Exp,
    /// The exponent's sign.
    ExpSign,
    /// The exponent's digits.
    ExpDigits,
    /// Text that no continuation makes a float.
    Reject,
}

pub open spec fn is_exp_mark(c: char) -> bool {
    c == 'e' || c == 'E'
}

pub open spec fn is_sign(c: char) -> bool {
    c == '+' || c == '-'
}

/// The scan after reading `c` in state `st`.
pub open spec fn float_step(st: FloatScan, c: char) -> FloatScan {
    match st {
        FloatScan::Start => if is_sign(c) {
            FloatScan::Sign
        } else if is_digit(c) {
            FloatScan::Digits
        } else if c == '.' {
            FloatScan::LeadDot
        } else {
            FloatScan::Reject
        },
        FloatScan::Sign => if is_digit(c) {
            FloatScan::Digits
        } else if c == '.' {
            FloatScan::LeadDot
        } else {
            FloatScan::Reject
        },
        FloatScan::Digits => if is_digit(c) {
            FloatScan::Digits
        } else if c == '.' {
            FloatScan::DigitsDot
        } else if is_exp_mark(c) {
            FloatScan::Exp
        } else {
            FloatScan::Reject
        },
        FloatScan::LeadDot => if is_digit(c) {
            FloatScan::Fraction
        } else {
            FloatScan::Reject
        },
        FloatScan::DigitsDot | FloatScan::Fraction => if is_digit(c) {
            FloatScan::Fraction
        } else if is_exp_mark(c) {
            FloatScan::Exp
        } else {
            FloatScan::Reject
        },
        FloatScan::Exp => if is_sign(c) {
            FloatScan::ExpSign
        } else if is_digit(c) {
            FloatScan::ExpDigits
        } else {
            FloatScan::Reject
        },
        FloatScan::ExpSign | FloatScan::ExpDigits => if is_digit(c) {
            FloatScan::ExpDigits
        } else {
            FloatScan::Reject
        },
        FloatScan::Reject => FloatScan::Reject,
    }
}

/// The scan after reading all of `s`.
pub open spec fn float_scan(s: Seq<char>) -> FloatScan
    decreases s.len(),
{
    if s.len() == 0 {
        FloatScan::Start
    } else {
        float_step(float_scan(s.drop_last()), s.last())
    }
}

/// Whether `s` is decimal float text: an optional sign, at least one digit
/// with at most one point among the digits, then optionally `e` or `E`, an
/// optional sign and at least one digit.
pub open spec fn float_literal_ok(s: Seq<char>) -> bool {
    let st = float_scan(s);
    st == FloatScan::Digits || st == FloatScan::DigitsDot || st == FloatScan::Fraction || st
        == FloatScan::ExpDigits
}

fn float_next(st: FloatScan, c: char) -> (r: FloatScan)
    ensures
        r == float_step(st, c),
{
    let digit = '0' <= c && c <= '9';
    let sign = c == '+' || c == '-';
    let exp = c == 'e' || c == 'E';
    match st {
        FloatScan::Start => if sign {
            FloatScan::Sign
        } else if digit {
            FloatScan::Digits
        } else if c == '.' {
            FloatScan::LeadDot
        } else {
            FloatScan::Reject
        },
        FloatScan::Sign => if digit {
            FloatScan::Digits
        } else if c == '.' {
            FloatScan::LeadDot
        } else {
            FloatScan::Reject
        },
        FloatScan::Digits => if digit {
            FloatScan::Digits
        } else if c == '.' {
            FloatScan::DigitsDot
        } else if exp {
            FloatScan::Exp
        } else {
            FloatScan::Reject
        },
        FloatScan::LeadDot => if digit {
            FloatScan::Fraction
        } else {
            FloatScan::Reject
        },
        FloatScan::DigitsDot | FloatScan::Fraction => if digit {
            FloatScan::Fraction
        } else if exp {
            FloatScan::Exp
        } else {
            FloatScan::Reject
        },
        FloatScan::Exp => if sign {
            FloatScan::ExpSign
        } else if digit {
            FloatScan::ExpDigits
        } else {
            FloatScan::Reject
        },
        FloatScan::ExpSign | FloatScan::ExpDigits => if digit {
            FloatScan::ExpDigits
        } else {
            FloatScan::Reject
        },
        FloatScan::Reject => FloatScan::Reject,
    }
}

/// Whether the text of a float literal is decimal float text.
pub fn is_float_literal(s: &String) -> (r: bool)
    ensures
        r == float_literal_ok(s@),
{
    let n = s.as_str().unicode_len();
    let mut st = FloatScan::Start;
    let mut i: usize = 0;
    proof {
        assert(s@.take(0) =~= Seq::<char>::empty());
    }
    while i < n
        invariant
            i <= n,
            n == s@.len(),
            st == float_scan(s@.take(i as int)),
        decreases n - i,
    {
        let c = s.as_str().get_char(i);
        st = float_next(st, c);
        proof {
            assert(s@.take(i + 1).drop_last() =~= s@.take(i as int));
        }
        i += 1;
    }
    proof {
        assert(s@.take(n as int) =~= s@);
    }
    st == FloatScan::Digits || st == FloatScan::DigitsDot || st == FloatScan::Fraction || st
        == FloatScan::ExpDigits
}

} // verus!
