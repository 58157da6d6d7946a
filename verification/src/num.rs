//! Verified decimal formatting and parsing for the integer values the
//! library prints into filenames and links and reads out of them.

use vstd::prelude::*;
use crate::strutil::push_char;

verus! {

pub open spec fn is_digit_char(c: char) -> bool {
    48 <= c as u32 <= 57
}

pub open spec fn digit_char_of(d: int) -> char
    recommends
        0 <= d <= 9,
{
    if d == 0 {
        '0'
    } else if d == 1 {
        '1'
    } else if d == 2 {
        '2'
    } else if d == 3 {
        '3'
    } else if d == 4 {
        '4'
    } else if d == 5 {
        '5'
    } else if d == 6 {
        '6'
    } else if d == 7 {
        '7'
    } else if d == 8 {
        '8'
    } else {
        '9'
    }
}

pub open spec fn digit_val(c: char) -> int {
    c as u32 - 48
}

/// The decimal digits of `n`, most significant first; empty for 0.
pub open spec fn dec_digits(n: nat) -> Seq<char>
    decreases n,
{
    if n == 0 {
        Seq::empty()
    } else {
        dec_digits(n / 10).push(digit_char_of((n % 10) as int))
    }
}

/// What `u64::to_string` (and the decimal `Display` of any unsigned value)
/// returns.
pub open spec fn dec_str(n: nat) -> Seq<char> {
    if n == 0 {
        seq!['0']
    } else {
        dec_digits(n)
    }
}

/// What `i64::to_string` returns.
pub open spec fn dec_str_signed(n: int) -> Seq<char> {
    if n < 0 {
        seq!['-'] + dec_str((-n) as nat)
    } else {
        dec_str(n as nat)
    }
}

fn digit_to_char(d: u64) -> (c: char)
    requires
        d <= 9,
    ensures
        c == digit_char_of(d as int),
{
    if d == 0 {
        '0'
    } else if d == 1 {
        '1'
    } else if d == 2 {
        '2'
    } else if d == 3 {
        '3'
    } else if d == 4 {
        '4'
    } else if d == 5 {
        '5'
    } else if d == 6 {
        '6'
    } else if d == 7 {
        '7'
    } else if d == 8 {
        '8'
    } else {
        '9'
    }
}

/// The decimal rendering of `n`, as a character vector.
pub fn u64_dec_chars(n: u64) -> (r: Vec<char>)
    ensures
        r@ == dec_str(n as nat),
{
    if n == 0 {
        let r: Vec<char> = vec!['0'];
        proof {
            assert(r@ =~= seq!['0']);
        }
        return r;
    }
    let mut out: Vec<char> = Vec::new();
    let mut m: u64 = n;
    while m > 0
        invariant
            dec_digits(n as nat) == dec_digits(m as nat) + out@,
            m == 0 ==> out@.len() > 0,
        decreases m,
    {
        let d = m % 10;
        let c = digit_to_char(d);
        out.insert(0, c);
        proof {
            assert(dec_digits(m as nat) == dec_digits((m / 10) as nat).push(digit_char_of(
                m as int % 10,
            )));
            assert(dec_digits((m / 10) as nat) + out@ =~= dec_digits((m / 10) as nat)
                + out@.subrange(1, out@.len() as int).insert(0, c));
            assert(dec_digits((m / 10) as nat).push(c) + out@.subrange(1, out@.len() as int)
                =~= dec_digits((m / 10) as nat) + out@);
        }
        m = m / 10;
    }
    proof {
        assert(dec_digits(0) + out@ =~= out@);
    }
    out
}

/// The decimal rendering of `n` as a `String`: what `u64::to_string` returns.
pub fn u64_to_dec(n: u64) -> (r: String)
    ensures
        r@ == dec_str(n as nat),
{
    let chars = u64_dec_chars(n);
    crate::strutil::chars_to_string(&chars)
}

/// The decimal rendering of `n` as a `String`: what `i64::to_string` returns.
pub fn i64_to_dec(n: i64) -> (r: String)
    ensures
        r@ == dec_str_signed(n as int),
{
    if n >= 0 {
        u64_to_dec(n as u64)
    } else {
        let mag: u64 = if n == i64::MIN {
            9223372036854775808u64
        } else {
            (-n) as u64
        };
        proof {
            assert(mag as nat == (-(n as int)) as nat);
        }
        let digits = u64_dec_chars(mag);
        let mut s = String::new();
        push_char(&mut s, '-');
        let rest = crate::strutil::chars_to_string(&digits);
        let r = vstd::string::StringExecFns::concat(s, rest.as_str());
        proof {
            assert(r@ =~= dec_str_signed(n as int));
        }
        r
    }
}

/// Value of a string of decimal digits, most significant first.
pub open spec fn digits_val(s: Seq<char>) -> nat
    decreases s.len(),
{
    if s.len() == 0 {
        0
    } else {
        digits_val(s.drop_last()) * 10 + (if 0 <= digit_val(s.last()) <= 9 {
            digit_val(s.last()) as nat
        } else {
            0
        })
    }
}

pub open spec fn all_digits(s: Seq<char>) -> bool {
    forall|i: int| 0 <= i < s.len() ==> is_digit_char(#[trigger] s[i])
}

/// The shape `str::parse` accepts for an integer: an optional sign followed
/// by at least one digit.
pub open spec fn int_str_shape(s: Seq<char>) -> bool {
    if s.len() == 0 {
        false
    } else if s[0] == '-' || s[0] == '+' {
        s.len() > 1 && all_digits(s.skip(1))
    } else {
        all_digits(s)
    }
}

/// The digit part of an integer literal (sign removed).
pub open spec fn int_str_digits(s: Seq<char>) -> Seq<char> {
    if s.len() > 0 && (s[0] == '-' || s[0] == '+') {
        s.skip(1)
    } else {
        s
    }
}

/// The mathematical value of an integer literal.
pub open spec fn int_str_val(s: Seq<char>) -> int {
    if s.len() > 0 && s[0] == '-' {
        -(digits_val(int_str_digits(s)) as int)
    } else {
        digits_val(int_str_digits(s)) as int
    }
}

proof fn lemma_digits_val_extend_keeps_big(s: Seq<char>, k: int, bound: nat)
    requires
        0 <= k <= s.len(),
        digits_val(s.take(k)) > bound,
    ensures
        digits_val(s) > bound,
    decreases s.len() - k,
{
    if k < s.len() {
        assert(s.take(k + 1).drop_last() =~= s.take(k));
        assert(digits_val(s.take(k + 1)) >= digits_val(s.take(k)) * 10) by (nonlinear_arith)
            requires
                digits_val(s.take(k + 1)) == digits_val(s.take(k)) * 10 + (if 0 <= digit_val(
                    s.take(k + 1).last(),
                ) <= 9 {
                    digit_val(s.take(k + 1).last()) as nat
                } else {
                    0
                }),
        ;
        assert(digits_val(s.take(k)) * 10 >= digits_val(s.take(k))) by (nonlinear_arith);
        lemma_digits_val_extend_keeps_big(s, k + 1, bound);
    } else {
        assert(s.take(k) =~= s);
    }
}

/// Parses the digit part, accumulating while the value stays at or below
/// `limit`.
fn parse_digits(v: &Vec<char>, start: usize, limit: u64) -> (r: Option<u64>)
    requires
        start < v@.len(),
        all_digits(v@.skip(start as int)),
    ensures
        match r {
            Some(val) => val as nat == digits_val(v@.skip(start as int)) && val <= limit,
            None => digits_val(v@.skip(start as int)) > limit,
        },
{
    let ghost digits = v@.skip(start as int);
    let mut acc: u64 = 0;
    let mut i: usize = start;
    while i < v.len()
        invariant
            start <= i <= v@.len(),
            digits == v@.skip(start as int),
            all_digits(digits),
            acc as nat == digits_val(digits.take(i - start)),
            acc <= limit,
        decreases v@.len() - i,
    {
        let c = v[i];
        proof {
            assert(digits[i - start] == v@[i as int]);
            assert(is_digit_char(c));
        }
        let d: u64 = (c as u32 as u64) - 48;
        proof {
            assert(d == digit_val(c));
            assert(d <= 9);
        }
        let ok = if acc > limit / 10 {
            false
        } else if acc == limit / 10 && d > limit % 10 {
            false
        } else {
            true
        };
        proof {
            let next = digits.take(i - start + 1);
            assert(next.drop_last() =~= digits.take(i - start));
            assert(next.last() == v@[i as int]);
            if ok {
                assert(acc * 10 + d <= limit) by (nonlinear_arith)
                    requires
                        d <= 9,
                        limit >= 0,
                        acc >= 0,
                        acc < limit / 10 || (acc <= limit / 10 && d <= limit % 10),
                ;
            } else {
                assert(acc * 10 + d > limit) by (nonlinear_arith)
                    requires
                        d >= 0,
                        acc >= 0,
                        limit >= 0,
                        acc > limit / 10 || (acc == limit / 10 && d > limit % 10),
                ;
            }
        }
        if !ok {
            proof {
                lemma_digits_val_extend_keeps_big(digits, i - start + 1, limit as nat);
            }
            return None;
        }
        acc = acc * 10 + d;
        i = i + 1;
    }
    proof {
        assert(digits.take(digits.len() as int) =~= digits);
    }
    Some(acc)
}

/// What `str::parse::<i64>` returns: `Some` exactly on an optional sign
/// followed by digits whose value fits the type.
pub fn parse_i64_chars(v: &Vec<char>) -> (r: Option<i64>)
    ensures
        match r {
            Some(val) => int_str_shape(v@) && val as int == int_str_val(v@),
            None => !int_str_shape(v@) || int_str_val(v@) < i64::MIN || int_str_val(v@)
                > i64::MAX,
        },
{
    if v.len() == 0 {
        return None;
    }
    let c0 = v[0];
    let neg = c0 == '-';
    let signed = neg || c0 == '+';
    let start: usize = if signed {
        1
    } else {
        0
    };
    if start >= v.len() {
        return None;
    }
    // every remaining character must be a digit
    let mut i: usize = start;
    while i < v.len()
        invariant
            start <= i <= v@.len(),
            v@.len() > 0,
            signed == (v@[0] == '-' || v@[0] == '+'),
            start == if signed {
                1int
            } else {
                0int
            },
            forall|k: int| start <= k < i ==> is_digit_char(#[trigger] v@[k]),
        decreases v@.len() - i,
    {
        let c = v[i];
        let u = c as u32;
        if u < 48 || u > 57 {
            proof {
                assert(!is_digit_char(c));
                assert(v@.skip(start as int)[i - start] == v@[i as int]);
                assert(!all_digits(v@.skip(start as int)));
                assert(v@.skip(0) =~= v@);
                if signed {
                    assert(start == 1);
                    assert(!all_digits(v@.skip(1)));
                    assert(!int_str_shape(v@));
                } else {
                    assert(start == 0);
                    assert(!all_digits(v@));
                    assert(!int_str_shape(v@));
                }
            }
            return None;
        }
        i = i + 1;
    }
    proof {
        assert(forall|k: int| 0 <= k < v@.skip(start as int).len() ==> v@.skip(start as int)[k]
            == v@[k + start]);
        assert(all_digits(v@.skip(start as int)));
        assert(v@.skip(0) =~= v@);
        assert(int_str_shape(v@));
        if signed {
            assert(int_str_digits(v@) =~= v@.skip(1));
        } else {
            assert(int_str_digits(v@) =~= v@);
        }
    }
    let limit: u64 = if neg {
        9223372036854775808u64
    } else {
        9223372036854775807u64
    };
    match parse_digits(v, start, limit) {
        Some(mag) => {
            if neg {
                let r: i64 = if mag == 9223372036854775808u64 {
                    i64::MIN
                } else {
                    -(mag as i64)
                };
                Some(r)
            } else {
                Some(mag as i64)
            }
        },
        None => None,
    }
}

/// What `str::parse::<i32>` returns.
pub fn parse_i32_chars(v: &Vec<char>) -> (r: Option<i32>)
    ensures
        match r {
            Some(val) => int_str_shape(v@) && val as int == int_str_val(v@),
            None => !int_str_shape(v@) || int_str_val(v@) < i32::MIN || int_str_val(v@)
                > i32::MAX,
        },
{
    match parse_i64_chars(v) {
        Some(val) => {
            if val >= -2147483648i64 && val <= 2147483647i64 {
                Some(val as i32)
            } else {
                None
            }
        },
        None => None,
    }
}

} // verus!
