//! Rendering a calculation result as text: a rounded finite value prints as
//! a plain decimal with its trailing fraction zeros removed, and the special
//! values print as `inf`, `-inf` and `NaN`.

use vstd::prelude::*;
use crate::eval::TEN_POW10;
use crate::eval::abs_of;
use crate::text::chars_to_string;
use crate::value::Value;
use vstd::arithmetic::div_mod::lemma_fundamental_div_mod;
use vstd::string::StringExecFns;

verus! {

/// The character of one decimal digit.
pub open spec fn digit_to_char(d: int) -> char {
    if d == 0 {
        '0'
    } else if d == 1 {
        '1'
    } else if d == 2 {
        '2'
    } else if d == 3 {
        '3'
    } else if d == 4 {
        '4'
    } else if d == 5 {
        '5'
    } else if d == 6 {
        '6'
    } else if d == 7 {
        '7'
    } else if d == 8 {
        '8'
    } else {
        '9'
    }
}

/// The decimal digits of a non-negative integer, most significant first.
pub open spec fn dec_str(n: int) -> Seq<char>
    decreases n,
{
    if n <= 9 {
        seq![digit_to_char(n)]
    } else {
        dec_str(n / 10).push(digit_to_char(n % 10))
    }
}

/// Exactly `k` decimal digits of `f`, zero-padded on the left.
pub open spec fn pad_str(f: int, k: nat) -> Seq<char>
    decreases k,
{
    if k == 0 {
        Seq::empty()
    } else {
        pad_str(f / 10, (k - 1) as nat).push(digit_to_char(f % 10))
    }
}

/// Ten to the `k`.
pub open spec fn pow10(k: nat) -> int
    decreases k,
{
    if k == 0 {
        1int
    } else {
        10 * pow10((k - 1) as nat)
    }
}

/// Drop the trailing zero digits of a `k`-digit fraction, keeping the value
/// and how many digits remain.
pub open spec fn strip_zeros(f: int, k: nat) -> (int, nat)
    decreases k,
{
    if k == 0 || f % 10 != 0 {
        (f, k)
    } else {
        strip_zeros(f / 10, (k - 1) as nat)
    }
}

/// The text of a value scaled by ten to the tenth: sign, integer part, and
/// the fraction digits with trailing zeros removed (no decimal point when
/// none remain).
pub open spec fn display_scaled(scaled: int) -> Seq<char> {
    let sign: Seq<char> = if scaled < 0 {
        seq!['-']
    } else {
        Seq::empty()
    };
    let m = abs_of(scaled);
    let ip = m / (TEN_POW10 as int);
    let fp = m % (TEN_POW10 as int);
    if fp == 0 {
        sign + dec_str(ip)
    } else {
        let stripped = strip_zeros(fp, 10);
        sign + dec_str(ip) + seq!['.'] + pad_str(stripped.0, stripped.1)
    }
}

/// The text of a calculation result.  A finite result carries the rounding
/// denominator, so its numerator alone determines the text.
pub open spec fn display_of(v: Value) -> Seq<char> {
    match v {
        Value::Finite(x) => display_scaled(x.num as int),
        Value::PosInf => "inf"@,
        Value::NegInf => "-inf"@,
        Value::NaN => "NaN"@,
    }
}

/// The character of one decimal digit, executable form.
fn digit_char(d: u8) -> (c: char)
    requires
        d < 10,
    ensures
        c == digit_to_char(d as int),
{
    match d {
        0 => '0',
        1 => '1',
        2 => '2',
        3 => '3',
        4 => '4',
        5 => '5',
        6 => '6',
        7 => '7',
        8 => '8',
        _ => '9',
    }
}

/// Append the decimal digits of `n`, most significant first.
fn push_dec(out: &mut Vec<char>, n: u128)
    ensures
        final(out)@ == old(out)@ + dec_str(n as int),
    decreases n,
{
    if n <= 9 {
        out.push(digit_char(n as u8));
        proof {
            assert(out@ =~= old(out)@ + dec_str(n as int));
        }
    } else {
        push_dec(out, n / 10);
        out.push(digit_char((n % 10) as u8));
        proof {
            assert(out@ =~= old(out)@ + dec_str(n as int));
        }
    }
}

/// Append exactly `k` decimal digits of `f`, zero-padded on the left.
fn push_pad(out: &mut Vec<char>, f: u128, k: u8)
    ensures
        final(out)@ == old(out)@ + pad_str(f as int, k as nat),
    decreases k,
{
    if k > 0 {
        push_pad(out, f / 10, k - 1);
        out.push(digit_char((f % 10) as u8));
        proof {
            assert(out@ =~= old(out)@ + pad_str(f as int, k as nat));
        }
    } else {
        proof {
            assert(out@ =~= old(out)@ + pad_str(f as int, 0));
        }
    }
}

/// Render a calculation result as text.
pub fn render_value(v: &Value) -> (r: String)
    requires
        v.wf(),
        *v matches Value::Finite(q) ==> q.den == TEN_POW10,
    ensures
        r@ == display_of(*v),
{
    match v {
        Value::Finite(x) => {
            let mut out: Vec<char> = Vec::new();
            if x.num < 0 {
                out.push('-');
            }
            let m: u128 = if x.num >= 0 {
                x.num as u128
            } else {
                ((-(x.num + 1)) as u128) + 1
            };
            proof {
                assert(m as int == abs_of(x.num as int));
                lemma_fundamental_div_mod(m as int, TEN_POW10 as int);
            }
            let ip: u128 = m / (TEN_POW10 as u128);
            let fp: u128 = m % (TEN_POW10 as u128);
            push_dec(&mut out, ip);
            if fp > 0 {
                out.push('.');
                let ghost out_base: Seq<char> = out@;
                let mut f: u128 = fp;
                let mut k: u8 = 10;
                proof {
                    assert(pow10(0) == 1);
                    assert(pow10(1) == 10);
                    assert(pow10(2) == 100);
                    assert(pow10(3) == 1000);
                    assert(pow10(4) == 10000);
                    assert(pow10(5) == 100000);
                    assert(pow10(6) == 1000000);
                    assert(pow10(7) == 10000000);
                    assert(pow10(8) == 100000000);
                    assert(pow10(9) == 1000000000);
                    assert(pow10(10) == TEN_POW10 as int);
                }
                while f % 10 == 0
                    invariant
                        out@ == out_base,
                        1 <= k <= 10,
                        f >= 1,
                        (f as int) < pow10(k as nat),
                        strip_zeros(f as int, k as nat) == strip_zeros(fp as int, 10),
                    decreases f,
                {
                    proof {
                        lemma_fundamental_div_mod(f as int, 10);
                        assert(pow10(0) == 1);
                        assert(pow10(1) == 10);
                        assert(k >= 2);
                        assert(pow10(k as nat) == 10 * pow10((k - 1) as nat));
                        assert((f as int) / 10 < pow10((k - 1) as nat));
                        assert(f as int >= 10);
                    }
                    f = f / 10;
                    k = k - 1;
                }
                push_pad(&mut out, f, k);
                proof {
                    assert(strip_zeros(f as int, k as nat) == (f as int, k as nat));
                }
            }
            proof {
                assert(out@ =~= display_scaled(x.num as int));
            }
            chars_to_string(&out)
        },
        Value::PosInf => String::from_str("inf"),
        Value::NegInf => String::from_str("-inf"),
        Value::NaN => String::from_str("NaN"),
    }
}

} // verus!
