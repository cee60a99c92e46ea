//! Parsing of decimal number strings into fixed-point micro-units.
//!
//! The accepted shape is an optional leading `-`, one or more integer digits,
//! and an optional `.` followed by any number of fraction digits. Fraction
//! digits beyond the sixth are ignored (the fixed-point scale keeps six
//! decimal places). A parsed value must fit in an `i64` when scaled by
//! [`crate::fixed::RATING_SCALE`]; the accepted magnitude is capped at
//! `i64::MAX` micro-units.

use vstd::prelude::*;

verus! {

/// Why a numeric string was rejected.
#[derive(Debug, PartialEq, Eq, Clone, Copy)]
pub enum ParseNumberError {
    /// The string does not have the shape of a decimal number.
    NotANumber,
    /// The number is well formed but too large for the fixed-point range.
    OutOfRange,
}

pub open spec fn is_digit(c: char) -> bool {
    '0' <= c <= '9'
}

pub open spec fn digit_val(c: char) -> int {
    c as int - '0' as int
}

pub open spec fn all_digits(s: Seq<char>) -> bool {
    forall|i: int| 0 <= i < s.len() ==> is_digit(#[trigger] s[i])
}

/// The non-negative integer denoted by a digit sequence, most significant first.
pub open spec fn int_value(s: Seq<char>) -> int
    decreases s.len(),
{
    if s.len() <= 0 {
        0
    } else {
        int_value(s.drop_last()) * 10 + digit_val(s.last())
    }
}

/// `d` marks the decimal point (or the end) of the unsigned part `t`:
/// digits before it, and only digits after it.
pub open spec fn decimal_split_at(t: Seq<char>, d: int) -> bool {
    &&& 1 <= d <= t.len()
    &&& (d == t.len() || t[d] == '.')
    &&& all_digits(t.take(d))
    &&& (d == t.len() || all_digits(t.skip(d + 1)))
}

/// The unsigned part of the string after the optional sign.
pub open spec fn unsigned_part(s: Seq<char>) -> Seq<char> {
    if s.len() > 0 && s[0] == '-' {
        s.skip(1)
    } else {
        s
    }
}

/// The string has the accepted decimal shape.
pub open spec fn decimal_shape(s: Seq<char>) -> bool {
    exists|d: int| decimal_split_at(unsigned_part(s), d)
}

/// The first six fraction digits, zero-padded to exactly six.
pub open spec fn frac6(s: Seq<char>) -> Seq<char> {
    if s.len() >= 6 {
        s.take(6)
    } else {
        s + Seq::new((6 - s.len()) as nat, |i: int| '0')
    }
}

/// The magnitude of the number in micro-units.
pub open spec fn decimal_micro_mag(s: Seq<char>) -> int {
    let t = unsigned_part(s);
    let d = choose|d: int| decimal_split_at(t, d);
    let ip = int_value(t.take(d));
    let fp = if d == t.len() {
        0
    } else {
        int_value(frac6(t.skip(d + 1)))
    };
    ip * 1000000 + fp
}

/// The signed value of the number in micro-units.
pub open spec fn decimal_micro(s: Seq<char>) -> int {
    if s.len() > 0 && s[0] == '-' {
        -decimal_micro_mag(s)
    } else {
        decimal_micro_mag(s)
    }
}

/// The split position of a well-shaped unsigned part is unique.
proof fn lemma_split_unique(t: Seq<char>, d1: int, d2: int)
    requires
        decimal_split_at(t, d1),
        decimal_split_at(t, d2),
    ensures
        d1 == d2,
{
    if d1 < d2 {
        assert(t.take(d2)[d1] == t[d1]);
        assert(is_digit(t.take(d2)[d1]));
        assert(d1 < t.len());
        assert(t[d1] == '.');
    } else if d2 < d1 {
        assert(t.take(d1)[d2] == t[d2]);
        assert(is_digit(t.take(d1)[d2]));
        assert(d2 < t.len());
        assert(t[d2] == '.');
    }
}

/// Appending a digit multiplies by ten and adds the digit.
proof fn lemma_int_value_push(s: Seq<char>, c: char)
    ensures
        int_value(s.push(c)) == int_value(s) * 10 + digit_val(c),
{
    assert(s.push(c).drop_last() =~= s);
    assert(s.push(c).last() == c);
}

/// A digit string denotes a non-negative number, and growing it never
/// shrinks the value.
proof fn lemma_int_value_nonneg(s: Seq<char>)
    requires
        all_digits(s),
    ensures
        int_value(s) >= 0,
    decreases s.len(),
{
    if s.len() > 0 {
        assert(all_digits(s.drop_last())) by {
            assert(forall|i: int|
                0 <= i < s.len() - 1 ==> s.drop_last()[i] == #[trigger] s[i]);
        }
        lemma_int_value_nonneg(s.drop_last());
        assert(is_digit(s[s.len() - 1]));
    }
}

/// Zero padding on the right multiplies the value by a power of ten.
proof fn lemma_int_value_pad(s: Seq<char>, k: nat)
    ensures
        int_value(s + Seq::new(k, |i: int| '0')) == int_value(s) * vstd::arithmetic::power::pow(
            10,
            k,
        ),
    decreases k,
{
    vstd::arithmetic::power::lemma_pow_positive(10, k);
    if k == 0 {
        assert(s + Seq::new(0, |i: int| '0') =~= s);
        assert(vstd::arithmetic::power::pow(10, 0) == 1) by {
            vstd::arithmetic::power::lemma_pow0(10);
        }
    } else {
        let zs = Seq::new(k, |i: int| '0');
        let zs1 = Seq::new((k - 1) as nat, |i: int| '0');
        assert((s + zs).drop_last() =~= s + zs1);
        assert((s + zs).last() == '0');
        lemma_int_value_pad(s, (k - 1) as nat);
        assert(vstd::arithmetic::power::pow(10, k) == 10 * vstd::arithmetic::power::pow(
            10,
            (k - 1) as nat,
        )) by {
            vstd::arithmetic::power::lemma_pow_adds(10, (k - 1) as nat, 1);
            vstd::arithmetic::power::lemma_pow1(10);
        }
        assert(int_value(s + zs) == int_value(s + zs1) * 10 + 0);
        vstd::arithmetic::mul::lemma_mul_is_associative(
            int_value(s),
            vstd::arithmetic::power::pow(10, (k - 1) as nat),
            10,
        );
    }
}

fn digit_at(s: &str, i: usize, n: usize) -> (r: bool)
    requires
        n == s@.len(),
    ensures
        r == (i < s@.len() && is_digit(s@[i as int])),
{
    if i < n {
        let c = s.get_char(i);
        c >= '0' && c <= '9'
    } else {
        false
    }
}

fn char_digit(c: char) -> (r: Option<i64>)
    ensures
        r.is_some() <==> is_digit(c),
        r.is_some() ==> r.unwrap() == digit_val(c) && 0 <= r.unwrap() <= 9,
{
    if c >= '0' && c <= '9' {
        Some((c as u32 - '0' as u32) as i64)
    } else {
        None
    }
}

/// Parses a decimal string into micro-units.
///
/// Succeeds exactly on strings of the accepted decimal shape whose magnitude
/// fits the fixed-point range, and then returns the denoted value.
pub fn parse_decimal_micro(s: &str) -> (r: Result<i64, ParseNumberError>)
    ensures
        r.is_ok() <==> decimal_shape(s@) && decimal_micro_mag(s@) <= i64::MAX,
        r.is_ok() ==> r.unwrap() as int == decimal_micro(s@),
        r == Err::<i64, _>(ParseNumberError::NotANumber) <==> !decimal_shape(s@),
        r == Err::<i64, _>(ParseNumberError::OutOfRange) <==> decimal_shape(s@)
            && decimal_micro_mag(s@) > i64::MAX,
{
    let n = s.unicode_len();
    let mut i: usize = 0;
    let neg = n > 0 && s.get_char(0) == '-';
    if neg {
        i = 1;
    }
    let ghost t = unsigned_part(s@);
    proof {
        assert(t =~= s@.skip(i as int));
    }
    let start_int = i;

    // integer part
    let ip_limit: i64 = 9223372036854;  // i64::MAX / 1000000, rounded down
    let mut ip: i64 = 0;
    let mut too_big = false;
    while digit_at(s, i, n)
        invariant
            start_int <= i <= n,
            n == s@.len(),
            start_int == if neg {
                1int
            } else {
                0int
            },
            neg ==> s@.len() > 0 && s@[0] == '-',
            !neg ==> (s@.len() == 0 || s@[0] != '-'),
            t == unsigned_part(s@),
            t =~= s@.skip(start_int as int),
            all_digits(t.take(i - start_int)),
            ip_limit == 9223372036854,
            0 <= ip <= ip_limit,
            !too_big ==> ip == int_value(t.take(i - start_int)),
            too_big ==> int_value(t.take(i - start_int)) > ip_limit,
        decreases n - i,
    {
        let c = s.get_char(i);
        let d = match char_digit(c) {
            Some(d) => d,
            None => 0,
        };
        proof {
            let pre = t.take(i - start_int);
            assert(t.take(i + 1 - start_int) =~= pre.push(c));
            lemma_int_value_push(pre, c);
            lemma_int_value_nonneg(pre);
        }
        if !too_big {
            let next = ip * 10 + d;
            if next > ip_limit {
                too_big = true;
            } else {
                ip = next;
            }
            proof {
                if too_big {
                    assert(int_value(t.take(i + 1 - start_int)) > ip_limit);
                }
            }
        } else {
            proof {
                let pre = t.take(i - start_int);
                assert(int_value(pre) > ip_limit);
                assert(int_value(pre.push(c)) == int_value(pre) * 10 + digit_val(c));
                assert(int_value(pre) * 10 >= int_value(pre)) by (nonlinear_arith)
                    requires
                        int_value(pre) > 0,
                ;
            }
        }
        i = i + 1;
    }

    if i == start_int {
        // no integer digits: not a number
        proof {
            assert forall|d: int| !decimal_split_at(t, d) by {
                if 1 <= d <= t.len() {
                    assert(t.take(d)[0] == t[0]);
                    if i < n {
                        assert(t[0] == s@[i as int]);
                        assert(!is_digit(t[0]));
                    } else {
                        assert(t.len() == 0);
                    }
                }
            }
        }
        return Err(ParseNumberError::NotANumber);
    }
    let ghost d_int = i - start_int;

    let mut fp: i64 = 0;
    let mut fcount: usize = 0;
    let ghost frac_start = i + 1;
    let has_frac = i < n;
    if has_frac {
        let c = s.get_char(i);
        if c != '.' {
            proof {
                assert(t[i - start_int] == s@[i as int]);
                assert(!is_digit(s@[i as int]) && s@[i as int] != '.');
                assert forall|d: int| !decimal_split_at(t, d) by {
                    let p = i - start_int;
                    if decimal_split_at(t, d) {
                        if d <= p {
                            lemma_split_unique(t, d, d);
                            if d < t.len() {
                                assert(t[d] == '.');
                                assert(all_digits(t.take(p)));
                                assert(t.take(p)[d] == t[d]);
                                assert(d < p ==> is_digit(t[d]));
                                assert(d == p);
                                assert(false);
                            } else {
                                assert(p < t.len());
                                assert(false);
                            }
                        } else {
                            assert(t.take(d)[p] == t[p]);
                            assert(is_digit(t[p]));
                            assert(false);
                        }
                    }
                }
            }
            return Err(ParseNumberError::NotANumber);
        }
        i = i + 1;
        proof {
            vstd::arithmetic::power::lemma_pow0(10);
        }
        // fraction digits
        while i < n
            invariant
                frac_start <= i <= n,
                n == s@.len(),
                start_int <= 1,
                frac_start == d_int + start_int + 1,
                1 <= d_int,
                d_int + start_int < frac_start <= n,
                t == unsigned_part(s@),
                t =~= s@.skip(start_int as int),
                d_int < t.len(),
                t[d_int] == '.',
                all_digits(t.take(d_int)),
                all_digits(t.skip(d_int + 1).take(i - frac_start)),
                fcount == if i - frac_start <= 6 {
                    i - frac_start
                } else {
                    6int
                },
                0 <= fp <= 999999,
                fp < vstd::arithmetic::power::pow(10, fcount as nat),
                fp == int_value(t.skip(d_int + 1).take(fcount as int)),
            decreases n - i,
        {
            let c = s.get_char(i);
            let d = match char_digit(c) {
                Some(d) => d,
                None => {
                    proof {
                        assert(t[i - start_int] == s@[i as int]);
                        let p = i - start_int;
                        assert(d_int < p < t.len());
                        assert forall|dd: int| !decimal_split_at(t, dd) by {
                            if decimal_split_at(t, dd) {
                                if p < dd {
                                    assert(t.take(dd)[p] == t[p]);
                                    assert(is_digit(t[p]));
                                } else if p == dd {
                                    // a second decimal point: the first one
                                    // would have to be a digit
                                    assert(t.take(dd)[d_int] == t[d_int]);
                                    assert(is_digit(t[d_int]));
                                } else {
                                    assert(t.skip(dd + 1)[p - dd - 1] == t[p]);
                                    assert(is_digit(t[p]));
                                }
                            }
                        }
                    }
                    return Err(ParseNumberError::NotANumber);
                },
            };
            proof {
                let fpre = t.skip(d_int + 1);
                assert(fpre.take(i + 1 - frac_start) =~= fpre.take(i - frac_start).push(c)) by {
                    assert(fpre[i - frac_start] == t[i - start_int]);
                    assert(t[i - start_int] == s@[i as int]);
                }
            }
            if fcount < 6 {
                proof {
                    let fpre = t.skip(d_int + 1);
                    assert(fpre.take(fcount + 1) =~= fpre.take(fcount as int).push(c)) by {
                        assert(fpre[fcount as int] == t[fcount + d_int + 1]);
                        assert(t[i - start_int] == s@[i as int]);
                    }
                    lemma_int_value_push(fpre.take(fcount as int), c);
                    let p10 = vstd::arithmetic::power::pow(10, fcount as nat);
                    let p10n = vstd::arithmetic::power::pow(10, (fcount + 1) as nat);
                    vstd::arithmetic::power::lemma_pow_adds(10, fcount as nat, 1);
                    vstd::arithmetic::power::lemma_pow1(10);
                    vstd::arithmetic::power::lemma_pow_positive(10, fcount as nat);
                    assert(p10n == p10 * 10);
                    assert(fp * 10 + d < p10n) by (nonlinear_arith)
                        requires
                            0 <= fp,
                            fp < p10,
                            0 <= d <= 9,
                            p10n == p10 * 10,
                    ;
                    assert(p10n <= 1000000) by {
                        vstd::arithmetic::power::lemma_pow_increases(10, (fcount + 1) as nat, 6);
                        assert(vstd::arithmetic::power::pow(10, 6) == 1000000) by {
                            reveal_with_fuel(vstd::arithmetic::power::pow, 7);
                        }
                    }
                }
                fp = fp * 10 + d;
                fcount = fcount + 1;
            }
            i = i + 1;
        }
    }

    // pad the fraction to six digits
    let ghost fdigits = t.skip(d_int + 1);
    let mut pad = if has_frac {
        6 - fcount
    } else {
        6
    };
    let ghost fp0 = fp;
    let ghost pad0 = pad;
    proof {
        vstd::arithmetic::power::lemma_pow0(10);
        let pfc = vstd::arithmetic::power::pow(10, fcount as nat);
        let ppad = vstd::arithmetic::power::pow(10, pad0 as nat);
        vstd::arithmetic::power::lemma_pow_positive(10, fcount as nat);
        vstd::arithmetic::power::lemma_pow_positive(10, pad0 as nat);
        if has_frac {
            vstd::arithmetic::power::lemma_pow_adds(10, fcount as nat, pad0 as nat);
            assert(pfc * ppad == vstd::arithmetic::power::pow(10, 6)) by {
                assert(fcount + pad0 == 6);
            }
            assert(vstd::arithmetic::power::pow(10, 6) == 1000000) by {
                reveal_with_fuel(vstd::arithmetic::power::pow, 7);
            }
            assert(fp0 * ppad <= 999999) by (nonlinear_arith)
                requires
                    0 <= fp0,
                    fp0 < pfc,
                    ppad >= 1,
                    pfc * ppad == 1000000,
            ;
        } else {
            assert(fp0 == 0);
            assert(fp0 * ppad == 0) by (nonlinear_arith)
                requires
                    fp0 == 0,
            ;
        }
        assert(pad0 - pad == 0);
        assert(vstd::arithmetic::power::pow(10, (pad0 - pad) as nat) == 1);
        assert(fp == fp0 * vstd::arithmetic::power::pow(10, (pad0 - pad) as nat)) by (
        nonlinear_arith)
            requires
                fp == fp0,
                vstd::arithmetic::power::pow(10, (pad0 - pad) as nat) == 1,
        ;
    }
    while pad > 0
        invariant
            0 <= pad <= pad0 <= 6,
            0 <= fp <= 999999,
            fp == fp0 * vstd::arithmetic::power::pow(10, (pad0 - pad) as nat),
            fp0 * vstd::arithmetic::power::pow(10, pad0 as nat) <= 999999,
            fp0 >= 0,
        decreases pad,
    {
        proof {
            vstd::arithmetic::power::lemma_pow_adds(10, (pad0 - pad) as nat, 1);
            vstd::arithmetic::power::lemma_pow1(10);
            vstd::arithmetic::power::lemma_pow_positive(10, (pad0 - pad) as nat);
            vstd::arithmetic::power::lemma_pow_adds(10, (pad0 - pad + 1) as nat, (pad - 1) as nat);
            vstd::arithmetic::power::lemma_pow_positive(10, (pad - 1) as nat);
            assert(fp0 * vstd::arithmetic::power::pow(10, (pad0 - pad + 1) as nat) <= 999999) by (
            nonlinear_arith)
                requires
                    fp0 >= 0,
                    fp0 * vstd::arithmetic::power::pow(10, pad0 as nat) <= 999999,
                    vstd::arithmetic::power::pow(10, pad0 as nat) == vstd::arithmetic::power::pow(
                        10,
                        (pad0 - pad + 1) as nat,
                    ) * vstd::arithmetic::power::pow(10, (pad - 1) as nat),
                    vstd::arithmetic::power::pow(10, (pad - 1) as nat) >= 1,
                    vstd::arithmetic::power::pow(10, (pad0 - pad + 1) as nat) >= 1,
            ;
            vstd::arithmetic::mul::lemma_mul_is_associative(
                fp0 as int,
                vstd::arithmetic::power::pow(10, (pad0 - pad) as nat),
                10,
            );
            assert(fp * 10 == fp0 * vstd::arithmetic::power::pow(10, (pad0 - pad + 1) as nat));
        }
        fp = fp * 10;
        pad = pad - 1;
    }

    proof {
        // connect the padded accumulator with the spec fraction value
        if has_frac {
            assert(fdigits.len() == n - frac_start);
            if fdigits.len() >= 6 {
                assert(fcount == 6);
                assert(pad0 == 0);
                assert(frac6(fdigits) =~= fdigits.take(6));
                vstd::arithmetic::power::lemma_pow0(10);
                assert(fp == int_value(frac6(fdigits)));
            } else {
                assert(fcount == fdigits.len());
                assert(fdigits.take(fcount as int) =~= fdigits);
                lemma_int_value_pad(fdigits, (6 - fdigits.len()) as nat);
                assert(frac6(fdigits) =~= fdigits + Seq::new(
                    (6 - fdigits.len()) as nat,
                    |x: int| '0',
                ));
                assert(fp == int_value(frac6(fdigits)));
            }
        } else {
            assert(fp0 == 0);
            assert(fp == 0);
        }
        // the split position is exactly d_int
        assert(decimal_split_at(t, d_int)) by {
            assert(all_digits(t.take(d_int)));
            if has_frac {
                assert(t[d_int] == s@[(d_int + start_int) as int]);
                assert(t.skip(d_int + 1).take(t.skip(d_int + 1).len() as int) =~= t.skip(
                    d_int + 1,
                ));
                assert(all_digits(t.skip(d_int + 1)));
            } else {
                assert(d_int == t.len());
            }
        }
        assert(decimal_shape(s@));
        let dw = choose|d: int| decimal_split_at(t, d);
        lemma_split_unique(t, dw, d_int);
        lemma_int_value_nonneg(t.take(d_int));
    }

    if too_big {
        proof {
            assert(decimal_micro_mag(s@) > i64::MAX) by (nonlinear_arith)
                requires
                    decimal_micro_mag(s@) == int_value(t.take(d_int)) * 1000000 + (if d_int
                        == t.len() {
                        0int
                    } else {
                        int_value(frac6(t.skip(d_int + 1)))
                    }),
                    int_value(t.take(d_int)) > 9223372036854,
                    d_int != t.len() ==> int_value(frac6(t.skip(d_int + 1))) >= 0,
            ;
        }
        return Err(ParseNumberError::OutOfRange);
    }
    let scaled = ip * 1000000;
    if scaled > i64::MAX - fp {
        return Err(ParseNumberError::OutOfRange);
    }
    let mag = scaled + fp;
    proof {
        assert(mag == decimal_micro_mag(s@));
    }
    if neg {
        Ok(-mag)
    } else {
        Ok(mag)
    }
}

} // verus!
