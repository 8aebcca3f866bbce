//! Fixed-point amounts: text such as `12.5` read as a count of minor units.
use vstd::prelude::*;

verus! {

/// Minor units per currency unit: amounts carry four decimal places.
pub const SCALE: u64 = 10000;

/// The number of decimal places an amount carries.
pub const FRACTION_DIGITS: usize = 4;

/// The most digits the integer part of an amount may have; with four
/// decimal places every such amount fits in a `u64`.
pub const INTEGER_DIGITS: usize = 15;

pub open spec fn is_digit(c: char) -> bool {
    '0' <= c && c <= '9'
}

pub open spec fn all_digits(s: Seq<char>) -> bool {
    forall|i: int| 0 <= i < s.len() ==> is_digit(#[trigger] s[i])
}

/// The number that a string of decimal digits denotes.
pub open spec fn digits_value(s: Seq<char>) -> nat
    decreases s.len(),
{
    if s.len() == 0 {
        0
    } else {
        digits_value(s.drop_last()) * 10 + ((s.last() as u32 - '0' as u32) as nat)
    }
}

pub open spec fn pow10(n: nat) -> nat
    decreases n,
{
    if n == 0 {
        1
    } else {
        10 * pow10((n - 1) as nat)
    }
}

/// An integer part of one to fifteen digits and a fraction of at most four
/// digits.
pub open spec fn amount_parts(int_part: Seq<char>, fraction: Seq<char>) -> bool {
    &&& 1 <= int_part.len() <= INTEGER_DIGITS
    &&& fraction.len() <= FRACTION_DIGITS
    &&& all_digits(int_part)
    &&& all_digits(fraction)
}

/// The amount in minor units: all digits read as one integer, scaled up to
/// four decimal places.
pub open spec fn amount_value(int_part: Seq<char>, fraction: Seq<char>) -> nat {
    digits_value(int_part + fraction) * pow10((FRACTION_DIGITS - fraction.len()) as nat)
}

pub open spec fn is_point_at(s: Seq<char>, p: int) -> bool {
    0 <= p < s.len() && s[p] == '.'
}

/// What `s` denotes as an amount: digits, optionally followed by a point
/// and up to four more digits (`7`, `7.`, `0.25`, `12.5000`); `None` for
/// any other text.
pub open spec fn amount_of_text(s: Seq<char>) -> Option<u64> {
    if exists|p: int| is_point_at(s, p) {
        let p = choose|p: int| is_point_at(s, p);
        if amount_parts(s.take(p), s.skip(p + 1)) {
            Some(amount_value(s.take(p), s.skip(p + 1)) as u64)
        } else {
            None
        }
    } else if amount_parts(s, Seq::empty()) {
        Some(amount_value(s, Seq::empty()) as u64)
    } else {
        None
    }
}

proof fn lemma_digits_bound(s: Seq<char>)
    requires
        all_digits(s),
    ensures
        digits_value(s) < pow10(s.len()),
    decreases s.len(),
{
    if s.len() > 0 {
        lemma_digits_bound(s.drop_last());
    }
}

proof fn lemma_pow10_monotone(a: nat, b: nat)
    requires
        a <= b,
    ensures
        pow10(a) <= pow10(b),
    decreases b,
{
    if a < b {
        lemma_pow10_monotone(a, (b - 1) as nat);
    }
}

proof fn lemma_pow10_19()
    ensures
        pow10(19) == 10000000000000000000nat,
{
    reveal_with_fuel(pow10, 20);
}

/// Reads `s` as an amount in minor units (see [`amount_of_text`]).
pub fn parse_amount(s: &str) -> (r: Option<u64>)
    ensures
        r == amount_of_text(s@),
{
    let n = s.unicode_len();
    let ghost t = s@;
    let mut i: usize = 0;
    let mut acc: u64 = 0;
    let mut point: Option<usize> = None;
    while i < n
        invariant
            t == s@,
            n == t.len(),
            i <= n,
            match point {
                None => {
                    &&& i <= INTEGER_DIGITS
                    &&& all_digits(t.take(i as int))
                    &&& acc == digits_value(t.take(i as int))
                },
                Some(p) => {
                    &&& p < i
                    &&& p <= INTEGER_DIGITS
                    &&& i - p - 1 <= FRACTION_DIGITS
                    &&& t[p as int] == '.'
                    &&& all_digits(t.take(p as int))
                    &&& all_digits(t.subrange(p + 1, i as int))
                    &&& acc == digits_value(t.take(p as int) + t.subrange(p + 1, i as int))
                },
            },
        decreases n - i,
    {
        let c = s.get_char(i);
        if c == '.' {
            match point {
                Some(p) => {
                    proof {
                        assert forall|q: int| is_point_at(t, q) implies !amount_parts(t.take(q), t.skip(q + 1)) by {
                            if q < p {
                                assert(t.take(p as int)[q] == '.');
                            } else if q == p {
                                assert(t.skip(q + 1)[i - q - 1] == '.');
                            } else {
                                assert(t.take(q)[p as int] == '.');
                            }
                        }
                        assert(is_point_at(t, i as int));
                    }
                    return None;
                },
                None => {
                    point = Some(i);
                    proof {
                        assert(t.subrange(i + 1, i + 1) =~= Seq::<char>::empty());
                        assert(t.take(i as int) + t.subrange(i + 1, i + 1) =~= t.take(i as int));
                    }
                },
            }
        } else if '0' <= c && c <= '9' {
            match point {
                None => {
                    if i >= INTEGER_DIGITS {
                        proof {
                            assert forall|q: int| is_point_at(t, q) implies !amount_parts(t.take(q), t.skip(q + 1)) by {
                                if q < i {
                                    assert(is_digit(t.take(i as int)[q]));
                                }
                            }
                        }
                        return None;
                    }
                    proof {
                        lemma_digits_bound(t.take(i as int));
                        lemma_pow10_monotone(i as nat, 18);
                        lemma_pow10_19();
                        assert(t.take(i as int + 1).drop_last() =~= t.take(i as int));
                    }
                    acc = acc * 10 + (c as u64 - '0' as u64);
                },
                Some(p) => {
                    if i - p - 1 >= FRACTION_DIGITS {
                        proof {
                            assert forall|q: int| is_point_at(t, q) implies !amount_parts(t.take(q), t.skip(q + 1)) by {
                                if q < p {
                                    assert(t.take(p as int)[q] == '.');
                                } else if q > p {
                                    assert(t.take(q)[p as int] == '.');
                                }
                            }
                            assert(is_point_at(t, p as int));
                        }
                        return None;
                    }
                    let ghost digits = t.take(p as int) + t.subrange(p + 1, i as int);
                    proof {
                        lemma_digits_bound(digits);
                        lemma_pow10_monotone(digits.len(), 18);
                        lemma_pow10_19();
                        assert(t.take(p as int) + t.subrange(p + 1, i + 1) =~= digits.push(c));
                        assert(digits.push(c).drop_last() =~= digits);
                    }
                    acc = acc * 10 + (c as u64 - '0' as u64);
                },
            }
        } else {
            proof {
                assert forall|q: int| is_point_at(t, q) implies !amount_parts(t.take(q), t.skip(q + 1)) by {
                    if i < q {
                        assert(!is_digit(t.take(q)[i as int]));
                    } else {
                        assert(!is_digit(t.skip(q + 1)[i - q - 1]));
                    }
                }
                assert(!is_digit(t[i as int]));
            }
            return None;
        }
        proof {
            match point {
                None => {
                    assert(t.take(i + 1) =~= t.take(i as int).push(c));
                },
                Some(p) => {
                    if p < i {
                        assert(t.subrange(p + 1, i + 1) =~= t.subrange(p + 1, i as int).push(c));
                    }
                },
            }
        }
        i = i + 1;
    }
    assert(t.take(n as int) =~= t);
    match point {
        None => {
            if n == 0 {
                return None;
            }
            proof {
                assert(t + Seq::<char>::empty() =~= t);
                lemma_digits_bound(t);
            }
            let r = scale_up(acc, n, 0);
            proof {
                assert(!(exists|p: int| is_point_at(t, p)));
            }
            Some(r)
        },
        Some(p) => {
            if p == 0 {
                proof {
                    assert forall|q: int| is_point_at(t, q) implies q == 0 by {
                        if q > 0 {
                            assert(t.subrange(1, n as int)[q - 1] == '.');
                        }
                    }
                }
                return None;
            }
            proof {
                assert(t.subrange(p + 1, n as int) =~= t.skip(p + 1));
                assert forall|q: int| is_point_at(t, q) implies q == p by {
                    if q < p {
                        assert(t.take(p as int)[q] == '.');
                    } else if q > p {
                        assert(t.skip(p + 1)[q - p - 1] == '.');
                    }
                }
                assert(is_point_at(t, p as int));
                lemma_digits_bound(t.take(p as int) + t.subrange(p + 1, n as int));
            }
            let r = scale_up(acc, p, n - p - 1);
            Some(r)
        },
    }
}

/// `value` times ten to the power of the decimal places it lacks.
fn scale_up(value: u64, int_len: usize, frac_len: usize) -> (r: u64)
    requires
        1 <= int_len <= INTEGER_DIGITS,
        frac_len <= FRACTION_DIGITS,
        value < pow10((int_len + frac_len) as nat),
    ensures
        r == value * pow10((FRACTION_DIGITS - frac_len) as nat),
{
    let mut r: u64 = value;
    let mut k: usize = frac_len;
    assert(pow10(0) == 1) by {
        reveal_with_fuel(pow10, 1);
    }
    assert((k - frac_len) as nat == 0nat);
    assert(value * pow10(0) == value) by (nonlinear_arith)
        requires pow10(0) == 1;
    while k < FRACTION_DIGITS
        invariant
            1 <= int_len <= INTEGER_DIGITS,
            frac_len <= k <= FRACTION_DIGITS,
            r == value * pow10((k - frac_len) as nat),
            r < pow10((int_len + k) as nat),
        decreases FRACTION_DIGITS - k,
    {
        proof {
            lemma_pow10_monotone((int_len + k) as nat, 18);
            lemma_pow10_19();
            assert(pow10((k + 1 - frac_len) as nat) == 10 * pow10((k - frac_len) as nat));
            assert(value * (10 * pow10((k - frac_len) as nat)) == (value * pow10((k - frac_len) as nat)) * 10)
                by (nonlinear_arith);
        }
        r = r * 10;
        k = k + 1;
    }
    r
}

/// The character of a decimal digit.
pub open spec fn digit_char(d: nat) -> char {
    if d == 0 { '0' }
    else if d == 1 { '1' }
    else if d == 2 { '2' }
    else if d == 3 { '3' }
    else if d == 4 { '4' }
    else if d == 5 { '5' }
    else if d == 6 { '6' }
    else if d == 7 { '7' }
    else if d == 8 { '8' }
    else { '9' }
}

/// `n` in decimal, without leading zeros (`0` for zero).
pub open spec fn decimal_text(n: nat) -> Seq<char>
    decreases n,
{
    if n < 10 {
        seq![digit_char(n)]
    } else {
        decimal_text(n / 10).push(digit_char(n % 10))
    }
}

/// An amount in minor units as text with exactly four decimal places
/// (`12.5000`, `0.0001`).
pub open spec fn amount_text(v: nat) -> Seq<char> {
    let f = v % 10000;
    decimal_text(v / 10000) + seq![
        '.',
        digit_char(f / 1000),
        digit_char(f / 100 % 10),
        digit_char(f / 10 % 10),
        digit_char(f % 10),
    ]
}

fn digit(d: u64) -> (c: char)
    requires
        d < 10,
    ensures
        c == digit_char(d as nat),
{
    if d == 0 { '0' }
    else if d == 1 { '1' }
    else if d == 2 { '2' }
    else if d == 3 { '3' }
    else if d == 4 { '4' }
    else if d == 5 { '5' }
    else if d == 6 { '6' }
    else if d == 7 { '7' }
    else if d == 8 { '8' }
    else { '9' }
}

fn push_decimal(n: u64, out: &mut Vec<char>)
    ensures
        final(out)@ == old(out)@ + decimal_text(n as nat),
    decreases n,
{
    if n >= 10 {
        push_decimal(n / 10, out);
    }
    out.push(digit(n % 10));
    proof {
        if n >= 10 {
            assert(old(out)@ + decimal_text(n as nat) =~= old(out)@ + decimal_text((n / 10) as nat)
                + seq![digit_char((n % 10) as nat)]);
        } else {
            assert(old(out)@ + decimal_text(n as nat) =~= old(out)@.push(digit_char((n % 10) as nat)));
        }
    }
}

/// Relies on `String::from_iter` over `char`s: the string holds exactly
/// those characters, in order.
#[verifier::external_body]
fn string_of_chars(chars: Vec<char>) -> (r: String)
    ensures
        r@ == chars@,
{
    chars.into_iter().collect()
}

/// Renders an amount in minor units with four decimal places.
pub fn format_amount(v: u64) -> (r: String)
    ensures
        r@ == amount_text(v as nat),
{
    let mut out: Vec<char> = Vec::new();
    push_decimal(v / SCALE, &mut out);
    let f = v % SCALE;
    out.push('.');
    out.push(digit(f / 1000));
    out.push(digit(f / 100 % 10));
    out.push(digit(f / 10 % 10));
    out.push(digit(f % 10));
    assert(out@ =~= amount_text(v as nat));
    string_of_chars(out)
}

} // verus!
