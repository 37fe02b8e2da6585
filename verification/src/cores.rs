//! The scheduler quota for a number of CPU cores given as a decimal fraction.
//!
//! The number of cores is a double precision number, and so is its product with the
//! scheduler period; what is left of the product after its fraction is cut off is
//! the quota.
use crate::binary64::{
    below, lemma_below_mono, lemma_finite, lemma_last_place_is, lemma_nearest_ratio,
    lemma_round_from_bits, lemma_round_infinite, lemma_round_lower, lemma_round_upper,
    lemma_round_whole, lemma_scaled, is_last_place, nearest, round, scaled_den, scaled_num, Binary,
};
use crate::digits::{
    are_digits, capped_value, double, halve, is_zero, lemma_pow10_adds, lemma_pow10_grows,
    lemma_pow10_pos, lemma_value_bound, lemma_value_concat, lemma_value_leading, lemma_value_zeros,
    pow10, value,
};
use vstd::arithmetic::div_mod::{
    lemma_div_denominator, lemma_fundamental_div_mod, lemma_fundamental_div_mod_converse,
};
use vstd::arithmetic::power2::{
    lemma2_to64, lemma2_to64_rest, lemma_pow2_adds, lemma_pow2_pos, lemma_pow2_strictly_increases,
    lemma_pow2_unfold, pow2,
};
use vstd::prelude::*;

verus! {

/// The length of the CPU scheduler period, in microseconds.
pub const PERIOD_MICROS: u64 = 100_000;

/// The microseconds per period that `n / d` cores are given: the double precision
/// product, without its fraction and within 64 bits. Nothing, an infinite number of
/// cores and a quota of zero count as no quota.
pub open spec fn cores_quota(n: nat, d: nat) -> Option<u64> {
    let cores = round(n, d);
    let micros = round(cores.num() * PERIOD_MICROS as nat, cores.den()).floor();
    if cores.mantissa == 0 || cores.is_infinite() || micros == 0 {
        None
    } else if micros > u64::MAX {
        Some(u64::MAX)
    } else {
        Some(micros as u64)
    }
}

/// Numerator and denominator of `digits * 10^exponent`.
pub open spec fn decimal_num(digits: nat, exponent: int) -> nat {
    if exponent >= 0 {
        digits * pow10(exponent as nat)
    } else {
        digits
    }
}

pub open spec fn decimal_den(exponent: int) -> nat {
    if exponent >= 0 {
        1
    } else {
        pow10((-exponent) as nat)
    }
}

/// The quota for `digits * 10^exponent` cores.
pub open spec fn decimal_quota(digits: nat, exponent: int) -> Option<u64> {
    cores_quota(decimal_num(digits, exponent), decimal_den(exponent))
}

proof fn lemma_decimal_den_pos(exponent: int)
    ensures
        decimal_den(exponent) > 0,
{
    if exponent < 0 {
        lemma_pow10_pos((-exponent) as nat);
    }
}

/// So little that no microsecond is left of it.
proof fn lemma_tiny(n: nat, d: nat)
    requires
        d > 0,
        below(n, d, -20),
    ensures
        cores_quota(n, d) is None,
{
    let c = round(n, d);
    lemma_round_upper(n, d, -20);
    let e = c.exponent;
    let m = c.mantissa;
    let a = (-e) as nat;
    let den = pow2(a);
    lemma2_to64();
    lemma2_to64_rest();
    lemma_pow2_adds(53, 20);
    lemma_pow2_pos(a);
    if a > 73 {
        lemma_pow2_strictly_increases(73, a);
    }
    let x = m * PERIOD_MICROS as nat;
    assert(1 * den == den);
    assert(c.den() == den);
    assert(x * pow2(3) < den) by (nonlinear_arith)
        requires
            x == m * 100000,
            m <= pow2(53),
            pow2(3) == 8,
            den >= pow2(53) * pow2(20),
            pow2(20) == 0x100000,
            pow2(53) > 0,
    ;
    assert(below(x, den, -3));
    lemma_round_upper(x, den, -3);
    let p = round(x, den);
    let b = (-p.exponent) as nat;
    if b > 56 {
        lemma_pow2_strictly_increases(56, b);
    }
    assert(1 * pow2(b) == pow2(b));
    assert(p.floor() == 0) by {
        lemma_fundamental_div_mod_converse(p.mantissa as int, pow2(b) as int, 0, p.mantissa as int);
    }
}

/// So much that the quota does not fit 64 bits.
proof fn lemma_plenty(n: nat, d: nat)
    requires
        d > 0,
        !below(n, d, 48),
        !round(n, d).is_infinite(),
    ensures
        cores_quota(n, d) == Some(u64::MAX),
{
    let c = round(n, d);
    lemma_round_lower(n, d, 48);
    lemma2_to64();
    lemma2_to64_rest();
    let e = c.exponent;
    let m = c.mantissa;
    let x = c.num() * PERIOD_MICROS as nat;
    let den = c.den();
    if e >= 0 {
        let p = pow2(e as nat);
        lemma_pow2_pos(e as nat);
        assert(x >= den * pow2(64)) by (nonlinear_arith)
            requires
                x == (m * p) * 100000,
                den == 1,
                p >= 1,
                m >= 0x10000000000000,
                pow2(64) == 0x10000000000000000,
        ;
    } else {
        let a = (-e) as nat;
        if a < 4 {
            lemma_pow2_strictly_increases(a, 4);
        }
        lemma_pow2_pos(a);
        assert(1 * pow2(a) == pow2(a));
        assert(x >= den * pow2(64)) by (nonlinear_arith)
            requires
                x == m * 100000,
                den <= 16,
                m >= 0x10000000000000,
                pow2(64) == 0x10000000000000000,
        ;
    }
    assert(den > 0) by {
        if e < 0 {
            lemma_pow2_pos((-e) as nat);
            assert(1 * pow2((-e) as nat) == pow2((-e) as nat));
        }
    }
    assert(!below(x, den, 64));
    lemma_round_lower(x, den, 64);
    let r = round(x, den);
    let q = pow2(r.exponent as nat);
    if r.exponent > 12 {
        lemma_pow2_strictly_increases(12, r.exponent as nat);
    }
    let rm = r.mantissa;
    assert(rm * q >= 0x10000000000000000) by (nonlinear_arith)
        requires
            rm >= 0x10000000000000,
            q >= 0x1000,
    ;
    assert(r.floor() == rm * q) by {
        assert(r.den() == 1);
        assert((rm * q) / 1 == rm * q);
    }
}

/// The product with the period, from a number of cores with 53 bits.
proof fn lemma_product(m: nat, shift: nat, t: nat)
    requires
        pow2(52) <= m <= pow2(53),
        pow2(t + 52) <= m * 100000 < pow2(t + 53),
        shift <= 80,
        t <= 20,
    ensures
        round(m * 100000, pow2(shift)) == (Binary {
            mantissa: nearest(m * 100000, pow2(t)),
            exponent: t - shift,
        }),
{
    let x = m * 100000;
    let d = pow2(shift);
    let e = t - shift;
    lemma_pow2_pos(shift);
    lemma_pow2_pos(t);
    lemma_scaled(x, d, e, 53);
    lemma_scaled(x, d, e, 52);
    lemma_pow2_adds(t, 53);
    lemma_pow2_adds(t, 52);
    if e >= 0 {
        lemma_pow2_adds(shift, e as nat);
        assert(scaled_den(d, e) == pow2(t));
        assert(scaled_num(x, e) == x);
    } else {
        let a = (-e) as nat;
        let pa = pow2(a);
        let pt = pow2(t);
        lemma_pow2_pos(a);
        lemma_pow2_adds(t, a);
        assert(d == pt * pa);
        assert(x * pa < (pt * pa) * pow2(53) <==> x < pt * pow2(53)) by (nonlinear_arith)
            requires
                pa > 0,
        ;
        assert(x * pa < (pt * pa) * pow2(52) <==> x < pt * pow2(52)) by (nonlinear_arith)
            requires
                pa > 0,
        ;
        lemma_nearest_ratio(x, pt, pa);
    }
    assert(is_last_place(x, d, e));
    lemma_last_place_is(x, d, e);
}

proof fn lemma_pow10_pow2(j: nat)
    ensures
        pow10(3 * j) <= pow2(10 * j),
        pow10(4 * j) >= pow2(13 * j),
    decreases j,
{
    if j == 0 {
        lemma2_to64();
    } else {
        let i = (j - 1) as nat;
        lemma_pow10_pow2(i);
        lemma2_to64();
        lemma_pow2_adds(10 * i, 10);
        lemma_pow2_adds(13 * i, 13);
        lemma_pow10_adds(3 * i, 3);
        lemma_pow10_adds(4 * i, 4);
        reveal_with_fuel(pow10, 5);
        assert(pow10(3) == 1000);
        assert(pow10(4) == 10000);
        assert(3 * j == 3 * i + 3 && 4 * j == 4 * i + 4);
        assert(10 * j == 10 * i + 10 && 13 * j == 13 * i + 13);
    }
}

/// A number with `len` digits, the first not zero, times `10^exponent`.
proof fn lemma_decimal_at_least(digits: nat, len: nat, exponent: int, j: nat)
    requires
        len >= 1,
        digits >= pow10((len - 1) as nat),
        len + exponent > j,
    ensures
        decimal_num(digits, exponent) >= decimal_den(exponent) * pow10(j),
{
    let lead = pow10((len - 1) as nat);
    if exponent >= 0 {
        let p = pow10(exponent as nat);
        lemma_pow10_adds((len - 1) as nat, exponent as nat);
        lemma_pow10_grows(j, (len - 1 + exponent) as nat);
        let t = pow10(j);
        let one = decimal_den(exponent);
        assert(one * t == t) by (nonlinear_arith)
            requires
                one == 1,
        ;
        assert(digits * p >= lead * p) by (nonlinear_arith)
            requires
                digits >= lead,
        ;
    } else {
        lemma_pow10_adds((-exponent) as nat, j);
        lemma_pow10_grows((j - exponent) as nat, (len - 1) as nat);
    }
}

/// A number with `len` digits times `10^exponent`, far below one microsecond.
proof fn lemma_decimal_tiny(digits: nat, len: nat, exponent: int)
    requires
        digits < pow10(len),
        len + exponent <= -7,
    ensures
        decimal_quota(digits, exponent) is None,
{
    let a = (-exponent - len) as nat;
    let p = pow10(len);
    let q = pow10(a);
    lemma_pow10_adds(len, a);
    assert(len + a == (-exponent) as nat);
    lemma_pow10_grows(7, a);
    reveal_with_fuel(pow10, 8);
    assert(pow10(7) == 10000000);
    lemma2_to64();
    lemma_decimal_den_pos(exponent);
    assert(digits * pow2(20) < p * q) by (nonlinear_arith)
        requires
            digits < p,
            q >= 10000000,
            pow2(20) == 0x100000,
    ;
    lemma_tiny(decimal_num(digits, exponent), decimal_den(exponent));
}

/// A number of more than 400 digits before the point is infinite.
proof fn lemma_decimal_infinite(digits: nat, len: nat, exponent: int)
    requires
        len >= 1,
        digits >= pow10((len - 1) as nat),
        len + exponent > 400,
    ensures
        decimal_quota(digits, exponent) is None,
{
    let n = decimal_num(digits, exponent);
    let d = decimal_den(exponent);
    lemma_decimal_den_pos(exponent);
    lemma_decimal_at_least(digits, len, exponent, 400);
    lemma_pow10_pow2(100);
    lemma_pow2_strictly_increases(1024, 1300);
    let p = pow10(400);
    let q = pow2(1024);
    assert(n >= d * q) by (nonlinear_arith)
        requires
            n >= d * p,
            p >= q,
    ;
    lemma_pow2_adds(970, 54);
    lemma_pow2_pos(970);
    lemma_div_denominator(n as int, d as int, pow2(970) as int);
    let h = d * pow2(970);
    let b = pow2(54);
    assert(h > 0 && n >= h * b) by (nonlinear_arith)
        requires
            h == d * pow2(970),
            n >= d * q,
            q == pow2(970) * b,
            d > 0,
            pow2(970) > 0,
    ;
    lemma_fundamental_div_mod(n as int, h as int);
    let k = n / h;
    let r = n % h;
    assert(k >= b) by (nonlinear_arith)
        requires
            n == h * k + r,
            r < h,
            n >= h * b,
    ;
    lemma_round_infinite(n, d);
}

/// A number of more than 15 digits before the point has no quota or the largest one.
proof fn lemma_decimal_plenty(digits: nat, len: nat, exponent: int)
    requires
        len >= 1,
        digits >= pow10((len - 1) as nat),
        len + exponent > 15,
    ensures
        decimal_quota(digits, exponent) == if round(
            decimal_num(digits, exponent),
            decimal_den(exponent),
        ).is_infinite() {
            None
        } else {
            Some(u64::MAX)
        },
{
    let n = decimal_num(digits, exponent);
    let d = decimal_den(exponent);
    lemma_decimal_den_pos(exponent);
    lemma_decimal_at_least(digits, len, exponent, 15);
    reveal_with_fuel(pow10, 16);
    assert(pow10(15) == 1_000_000_000_000_000);
    lemma2_to64_rest();
    let p = pow10(15);
    let q = pow2(48);
    assert(n >= d * q) by (nonlinear_arith)
        requires
            n >= d * p,
            p >= q,
    ;
    if !round(n, d).is_infinite() {
        lemma_plenty(n, d);
    }
}

/// Two exponents that are both far out of range say the same.
pub(crate) proof fn lemma_decimal_extreme(digits: nat, len: nat, x: int, y: int)
    requires
        digits < pow10(len),
        x == y || (x > 400 && y > 400) || (x + len <= -7 && y + len <= -7),
    ensures
        decimal_quota(digits, x) == decimal_quota(digits, y),
{
    if x != y {
        if x > 400 {
            if digits == 0 {
                lemma_decimal_zero(x);
                lemma_decimal_zero(y);
            } else {
                let k = lemma_digit_count(digits, len);
                lemma_decimal_infinite(digits, k, x);
                lemma_decimal_infinite(digits, k, y);
            }
        } else {
            lemma_decimal_tiny(digits, len, x);
            lemma_decimal_tiny(digits, len, y);
        }
    }
}

proof fn lemma_digit_count(digits: nat, len: nat) -> (k: nat)
    requires
        0 < digits < pow10(len),
    ensures
        k >= 1,
        digits >= pow10((k - 1) as nat),
    decreases len,
{
    if len <= 1 {
        1
    } else if digits >= pow10((len - 1) as nat) {
        len
    } else {
        lemma_digit_count(digits, (len - 1) as nat)
    }
}

proof fn lemma_decimal_zero(exponent: int)
    ensures
        decimal_quota(0, exponent) is None,
{
    lemma_decimal_den_pos(exponent);
    let n = decimal_num(0, exponent);
    let p = pow2(20);
    assert(n == 0) by {
        if exponent >= 0 {
            assert(0 * pow10(exponent as nat) == 0);
        }
    }
    assert(n * p == 0) by (nonlinear_arith)
        requires
            n == 0,
    ;
    lemma_tiny(n, decimal_den(exponent));
}

/// The digits before and after the decimal point.
proof fn lemma_split(s: Seq<u8>, k: int, whole: Seq<u8>, fraction: Seq<u8>)
    requires
        are_digits(s),
        are_digits(fraction),
        k < 0 ==> whole.len() == 0 && fraction.len() == s.len() - k && fraction.skip(-k) == s && (
        forall|i: int| 0 <= i < -k ==> fraction[i] == 0),
        0 <= k <= s.len() ==> whole == s.take(k) && fraction == s.skip(k),
        k > s.len() ==> fraction.len() == 0 && whole.len() == k && whole.take(s.len() as int) == s
            && (forall|i: int| s.len() <= i < k ==> whole[i] == 0),
    ensures
        decimal_den(k - s.len()) == pow10(fraction.len()),
        decimal_num(value(s), k - s.len()) == value(whole) * pow10(fraction.len()) + value(fraction),
        value(fraction) < pow10(fraction.len()),
{
    lemma_value_bound(fraction);
    let v = value(s);
    if k < 0 {
        let zeros = fraction.take(-k);
        lemma_value_zeros(zeros);
        assert(fraction =~= zeros + s);
        lemma_value_concat(zeros, s);
        assert(value(whole) == 0);
        let p = pow10(fraction.len());
        let q = pow10(s.len());
        assert(0 * p == 0 && 0 * q == 0) by (nonlinear_arith);
    } else if k <= s.len() {
        assert(s =~= whole + fraction);
        lemma_value_concat(whole, fraction);
        if k == s.len() {
            assert(v * pow10(0) == v) by (nonlinear_arith)
                requires
                    pow10(0) == 1,
            ;
        }
    } else {
        let zeros = whole.skip(s.len() as int);
        lemma_value_zeros(zeros);
        assert(whole =~= s + zeros);
        lemma_value_concat(s, zeros);
        let w = value(whole);
        assert(w * pow10(0) == w) by (nonlinear_arith)
            requires
                pow10(0) == 1,
        ;
    }
}

/// Cut the number that starts at `start` at the decimal point, which stands behind
/// its `k`-th digit.
fn split(s: &Vec<u8>, start: usize, k: i64) -> (parts: (Vec<u8>, Vec<u8>))
    requires
        are_digits(s@),
        start <= s@.len(),
        -10 <= k <= 400,
    ensures
        are_digits(parts.0@),
        are_digits(parts.1@),
        parts.0@.len() == if k < 0 {
            0
        } else {
            k as int
        },
        decimal_den(k - (s@.len() - start)) == pow10(parts.1@.len()),
        decimal_num(value(s@.skip(start as int)), k - (s@.len() - start)) == value(parts.0@) * pow10(
            parts.1@.len(),
        ) + value(parts.1@),
        value(parts.1@) < pow10(parts.1@.len()),
{
    let ghost tail = s@.skip(start as int);
    let len: usize = s.len() - start;
    let mut whole: Vec<u8> = Vec::new();
    let mut fraction: Vec<u8> = Vec::new();
    let mut i: i64 = 0;
    while i < k
        invariant
            0 <= i <= 400,
            k >= 0 ==> i <= k,
            k < 0 ==> i == 0,
            k <= 400,
            are_digits(s@),
            start <= s.len(),
            len == s.len() - start,
            tail == s@.skip(start as int),
            whole@.len() == i,
            forall|j: int|
                0 <= j < i ==> #[trigger] whole@[j] == if j < len {
                    tail[j]
                } else {
                    0
                },
        decreases k - i,
    {
        if (i as usize) < len {
            whole.push(s[start + i as usize]);
        } else {
            whole.push(0);
        }
        i = i + 1;
    }
    let mut j: i64 = k;
    while j < 0
        invariant
            -10 <= k <= j,
            k < 0 ==> j <= 0,
            k >= 0 ==> j == k,
            k < 0 ==> fraction@.len() == j - k,
            k >= 0 ==> fraction@.len() == 0,
            forall|m: int| 0 <= m < fraction@.len() ==> #[trigger] fraction@[m] == 0,
        decreases -j,
    {
        fraction.push(0);
        j = j + 1;
    }
    let ghost pad = fraction@.len();
    let from: usize = if k < 0 {
        0
    } else {
        k as usize
    };
    let mut m: usize = from;
    while m < len
        invariant
            are_digits(s@),
            start <= s.len(),
            len == s.len() - start,
            tail == s@.skip(start as int),
            from <= m,
            from <= len ==> m <= len,
            from > len ==> m == from,
            fraction@.len() == pad + (m - from),
            forall|q: int| 0 <= q < pad ==> #[trigger] fraction@[q] == 0,
            forall|q: int| pad <= q < fraction@.len() ==> #[trigger] fraction@[q] == tail[from + q - pad],
        decreases len - m,
    {
        fraction.push(s[start + m]);
        m = m + 1;
    }
    proof {
        if k < 0 {
            assert(fraction@.skip(-k) =~= tail);
        } else if k <= len {
            assert(whole@ =~= tail.take(k as int));
            assert(fraction@ =~= tail.skip(k as int));
        } else {
            assert(whole@.take(tail.len() as int) =~= tail);
        }
        lemma_split(tail, k as int, whole@, fraction@);
    }
    (whole, fraction)
}

/// `2^k`.
fn power_of_two(k: u32) -> (power: u128)
    requires
        k <= 100,
    ensures
        power == pow2(k as nat),
{
    let mut power: u128 = 1;
    let mut i: u32 = 0;
    proof {
        lemma2_to64();
        lemma2_to64_rest();
        lemma_pow2_adds(64, 36);
    }
    while i < k
        invariant
            i <= k <= 100,
            power == pow2(i as nat),
            pow2(100) == 0x10000000000000000 * 0x1000000000,
        decreases k - i,
    {
        proof {
            lemma_pow2_unfold((i + 1) as nat);
            lemma_pow2_strictly_increases(i as nat, 100);
        }
        power = 2 * power;
        i = i + 1;
    }
    power
}

/// The quota for `bits / 2^shift` cores.
fn quota_from_bits(bits: u64, shift: u32) -> (quota: Option<u64>)
    requires
        0x10000000000000 <= bits <= 0x20000000000000,
        0 < shift <= 80,
    ensures
        quota == ({
            let micros = round(bits as nat * 100000, pow2(shift as nat)).floor();
            if micros == 0 {
                None
            } else if micros > u64::MAX {
                Some(u64::MAX)
            } else {
                Some(micros as u64)
            }
        }),
{
    proof {
        lemma2_to64();
        lemma2_to64_rest();
        lemma_pow2_adds(64, 4);
        lemma_pow2_adds(64, 5);
        lemma_pow2_adds(64, 6);
    }
    let product: u128 = bits as u128 * 100000;
    let t: u32 = if product < 0x200000000000000000 {
        16
    } else {
        17
    };
    let unit: u128 = power_of_two(t);
    let quotient: u128 = product / unit;
    let rest: u128 = product % unit;
    let mantissa: u128 = if 2 * rest < unit || (2 * rest == unit && quotient % 2 == 0) {
        quotient
    } else {
        quotient + 1
    };
    proof {
        lemma_product(bits as nat, shift as nat, t as nat);
    }
    let ghost r = round(bits as nat * 100000, pow2(shift as nat));
    assert(r.mantissa == mantissa && r.exponent == t - shift);
    assert(mantissa <= 0x20000000000000) by {
        lemma_pow2_adds(t as nat, 53);
        crate::binary64::lemma_nearest_at_most(product as nat, unit as nat, pow2(53));
    }
    let micros: u128 = if shift <= t {
        let scale: u128 = power_of_two(t - shift);
        proof {
            if t - shift < 17 {
                lemma_pow2_strictly_increases((t - shift) as nat, 17);
            }
            assert(mantissa * scale <= 0x20000000000000 * 0x20000) by (nonlinear_arith)
                requires
                    mantissa <= 0x20000000000000,
                    scale <= 0x20000,
            ;
            assert(r.den() == 1);
        }
        mantissa * scale
    } else {
        let scale: u128 = power_of_two(shift - t);
        proof {
            lemma_pow2_pos((shift - t) as nat);
            assert(1 * pow2((shift - t) as nat) == pow2((shift - t) as nat));
        }
        mantissa / scale
    };
    if micros == 0 {
        None
    } else if micros > 0xffff_ffff_ffff_ffff {
        Some(u64::MAX)
    } else {
        Some(micros as u64)
    }
}

/// The quota for a number of cores below `10^15`, given by its digits before and
/// after the decimal point.
fn quota_from_digits(whole: &Vec<u8>, fraction: Vec<u8>) -> (quota: Option<u64>)
    requires
        are_digits(whole@),
        are_digits(fraction@),
        whole@.len() <= 15,
    ensures
        quota == cores_quota(
            value(whole@) * pow10(fraction@.len()) + value(fraction@),
            pow10(fraction@.len()),
        ),
{
    let ghost d = pow10(fraction@.len());
    let ghost n = value(whole@) * d + value(fraction@);
    proof {
        lemma2_to64();
        lemma2_to64_rest();
        lemma_value_bound(whole@);
        lemma_value_bound(fraction@);
        lemma_pow10_pos(fraction@.len());
        lemma_pow10_grows(whole@.len(), 15);
        reveal_with_fuel(pow10, 16);
        assert(pow10(15) == 1_000_000_000_000_000);
    }
    let mut rest = fraction;
    let mut bits: u64 = capped_value(whole, 1_000_000_000_000_000);
    let mut shift: u32 = 0;
    assert(n * pow2(0) == bits * d + value(rest@)) by (nonlinear_arith)
        requires
            pow2(0) == 1,
            n == bits * d + value(rest@),
    ;
    while bits < 0x10000000000000 && shift < 80
        invariant
            shift <= 80,
            shift == 0 ==> bits < 0x10000000000000,
            bits < 0x20000000000000,
            are_digits(rest@),
            d == pow10(rest@.len()),
            n * pow2(shift as nat) == bits * d + value(rest@),
        decreases 80 - shift,
    {
        let ghost b0 = bits as nat;
        let ghost f0 = value(rest@);
        let carry = double(&mut rest);
        proof {
            lemma_pow2_unfold((shift + 1) as nat);
            let p = pow2(shift as nat);
            let f1 = value(rest@);
            let c = carry as nat;
            assert(n * (2 * p) == (2 * b0 + c) * d + f1) by (nonlinear_arith)
                requires
                    n * p == b0 * d + f0,
                    2 * f0 == c * d + f1,
            ;
        }
        bits = 2 * bits + carry as u64;
        shift = shift + 1;
    }
    proof {
        lemma_value_bound(rest@);
    }
    if bits < 0x10000000000000 {
        proof {
            lemma_pow2_adds(52, 28);
            let f = value(rest@);
            let b = bits as nat;
            let p = pow2(28);
            assert(n * p < d) by (nonlinear_arith)
                requires
                    n * (pow2(52) * p) == b * d + f,
                    f < d,
                    b + 1 <= pow2(52),
                    pow2(52) > 0,
            ;
            assert(below(n, d, -28));
            lemma_below_mono(n, d, -28, -20);
            lemma_tiny(n, d);
        }
        return None;
    }
    let ghost left = value(rest@);
    let half = double(&mut rest);
    let up = half == 1 && (!is_zero(&rest) || bits % 2 == 1);
    proof {
        lemma_value_bound(rest@);
        assert(half == 1 ==> half * d == d);
        assert(half == 0 ==> half * d == 0);
        lemma_round_from_bits(n, d, bits as nat, shift as nat, left);
        assert(1 * pow2(shift as nat) == pow2(shift as nat));
        assert(round(n, d).den() == pow2(shift as nat));
        lemma_finite(round(n, d));
    }
    let mantissa: u64 = if up {
        bits + 1
    } else {
        bits
    };
    assert(round(n, d).mantissa == mantissa);
    assert(round(n, d).num() * PERIOD_MICROS as nat == mantissa as nat * 100000);
    quota_from_bits(mantissa, shift)
}

/// The quota for `digits * 10^exponent` cores.
pub(crate) fn quota_of_decimal(digits: &Vec<u8>, exponent: i128) -> (quota: Option<u64>)
    requires
        are_digits(digits@),
        -0x10_0000_0000_0000_0000_0000 <= exponent <= 0x10_0000_0000_0000_0000_0000,
    ensures
        quota == decimal_quota(value(digits@), exponent as int),
{
    let mut start: usize = 0;
    while start < digits.len() && digits[start] == 0
        invariant
            start <= digits.len(),
            forall|j: int| 0 <= j < start ==> digits@[j] == 0,
        decreases digits.len() - start,
    {
        start = start + 1;
    }
    let ghost tail = digits@.skip(start as int);
    proof {
        let zeros = digits@.take(start as int);
        assert(digits@ =~= zeros + tail);
        lemma_value_zeros(zeros);
        lemma_value_concat(zeros, tail);
        assert(0 * pow10(tail.len()) == 0);
        lemma_value_bound(tail);
    }
    if start == digits.len() {
        proof {
            assert(value(tail) == 0);
            lemma_decimal_zero(exponent as int);
        }
        return None;
    }
    let len: usize = digits.len() - start;
    proof {
        lemma_value_leading(tail);
    }
    let point: i128 = len as i128 + exponent;
    if point < -6 {
        proof {
            lemma_decimal_tiny(value(tail), len as nat, exponent as int);
        }
        return None;
    }
    if point > 400 {
        proof {
            lemma_decimal_infinite(value(tail), len as nat, exponent as int);
        }
        return None;
    }
    let ghost n = decimal_num(value(tail), exponent as int);
    let ghost d = decimal_den(exponent as int);
    let (whole, fraction) = split(digits, start, point as i64);
    if point <= 15 {
        return quota_from_digits(&whole, fraction);
    }
    proof {
        lemma_decimal_plenty(value(tail), len as nat, exponent as int);
        lemma_round_infinite(n, d);
        lemma_decimal_den_pos(exponent as int);
        lemma_fundamental_div_mod_converse(
            n as int,
            d as int,
            value(whole@) as int,
            value(fraction@) as int,
        );
    }
    if is_past_largest(whole) {
        None
    } else {
        Some(u64::MAX)
    }
}

/// Whether an integer is rounded to infinity.
fn is_past_largest(whole: Vec<u8>) -> (past: bool)
    requires
        are_digits(whole@),
    ensures
        past == (value(whole@) / pow2(970) >= pow2(54) - 1),
{
    let ghost v = value(whole@);
    let mut rest = whole;
    let mut i: u32 = 0;
    proof {
        lemma2_to64();
        lemma2_to64_rest();
        assert(v / 1 == v);
    }
    while i < 970
        invariant
            i <= 970,
            are_digits(rest@),
            value(rest@) == v / pow2(i as nat),
        decreases 970 - i,
    {
        halve(&mut rest);
        proof {
            lemma_pow2_pos(i as nat);
            lemma_pow2_unfold((i + 1) as nat);
            lemma_div_denominator(v as int, pow2(i as nat) as int, 2);
        }
        i = i + 1;
    }
    capped_value(&rest, 0x3fffffffffffff) == 0x3fffffffffffff
}

/// A whole number of cores whose quota is a double precision number and fits 64
/// bits gets exactly that quota.
pub(crate) proof fn lemma_whole_quota(bits: nat, shift: nat)
    requires
        bits > 0,
        bits * 3125 < pow2(53),
        bits * pow2(shift) * PERIOD_MICROS <= u64::MAX,
    ensures
        cores_quota(bits * pow2(shift), 1) == Some((bits * pow2(shift) * PERIOD_MICROS) as u64),
{
    let n = bits * pow2(shift);
    lemma_pow2_pos(shift);
    assert(n > 0) by (nonlinear_arith)
        requires
            n == bits * pow2(shift),
            bits > 0,
            pow2(shift) > 0,
    ;
    assert(n * 1 == n);
    lemma_round_whole(bits, shift, 1);
    let cores = round(n, 1);
    let den = cores.den();
    assert(cores.num() == n * den);
    // The period is 3125 * 2^5.
    lemma2_to64();
    lemma_pow2_adds(shift, 5);
    assert(cores.num() * PERIOD_MICROS as nat == ((bits * 3125) * pow2(shift + 5)) * den)
        by (nonlinear_arith)
        requires
            cores.num() == n * den,
            n == bits * pow2(shift),
            pow2(shift + 5) == pow2(shift) * 32,
            PERIOD_MICROS == 100000,
    ;
    lemma_round_whole(bits * 3125, shift + 5, den);
    let whole = (bits * 3125) * pow2(shift + 5);
    assert(whole == n * PERIOD_MICROS) by (nonlinear_arith)
        requires
            whole == (bits * 3125) * pow2(shift + 5),
            n == bits * pow2(shift),
            pow2(shift + 5) == pow2(shift) * 32,
            PERIOD_MICROS == 100000,
    ;
    assert(cores.num() > 0) by (nonlinear_arith)
        requires
            cores.num() == n * den,
            n > 0,
            den > 0,
    ;
    assert(cores.mantissa != 0);
    // Far from infinite.
    lemma2_to64_rest();
    lemma_pow2_strictly_increases(64, 1024);
    assert(n < pow2(1024));
    assert(cores.num() < den * pow2(1024)) by (nonlinear_arith)
        requires
            cores.num() == n * den,
            n < pow2(1024),
            den > 0,
    ;
}

/// The quota is the integer part of the product of the cores with 100000, both in
/// double precision, or the largest 64-bit number where the product is not below
/// it. There is none where the cores are zero or past the largest double precision
/// number, or the product is below one.
pub proof fn law_quota_of_cores(n: nat, d: nat)
    requires
        d > 0,
    ensures
        ({
            let cores = round(n, d);
            let product = round(cores.num() * 100_000, cores.den());
            let quota = cores_quota(n, d);
            &&& quota is None <==> cores.num() == 0 || cores.num() >= cores.den() * pow2(1024)
                || product.num() < product.den()
            &&& quota matches Some(q) ==> q * product.den() <= product.num()
            &&& quota matches Some(q) ==> q < u64::MAX ==> product.num() < (q + 1) * product.den()
        }),
{
    let cores = round(n, d);
    let product = round(cores.num() * 100_000, cores.den());
    if cores.exponent >= 0 {
        let m = cores.mantissa;
        let p = pow2(cores.exponent as nat);
        lemma_pow2_pos(cores.exponent as nat);
        assert(m * p == 0 <==> m == 0) by (nonlinear_arith)
            requires
                p > 0,
        ;
    }
    let a = product.num() as int;
    let b = product.den() as int;
    if product.exponent < 0 {
        lemma_pow2_pos((-product.exponent) as nat);
        assert(1 * pow2((-product.exponent) as nat) == pow2((-product.exponent) as nat));
    }
    lemma_fundamental_div_mod(a, b);
    let q = a / b;
    let r = a % b;
    assert(q * b <= a && a < (q + 1) * b && (q == 0 <==> a < b)) by (nonlinear_arith)
        requires
            a == b * q + r,
            0 <= r < b,
            a >= 0,
            q >= 0,
    ;
    if q > u64::MAX {
        assert(u64::MAX * b <= q * b) by (nonlinear_arith)
            requires
                q > u64::MAX,
                b > 0,
        ;
    }
}

} // verus!
