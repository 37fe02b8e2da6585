//! Arithmetic of IEEE 754 double precision numbers, over exact integers.
//!
//! A non-negative rational `n / d` is rounded to the closest number
//! `mantissa * 2^exponent` with a mantissa of at most 53 bits and an exponent of at
//! least -1074; halfway cases go to the even mantissa. No floating point operation
//! is ever executed.
use vstd::arithmetic::div_mod::{
    lemma_div_denominator, lemma_fundamental_div_mod, lemma_fundamental_div_mod_converse,
    lemma_multiply_divide_lt,
};
use vstd::arithmetic::power2::{
    lemma2_to64, lemma2_to64_rest, lemma_pow2_adds, lemma_pow2_pos, lemma_pow2_strictly_increases,
    lemma_pow2_unfold, pow2,
};
use vstd::prelude::*;

verus! {

/// `n / d < 2^k`.
pub open spec fn below(n: nat, d: nat, k: int) -> bool {
    if k >= 0 {
        n < d * pow2(k as nat)
    } else {
        n * pow2((-k) as nat) < d
    }
}

/// `n / d` to the nearest integer, halfway cases to the even one.
pub open spec fn nearest(n: nat, d: nat) -> nat {
    if 2 * (n % d) < d || (2 * (n % d) == d && (n / d) % 2 == 0) {
        n / d
    } else {
        n / d + 1
    }
}

/// `2^e` is the weight of the last of the 53 bits of `n / d`, or the smallest
/// weight there is.
pub open spec fn is_last_place(n: nat, d: nat, e: int) -> bool {
    &&& e >= -1074
    &&& below(n, d, e + 53)
    &&& e > -1074 ==> !below(n, d, e + 52)
}

/// The exponent that `n / d` is rounded with.
pub open spec fn last_place(n: nat, d: nat) -> int {
    choose|e: int| is_last_place(n, d, e)
}

/// Numerator and denominator of `(n / d) / 2^e`.
pub open spec fn scaled_num(n: nat, e: int) -> nat {
    if e >= 0 {
        n
    } else {
        n * pow2((-e) as nat)
    }
}

pub open spec fn scaled_den(d: nat, e: int) -> nat {
    if e >= 0 {
        d * pow2(e as nat)
    } else {
        d
    }
}

/// The number `mantissa * 2^exponent`.
pub struct Binary {
    pub mantissa: nat,
    pub exponent: int,
}

impl Binary {
    pub open spec fn num(self) -> nat {
        scaled_den(self.mantissa, self.exponent)
    }

    pub open spec fn den(self) -> nat {
        scaled_num(1, self.exponent)
    }

    /// The number is not below `2^1024`: in double precision it is infinite.
    pub open spec fn is_infinite(self) -> bool {
        !below(self.num(), self.den(), 1024)
    }

    /// The integer part.
    pub open spec fn floor(self) -> nat {
        self.num() / self.den()
    }
}

/// The double precision number closest to `n / d`, were there no largest one.
pub open spec fn round(n: nat, d: nat) -> Binary {
    let e = last_place(n, d);
    Binary { mantissa: nearest(scaled_num(n, e), scaled_den(d, e)), exponent: e }
}

proof fn lemma_below_step(n: nat, d: nat, k: int)
    requires
        below(n, d, k),
    ensures
        below(n, d, k + 1),
{
    if k >= 0 {
        lemma_pow2_unfold((k + 1) as nat);
        let p = pow2(k as nat);
        assert(d * (2 * p) == 2 * (d * p)) by (nonlinear_arith);
    } else {
        lemma_pow2_unfold((-k) as nat);
        let p = pow2((-k - 1) as nat);
        assert(n * (2 * p) == 2 * (n * p) && n * p >= 0) by (nonlinear_arith);
        if k == -1 {
            lemma2_to64();
            assert(d * pow2(0) == d && n * pow2(0) == n) by (nonlinear_arith)
                requires
                    pow2(0) == 1,
            ;
        }
    }
}

pub(crate) proof fn lemma_below_mono(n: nat, d: nat, j: int, k: int)
    requires
        below(n, d, j),
        j <= k,
    ensures
        below(n, d, k),
    decreases k - j,
{
    if j < k {
        lemma_below_step(n, d, j);
        lemma_below_mono(n, d, j + 1, k);
    }
}

proof fn lemma_last_place_search(n: nat, d: nat, e: int)
    requires
        e >= -1074,
        below(n, d, e + 53),
    ensures
        exists|f: int| is_last_place(n, d, f),
    decreases e + 1074,
{
    if e == -1074 || !below(n, d, e + 52) {
        assert(is_last_place(n, d, e));
    } else {
        lemma_last_place_search(n, d, e - 1);
    }
}

proof fn lemma_pow2_exceeds(k: nat)
    ensures
        k < pow2(k),
    decreases k,
{
    if k == 0 {
        lemma2_to64();
    } else {
        lemma_pow2_exceeds((k - 1) as nat);
        lemma_pow2_unfold(k);
    }
}

/// Every number has a last place.
proof fn lemma_last_place(n: nat, d: nat)
    requires
        d > 0,
    ensures
        is_last_place(n, d, last_place(n, d)),
{
    let k = n + 53;
    lemma_pow2_exceeds(k);
    let p = pow2(k);
    assert(n < d * p) by (nonlinear_arith)
        requires
            n < p,
            d >= 1,
    ;
    lemma_last_place_search(n, d, n as int);
}

/// The last place is the only one of its kind.
pub(crate) proof fn lemma_last_place_is(n: nat, d: nat, e: int)
    requires
        is_last_place(n, d, e),
    ensures
        last_place(n, d) == e,
{
    let f = last_place(n, d);
    assert(is_last_place(n, d, f));
    if f < e {
        lemma_below_mono(n, d, f + 53, e + 52);
    } else if e < f {
        lemma_below_mono(n, d, e + 53, f + 52);
    }
}

/// Dividing by `2^e` first and comparing with `2^t` is comparing with `2^(e + t)`.
pub(crate) proof fn lemma_scaled(n: nat, d: nat, e: int, t: nat)
    ensures
        below(n, d, e + t) <==> scaled_num(n, e) < scaled_den(d, e) * pow2(t),
{
    lemma_pow2_pos(t);
    if e >= 0 {
        lemma_pow2_adds(e as nat, t);
        let a = pow2(e as nat);
        let b = pow2(t);
        assert(d * (a * b) == (d * a) * b) by (nonlinear_arith);
    } else if e + t >= 0 {
        let a = pow2((-e) as nat);
        let b = pow2((e + t) as nat);
        lemma_pow2_adds((e + t) as nat, (-e) as nat);
        lemma_pow2_pos((-e) as nat);
        assert((e + t) as nat + (-e) as nat == t);
        assert(n < d * b <==> n * a < d * (b * a)) by (nonlinear_arith)
            requires
                a > 0,
        ;
    } else {
        let a = pow2((-e - t) as nat);
        let b = pow2(t);
        lemma_pow2_adds((-e - t) as nat, t);
        assert((-e - t) as nat + t == (-e) as nat);
        assert(n * a < d <==> n * (a * b) < d * b) by (nonlinear_arith)
            requires
                b > 0,
        ;
    }
}

proof fn lemma_scaled_den_pos(d: nat, e: int)
    requires
        d > 0,
    ensures
        scaled_den(d, e) > 0,
{
    if e >= 0 {
        lemma_pow2_pos(e as nat);
        let p = pow2(e as nat);
        assert(d * p > 0) by (nonlinear_arith)
            requires
                d > 0,
                p > 0,
        ;
    }
}

pub(crate) proof fn lemma_nearest_at_most(n: nat, d: nat, b: nat)
    requires
        d > 0,
        n < d * b,
    ensures
        nearest(n, d) <= b,
{
    lemma_multiply_divide_lt(n as int, d as int, b as int);
}

pub(crate) proof fn lemma_nearest_at_least(n: nat, d: nat, b: nat)
    requires
        d > 0,
        n >= d * b,
    ensures
        nearest(n, d) >= b,
{
    lemma_fundamental_div_mod(n as int, d as int);
    let q = n / d;
    let r = n % d;
    assert(q >= b) by (nonlinear_arith)
        requires
            n == d * q + r,
            r < d,
            n >= d * b,
    ;
}

/// A number below `2^j` has a last place of at most `2^(j - 53)`.
pub(crate) proof fn lemma_round_upper(n: nat, d: nat, j: int)
    requires
        d > 0,
        below(n, d, j),
        j >= -1021,
    ensures
        round(n, d).mantissa <= pow2(53),
        -1074 <= round(n, d).exponent <= j - 53,
{
    let e = last_place(n, d);
    lemma_last_place(n, d);
    if e > -1074 && e > j - 53 {
        lemma_below_mono(n, d, j, e + 52);
    }
    lemma_scaled(n, d, e, 53);
    lemma_scaled_den_pos(d, e);
    lemma_nearest_at_most(scaled_num(n, e), scaled_den(d, e), pow2(53));
}

/// A number of at least `2^j` has a last place of at least `2^(j - 52)`, and all 53
/// bits.
pub(crate) proof fn lemma_round_lower(n: nat, d: nat, j: int)
    requires
        d > 0,
        !below(n, d, j),
        j >= -1021,
    ensures
        pow2(52) <= round(n, d).mantissa <= pow2(53),
        round(n, d).exponent >= j - 52,
{
    let e = last_place(n, d);
    lemma_last_place(n, d);
    if e < j - 52 {
        lemma_below_mono(n, d, e + 53, j);
    }
    lemma_scaled(n, d, e, 53);
    lemma_scaled(n, d, e, 52);
    lemma_scaled_den_pos(d, e);
    lemma_nearest_at_most(scaled_num(n, e), scaled_den(d, e), pow2(53));
    lemma_nearest_at_least(scaled_num(n, e), scaled_den(d, e), pow2(52));
}

/// The round-to-nearest choice depends on the ratio alone.
pub(crate) proof fn lemma_nearest_ratio(n: nat, d: nat, a: nat)
    requires
        d > 0,
        a > 0,
    ensures
        nearest(n * a, d * a) == nearest(n, d),
{
    let q = n / d;
    let r = n % d;
    lemma_fundamental_div_mod(n as int, d as int);
    assert(n * a == q * (d * a) + r * a && 0 <= r * a < d * a) by (nonlinear_arith)
        requires
            n == d * q + r,
            0 <= r < d,
            a > 0,
    ;
    lemma_fundamental_div_mod_converse((n * a) as int, (d * a) as int, q as int, (r * a) as int);
    assert(2 * (r * a) < d * a <==> 2 * r < d) by (nonlinear_arith)
        requires
            a > 0,
    ;
    assert(2 * (r * a) == d * a <==> 2 * r == d) by (nonlinear_arith)
        requires
            a > 0,
    ;
}

/// With 53 bits of `n / d` in hand and `rest / d` left over, the last bit decides.
pub(crate) proof fn lemma_round_from_bits(n: nat, d: nat, bits: nat, shift: nat, rest: nat)
    requires
        rest < d,
        n * pow2(shift) == bits * d + rest,
        pow2(52) <= bits < pow2(53),
        0 < shift <= 1074,
    ensures
        round(n, d).exponent == -shift,
        round(n, d).mantissa == if 2 * rest < d || (2 * rest == d && bits % 2 == 0) {
            bits
        } else {
            bits + 1
        },
{
    let e = -shift;
    let m = n * pow2(shift);
    assert(m < d * pow2(53)) by (nonlinear_arith)
        requires
            m == bits * d + rest,
            rest < d,
            bits + 1 <= pow2(53),
    ;
    assert(m >= d * pow2(52)) by (nonlinear_arith)
        requires
            m == bits * d + rest,
            bits >= pow2(52),
    ;
    lemma_scaled(n, d, e, 53);
    lemma_scaled(n, d, e, 52);
    assert(is_last_place(n, d, e));
    lemma_last_place_is(n, d, e);
    assert(d * bits == bits * d) by (nonlinear_arith);
    lemma_fundamental_div_mod_converse(m as int, d as int, bits as int, rest as int);
}

/// Rounding reaches infinity exactly from half a unit below `2^1024` on.
pub(crate) proof fn lemma_round_infinite(n: nat, d: nat)
    requires
        d > 0,
    ensures
        round(n, d).is_infinite() <==> (n / d) / pow2(970) >= pow2(54) - 1,
{
    let c = round(n, d);
    let e = c.exponent;
    let m = c.mantissa;
    let p970 = pow2(970);
    lemma_pow2_pos(970);
    lemma2_to64();
    lemma2_to64_rest();
    lemma_pow2_adds(970, 53);
    lemma_pow2_adds(970, 54);
    lemma_pow2_adds(971, 53);
    lemma_pow2_adds(970, 1);
    lemma_fundamental_div_mod(n as int, d as int);
    lemma_div_denominator(n as int, d as int, p970 as int);
    let h = d * p970;
    assert(h > 0) by (nonlinear_arith)
        requires
            d > 0,
            p970 > 0,
            h == d * p970,
    ;
    lemma_fundamental_div_mod(n as int, h as int);
    let k = n / h;
    let rest = n % h;
    assert(k >= pow2(54) - 1 <==> n >= h * (pow2(54) - 1)) by (nonlinear_arith)
        requires
            n == h * k + rest,
            0 <= rest < h,
    ;
    assert(h * pow2(53) == d * pow2(1023)) by (nonlinear_arith)
        requires
            h == d * p970,
            pow2(1023) == p970 * pow2(53),
    ;
    assert(h * pow2(54) == d * pow2(1024)) by (nonlinear_arith)
        requires
            h == d * p970,
            pow2(1024) == p970 * pow2(54),
    ;
    if below(n, d, 1023) {
        lemma_round_upper(n, d, 1023);
        assert(n < h * (pow2(54) - 1)) by (nonlinear_arith)
            requires
                n < h * pow2(53),
                pow2(53) <= pow2(54) - 1,
                h > 0,
        ;
        lemma_finite(c);
    } else if !below(n, d, 1024) {
        lemma_round_lower(n, d, 1024);
        lemma_infinite_integer(c);
        assert(n >= h * (pow2(54) - 1)) by (nonlinear_arith)
            requires
                n >= h * pow2(54),
                h > 0,
        ;
        if e > 972 {
            lemma_pow2_strictly_increases(972, e as nat);
        }
        lemma_pow2_adds(52, 972);
        let p = pow2(e as nat);
        assert(m * p >= pow2(52) * pow2(972)) by (nonlinear_arith)
            requires
                m >= pow2(52),
                p >= pow2(972),
        ;
    } else {
        assert(is_last_place(n, d, 971));
        lemma_last_place_is(n, d, 971);
        lemma_infinite_integer(c);
        let dd = d * pow2(971);
        assert(dd == 2 * h) by (nonlinear_arith)
            requires
                dd == d * pow2(971),
                pow2(971) == p970 * 2,
                h == d * p970,
        ;
        assert(dd * pow2(53) == h * pow2(54)) by (nonlinear_arith)
            requires
                dd == 2 * h,
                pow2(54) == 2 * pow2(53),
        ;
        lemma_fundamental_div_mod(n as int, dd as int);
        let q = n / dd;
        let r = n % dd;
        assert(q < pow2(53)) by (nonlinear_arith)
            requires
                n == dd * q + r,
                r >= 0,
                n < dd * pow2(53),
                dd > 0,
        ;
        let top = 0x20000000000000nat - 1;
        if q == top {
            assert(n >= h * (pow2(54) - 1) <==> r >= h) by (nonlinear_arith)
                requires
                    n == dd * q + r,
                    dd == 2 * h,
                    q == top,
                    2 * top == pow2(54) - 2,
            ;
        } else {
            assert(n < h * (pow2(54) - 1)) by (nonlinear_arith)
                requires
                    n == dd * q + r,
                    r < dd,
                    dd == 2 * h,
                    q + 1 <= top,
                    2 * top == pow2(54) - 2,
                    h > 0,
            ;
        }
        assert(m >= pow2(53) <==> n >= h * (pow2(54) - 1));
        let p = pow2(971);
        assert(m * p >= pow2(1024) <==> m >= pow2(53)) by (nonlinear_arith)
            requires
                pow2(1024) == p * pow2(53),
                p > 0,
        ;
    }
}

proof fn lemma_infinite_integer(c: Binary)
    requires
        c.exponent >= 0,
    ensures
        c.is_infinite() <==> c.mantissa * pow2(c.exponent as nat) >= pow2(1024),
{
    let p = pow2(1024);
    let one = c.den();
    assert(one * p == p) by (nonlinear_arith)
        requires
            one == 1,
    ;
}

/// A number below `2^1023` rounds to a finite one.
pub(crate) proof fn lemma_finite(c: Binary)
    requires
        c.mantissa <= pow2(53),
        -1074 <= c.exponent <= 970,
    ensures
        !c.is_infinite(),
{
    let e = c.exponent;
    let m = c.mantissa;
    lemma_pow2_adds(53, 971);
    lemma_pow2_pos(1024);
    lemma_pow2_pos(53);
    if e >= 0 {
        lemma_infinite_integer(c);
        lemma_pow2_strictly_increases(e as nat, 971);
        let p = pow2(e as nat);
        assert(m * p < pow2(53) * pow2(971)) by (nonlinear_arith)
            requires
                m <= pow2(53),
                p < pow2(971),
                pow2(53) > 0,
        ;
    } else {
        lemma_pow2_pos((-e) as nat);
        lemma_pow2_strictly_increases(53, 1024);
        let p = pow2((-e) as nat);
        assert(m < (1 * p) * pow2(1024)) by (nonlinear_arith)
            requires
                m < pow2(1024),
                p >= 1,
        ;
    }
}

proof fn lemma_nearest_whole(k: nat, d: nat)
    requires
        d > 0,
    ensures
        nearest(k * d, d) == k,
{
    lemma_fundamental_div_mod_converse((k * d) as int, d as int, k as int, 0);
}

/// A whole number whose bits, but for zeros at the end, are at most 53 is not
/// changed by rounding.
pub(crate) proof fn lemma_round_whole(bits: nat, shift: nat, d: nat)
    requires
        d > 0,
        bits < pow2(53),
    ensures
        ({
            let whole = bits * pow2(shift);
            let rounded = round(whole * d, d);
            &&& rounded.den() > 0
            &&& rounded.num() == whole * rounded.den()
            &&& rounded.floor() == whole
        }),
{
    let q = pow2(shift);
    let whole = bits * q;
    let n = whole * d;
    let top = pow2(53);
    lemma_pow2_adds(53, shift);
    lemma_pow2_pos(shift);
    assert(n < d * (top * q)) by (nonlinear_arith)
        requires
            n == (bits * q) * d,
            bits < top,
            q > 0,
            d > 0,
    ;
    assert(below(n, d, 53 + shift as int));
    lemma_round_upper(n, d, 53 + shift as int);
    let rounded = round(n, d);
    let e = rounded.exponent;
    if e >= 0 {
        let a = pow2(e as nat);
        let b = pow2((shift - e) as nat);
        lemma_pow2_adds(e as nat, (shift - e) as nat);
        lemma_pow2_pos(e as nat);
        let k = bits * b;
        assert(whole == k * a && n == k * (d * a) && d * a > 0) by (nonlinear_arith)
            requires
                whole == bits * q,
                n == whole * d,
                q == a * b,
                k == bits * b,
                a > 0,
                d > 0,
        ;
        lemma_nearest_whole(k, d * a);
        assert(rounded.num() == whole);
        assert(rounded.den() == 1);
    } else {
        let a = pow2((-e) as nat);
        lemma_pow2_pos((-e) as nat);
        assert(n * a == (whole * a) * d) by (nonlinear_arith)
            requires
                n == whole * d,
        ;
        lemma_nearest_whole(whole * a, d);
        assert(rounded.num() == whole * a);
        assert(1 * a == a);
        assert(rounded.den() == a);
        lemma_fundamental_div_mod_converse((whole * a) as int, a as int, whole as int, 0);
    }
}

/// `mantissa * 2^exponent`, as a fraction.
pub proof fn law_binary(c: Binary)
    ensures
        c.exponent >= 0 ==> c.num() == c.mantissa * pow2(c.exponent as nat) && c.den() == 1,
        c.exponent < 0 ==> c.num() == c.mantissa && c.den() == pow2((-c.exponent) as nat),
{
}

/// How far apart two numbers are.
pub open spec fn gap(a: int, b: int) -> int {
    if a >= b {
        a - b
    } else {
        b - a
    }
}

/// How far `c` is from `n / d`, times both denominators.
pub open spec fn distance(n: nat, d: nat, c: Binary) -> int {
    gap((n * c.den()) as int, (c.num() * d) as int)
}

proof fn lemma_gap_scale(a: int, b: int, c: int)
    requires
        c >= 0,
    ensures
        gap(a * c, b * c) == gap(a, b) * c,
{
    assert(a >= b ==> a * c >= b * c && (a - b) * c == a * c - b * c) by (nonlinear_arith)
        requires
            c >= 0,
    ;
    assert(a <= b ==> a * c <= b * c && (b - a) * c == b * c - a * c) by (nonlinear_arith)
        requires
            c >= 0,
    ;
}

/// No integer is closer to `n / d` than the nearest, and of two that are as close
/// the nearest is the even one.
proof fn lemma_nearest_closest(n: nat, d: nat, j: int)
    requires
        d > 0,
    ensures
        gap(n as int, (nearest(n, d) * d) as int) <= gap(n as int, j * d),
        gap(n as int, (nearest(n, d) * d) as int) == gap(n as int, j * d) && j != nearest(n, d) ==> nearest(
            n,
            d,
        ) % 2 == 0,
{
    let q = (n / d) as int;
    let r = (n % d) as int;
    let di = d as int;
    lemma_fundamental_div_mod(n as int, d as int);
    assert(n == q * di + r) by (nonlinear_arith)
        requires
            n == di * q + r,
    ;
    assert((q + 1) * di == q * di + di) by (nonlinear_arith);
    if j <= q {
        assert(j * di <= q * di && (j < q ==> j * di + di <= q * di)) by (nonlinear_arith)
            requires
                j <= q,
                di > 0,
        ;
    } else {
        assert(j * di >= (q + 1) * di && (j > q + 1 ==> j * di >= (q + 1) * di + di))
            by (nonlinear_arith)
            requires
                j >= q + 1,
                di > 0,
        ;
    }
}

/// In units of `2^e`, `c` is the integer `c.mantissa * 2^(c.exponent - e)`.
proof fn lemma_distance_above(n: nat, d: nat, c: Binary, e: int)
    requires
        c.exponent >= e,
    ensures
        gap(
            scaled_num(n, e) as int,
            ((c.mantissa * pow2((c.exponent - e) as nat)) * scaled_den(d, e)) as int,
        ) * c.den() == distance(n, d, c) * scaled_num(1, e),
{
    let f = c.exponent;
    let m = c.mantissa as int;
    let t = pow2((f - e) as nat) as int;
    let ni = n as int;
    let di = d as int;
    let near = gap(
        scaled_num(n, e) as int,
        ((c.mantissa * pow2((c.exponent - e) as nat)) * scaled_den(d, e)) as int,
    );
    if e >= 0 {
        let a = pow2(e as nat) as int;
        lemma_pow2_adds(e as nat, (f - e) as nat);
        assert((m * t) * (di * a) == (m * (a * t)) * di) by (nonlinear_arith);
        let g = gap(ni, (m * (a * t)) * di);
        assert(near == g);
        assert(c.den() == 1 && n * 1 == n);
        assert(distance(n, d, c) == g);
        assert(scaled_num(1, e) == 1);
    } else if f >= 0 {
        let a = pow2((-e) as nat) as int;
        let b = pow2(f as nat) as int;
        lemma_pow2_adds(f as nat, (-e) as nat);
        assert((f as nat + (-e) as nat) as nat == (f - e) as nat);
        assert(t == b * a);
        let g = gap(ni, (m * b) * di);
        lemma_gap_scale(ni, (m * b) * di, a);
        assert((m * (b * a)) * di == ((m * b) * di) * a) by (nonlinear_arith);
        assert(near == g * a);
        assert(c.den() == 1 && n * 1 == n);
        assert(distance(n, d, c) == g);
        assert(scaled_num(1, e) == a);
        assert((g * a) * 1 == g * a);
    } else {
        let a = pow2((-e) as nat) as int;
        let b = pow2((-f) as nat) as int;
        lemma_pow2_adds((-f) as nat, (f - e) as nat);
        assert((-f) as nat + (f - e) as nat == (-e) as nat);
        assert(a == b * t);
        let g = gap(ni * b, m * di);
        lemma_gap_scale(ni * b, m * di, t);
        assert(ni * (b * t) == (ni * b) * t) by (nonlinear_arith);
        assert((m * t) * di == (m * di) * t) by (nonlinear_arith);
        assert(near == g * t);
        assert(c.den() == b && scaled_num(1, e) == a);
        assert(distance(n, d, c) == g);
        assert((g * t) * b == g * (b * t)) by (nonlinear_arith);
    }
}

/// The same below: in units of `2^e`, `c` is `c.mantissa / 2^(e - c.exponent)`.
proof fn lemma_distance_below(n: nat, d: nat, c: Binary, e: int)
    requires
        c.exponent < e,
    ensures
        gap(
            (scaled_num(n, e) * pow2((e - c.exponent) as nat)) as int,
            (c.mantissa * scaled_den(d, e)) as int,
        ) * c.den() == (distance(n, d, c) * scaled_num(1, e)) * pow2((e - c.exponent) as nat),
{
    let f = c.exponent;
    let m = c.mantissa as int;
    let t = pow2((e - f) as nat) as int;
    let ni = n as int;
    let di = d as int;
    let near = gap(
        (scaled_num(n, e) * pow2((e - c.exponent) as nat)) as int,
        (c.mantissa * scaled_den(d, e)) as int,
    );
    if f >= 0 {
        let a = pow2(e as nat) as int;
        let b = pow2(f as nat) as int;
        lemma_pow2_adds(f as nat, (e - f) as nat);
        assert(f as nat + (e - f) as nat == e as nat);
        assert(a == b * t);
        let g = gap(ni, (m * b) * di);
        lemma_gap_scale(ni, (m * b) * di, t);
        assert(m * (di * (b * t)) == ((m * b) * di) * t) by (nonlinear_arith);
        assert(near == g * t);
        assert(c.den() == 1 && n * 1 == n && scaled_num(1, e) == 1);
        assert(distance(n, d, c) == g);
        assert((g * t) * 1 == (g * 1) * t) by (nonlinear_arith);
    } else if e >= 0 {
        let a = pow2(e as nat) as int;
        let b = pow2((-f) as nat) as int;
        lemma_pow2_adds(e as nat, (-f) as nat);
        assert(e as nat + (-f) as nat == (e - f) as nat);
        assert(t == a * b);
        let g = gap(ni * b, m * di);
        lemma_gap_scale(ni * b, m * di, a);
        assert(ni * (a * b) == (ni * b) * a) by (nonlinear_arith);
        assert(m * (di * a) == (m * di) * a) by (nonlinear_arith);
        assert(near == g * a);
        assert(c.den() == b && scaled_num(1, e) == 1);
        assert(distance(n, d, c) == g);
        assert((g * a) * b == (g * 1) * (a * b)) by (nonlinear_arith);
    } else {
        let a = pow2((-e) as nat) as int;
        let b = pow2((-f) as nat) as int;
        lemma_pow2_adds((-e) as nat, (e - f) as nat);
        assert((-e) as nat + (e - f) as nat == (-f) as nat);
        assert(b == a * t);
        let g = gap(ni * b, m * di);
        assert((ni * a) * t == ni * (a * t)) by (nonlinear_arith);
        assert(near == g);
        assert(c.den() == b && scaled_num(1, e) == a);
        assert(distance(n, d, c) == g);
        assert(g * (a * t) == (g * a) * t) by (nonlinear_arith);
    }
}

proof fn lemma_den_pos(c: Binary)
    ensures
        c.den() > 0,
{
    if c.exponent < 0 {
        lemma_pow2_pos((-c.exponent) as nat);
        assert(1 * pow2((-c.exponent) as nat) == pow2((-c.exponent) as nat));
    }
}

/// Rounding gives a double precision number, and no other is closer to `n / d`; of
/// two that are as close it gives that with the even mantissa.
pub proof fn law_round_is_closest(n: nat, d: nat, other: Binary)
    requires
        d > 0,
        other.mantissa <= pow2(53),
        other.exponent >= -1074,
    ensures
        ({
            let rounded = round(n, d);
            let here = distance(n, d, rounded) * other.den();
            let there = distance(n, d, other) * rounded.den();
            &&& rounded.mantissa <= pow2(53)
            &&& rounded.exponent >= -1074
            &&& here <= there
            &&& here == there && rounded.num() * other.den() != other.num() * rounded.den()
                ==> rounded.mantissa % 2 == 0
        }),
{
    let rounded = round(n, d);
    let e = rounded.exponent;
    let k = rounded.mantissa;
    let f = other.exponent;
    let m = other.mantissa as int;
    let big = scaled_num(n, e) as int;
    let unit = scaled_den(d, e) as int;
    lemma_last_place(n, d);
    lemma_scaled(n, d, e, 53);
    lemma_scaled_den_pos(d, e);
    lemma_nearest_at_most(scaled_num(n, e), scaled_den(d, e), pow2(53));
    lemma_den_pos(rounded);
    lemma_den_pos(other);
    lemma2_to64();
    let rd = rounded.den() as int;
    let od = other.den() as int;
    // The rounded number itself, in units of its last place.
    lemma_distance_above(n, d, rounded, e);
    let g = gap(big, k * unit);
    let own = distance(n, d, rounded);
    assert(k * pow2(0) == k) by (nonlinear_arith)
        requires
            pow2(0) == 1,
    ;
    assert(own == g) by (nonlinear_arith)
        requires
            g * rd == own * rd,
            rd > 0,
    ;
    let far = distance(n, d, other);
    if f >= e {
        let j = m * pow2((f - e) as nat);
        lemma_distance_above(n, d, other, e);
        lemma_nearest_closest(scaled_num(n, e), scaled_den(d, e), j);
        let h = gap(big, j * unit);
        assert(h * od == far * rd);
        assert(g * od <= h * od && (g * od == h * od ==> g == h)) by (nonlinear_arith)
            requires
                g <= h,
                od > 0,
        ;
        if g == h && j == k {
            lemma_same_number(rounded, other);
        }
    } else {
        let t = pow2((e - f) as nat) as int;
        lemma_distance_below(n, d, other, e);
        let h = gap(big * t, m * unit);
        assert(h * od == (far * rd) * t);
        lemma_scaled(n, d, e, 52);
        let half = pow2(52) as int;
        lemma2_to64_rest();
        lemma_nearest_closest(scaled_num(n, e), scaled_den(d, e), half);
        assert(big >= unit * half);
        lemma_pow2_pos((e - f) as nat);
        lemma_pow2_unfold((e - f) as nat);
        lemma_pow2_pos((e - f - 1) as nat);
        assert(t >= 2);
        let l = gap(big, half * unit);
        assert(unit * half == half * unit) by (nonlinear_arith);
        assert(l == big - half * unit);
        assert(big * t - m * unit >= l * t && l * t >= g * t) by (nonlinear_arith)
            requires
                l == big - half * unit,
                l >= g,
                t >= 2,
                m <= 2 * half,
                unit > 0,
                half > 0,
        ;
        assert(l * t >= 0) by (nonlinear_arith)
            requires
                l >= 0,
                t >= 2,
        ;
        assert(h >= l * t);
        assert(g * od <= far * rd) by (nonlinear_arith)
            requires
                h * od == (far * rd) * t,
                h >= g * t,
                t >= 2,
                od > 0,
        ;
        if g * od == far * rd {
            assert(h == g * t) by (nonlinear_arith)
                requires
                    h * od == (far * rd) * t,
                    g * od == far * rd,
                    od > 0,
            ;
            assert(l == g) by (nonlinear_arith)
                requires
                    l * t <= g * t,
                    l >= g,
                    t >= 2,
            ;
            assert(half % 2 == 0);
        }
    }
}

/// Two ways to write the same number.
proof fn lemma_same_number(a: Binary, b: Binary)
    requires
        b.exponent >= a.exponent,
        a.mantissa == b.mantissa * pow2((b.exponent - a.exponent) as nat),
    ensures
        a.num() * b.den() == b.num() * a.den(),
{
    let e = a.exponent;
    let f = b.exponent;
    let m = b.mantissa;
    let t = pow2((f - e) as nat);
    if e >= 0 {
        lemma_pow2_adds(e as nat, (f - e) as nat);
        let x = pow2(e as nat);
        assert((m * t) * x == m * (x * t)) by (nonlinear_arith);
    } else if f >= 0 {
        lemma_pow2_adds(f as nat, (-e) as nat);
        assert((f as nat + (-e) as nat) as nat == (f - e) as nat);
        let x = pow2(f as nat);
        let y = pow2((-e) as nat);
        assert((m * (x * y)) * 1 == (m * x) * (1 * y)) by (nonlinear_arith);
    } else {
        lemma_pow2_adds((-f) as nat, (f - e) as nat);
        assert((-f) as nat + (f - e) as nat == (-e) as nat);
        let x = pow2((-f) as nat);
        assert((m * t) * (1 * x) == m * (1 * (x * t))) by (nonlinear_arith);
    }
}

} // verus!
