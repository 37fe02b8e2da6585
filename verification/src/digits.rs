//! Numbers of any length as sequences of decimal digits, most significant first.
use vstd::arithmetic::power::{lemma_pow0, lemma_pow1, lemma_pow_adds, pow};
use vstd::prelude::*;

verus! {

/// `10^k`.
pub open spec fn pow10(k: nat) -> nat
    decreases k,
{
    if k == 0 {
        1
    } else {
        10 * pow10((k - 1) as nat)
    }
}

/// Every element is a decimal digit.
pub open spec fn are_digits(s: Seq<u8>) -> bool {
    forall|i: int| 0 <= i < s.len() ==> #[trigger] s[i] < 10
}

/// The number that the digits denote.
pub open spec fn value(s: Seq<u8>) -> nat
    decreases s.len(),
{
    if s.len() == 0 {
        0
    } else {
        10 * value(s.drop_last()) + s.last() as nat
    }
}

pub(crate) proof fn lemma_pow10_is_power(k: nat)
    ensures
        pow10(k) == pow(10, k),
    decreases k,
{
    lemma_pow0(10);
    if k > 0 {
        lemma_pow10_is_power((k - 1) as nat);
        lemma_pow1(10);
        lemma_pow_adds(10, 1, (k - 1) as nat);
    }
}

pub(crate) proof fn lemma_pow10_pos(k: nat)
    ensures
        pow10(k) > 0,
    decreases k,
{
    if k > 0 {
        lemma_pow10_pos((k - 1) as nat);
    }
}

pub(crate) proof fn lemma_pow10_adds(a: nat, b: nat)
    ensures
        pow10(a + b) == pow10(a) * pow10(b),
    decreases b,
{
    if b == 0 {
        assert(pow10(a) * 1 == pow10(a));
    } else {
        lemma_pow10_adds(a, (b - 1) as nat);
        assert(pow10((a + b) as nat) == 10 * pow10((a + b - 1) as nat));
        let p = pow10(a);
        let q = pow10((b - 1) as nat);
        assert(10 * (p * q) == p * (10 * q)) by (nonlinear_arith);
    }
}

pub(crate) proof fn lemma_pow10_grows(a: nat, b: nat)
    requires
        a <= b,
    ensures
        pow10(a) <= pow10(b),
    decreases b,
{
    if a < b {
        lemma_pow10_grows(a, (b - 1) as nat);
    }
}

/// A number of `k` digits is below `10^k`.
pub(crate) proof fn lemma_value_bound(s: Seq<u8>)
    requires
        are_digits(s),
    ensures
        value(s) < pow10(s.len()),
    decreases s.len(),
{
    if s.len() > 0 {
        assert(s.last() < 10);
        lemma_value_bound(s.drop_last());
    }
}

/// The digits of one number after those of another.
pub(crate) proof fn lemma_value_concat(a: Seq<u8>, b: Seq<u8>)
    ensures
        value(a + b) == value(a) * pow10(b.len()) + value(b),
    decreases b.len(),
{
    if b.len() == 0 {
        assert(a + b =~= a);
        assert(value(a) * 1 == value(a));
    } else {
        lemma_value_concat(a, b.drop_last());
        assert((a + b).drop_last() =~= a + b.drop_last());
        let v = value(a);
        let p = pow10((b.len() - 1) as nat);
        assert(10 * (v * p) == v * (10 * p)) by (nonlinear_arith);
    }
}

/// Zeros denote nothing.
pub(crate) proof fn lemma_value_zeros(s: Seq<u8>)
    requires
        forall|i: int| 0 <= i < s.len() ==> s[i] == 0,
    ensures
        value(s) == 0,
    decreases s.len(),
{
    if s.len() > 0 {
        lemma_value_zeros(s.drop_last());
    }
}

/// A first digit that is not zero makes the number at least `10^(length - 1)`.
pub(crate) proof fn lemma_value_leading(s: Seq<u8>)
    requires
        s.len() > 0,
        s[0] > 0,
    ensures
        value(s) >= pow10((s.len() - 1) as nat),
    decreases s.len(),
{
    if s.len() > 1 {
        lemma_value_leading(s.drop_last());
    } else {
        assert(value(s.drop_last()) == 0);
    }
}

/// Double a number in place; the digit that no longer fits is returned.
pub(crate) fn double(s: &mut Vec<u8>) -> (carry: u8)
    requires
        are_digits(old(s)@),
    ensures
        are_digits(final(s)@),
        final(s)@.len() == old(s)@.len(),
        carry <= 1,
        2 * value(old(s)@) == carry * pow10(old(s)@.len()) + value(final(s)@),
{
    let ghost before = s@;
    let len = s.len();
    let mut i: usize = len;
    let mut carry: u8 = 0;
    assert(before.skip(len as int) =~= Seq::<u8>::empty());
    assert(s@.skip(len as int) =~= Seq::<u8>::empty());
    while i > 0
        invariant
            i <= len,
            len == before.len(),
            s@.len() == len,
            are_digits(before),
            are_digits(s@),
            forall|j: int| 0 <= j < i ==> s@[j] == before[j],
            carry <= 1,
            2 * value(before.skip(i as int)) == carry * pow10((len - i) as nat) + value(
                s@.skip(i as int),
            ),
        decreases i,
    {
        let ghost earlier = s@;
        let ghost i0 = i as int;
        let ghost c0 = carry as nat;
        i = i - 1;
        let digit: u8 = s[i];
        let twice: u8 = 2 * digit + carry;
        let kept: u8 = if twice >= 10 {
            twice - 10
        } else {
            twice
        };
        carry = if twice >= 10 {
            1
        } else {
            0
        };
        s.set(i, kept);
        proof {
            let k = (len - i0) as nat;
            let p = pow10(k);
            assert(before.skip(i as int) =~= seq![digit] + before.skip(i0));
            assert(s@.skip(i as int) =~= seq![kept] + earlier.skip(i0));
            lemma_value_concat(seq![digit], before.skip(i0));
            lemma_value_concat(seq![kept], earlier.skip(i0));
            lemma_value_single(digit);
            lemma_value_single(kept);
            let c1 = carry as nat;
            let d1 = digit as nat;
            let k1 = kept as nat;
            assert(2 * (d1 * p) + c0 * p == c1 * (10 * p) + k1 * p) by (nonlinear_arith)
                requires
                    2 * d1 + c0 == 10 * c1 + k1,
            ;
        }
    }
    assert(before.skip(0) =~= before);
    assert(s@.skip(0) =~= s@);
    carry
}

proof fn lemma_value_single(d: u8)
    ensures
        value(seq![d]) == d,
{
    assert(seq![d].drop_last() =~= Seq::<u8>::empty());
    assert(value(Seq::<u8>::empty()) == 0);
}

/// Halve a number in place, rounding down.
pub(crate) fn halve(s: &mut Vec<u8>)
    requires
        are_digits(old(s)@),
    ensures
        are_digits(final(s)@),
        final(s)@.len() == old(s)@.len(),
        value(final(s)@) == value(old(s)@) / 2,
{
    let ghost before = s@;
    let len = s.len();
    let mut i: usize = 0;
    let mut rest: u8 = 0;
    while i < len
        invariant
            i <= len,
            len == before.len(),
            s@.len() == len,
            are_digits(before),
            are_digits(s@),
            forall|j: int| i <= j < len ==> s@[j] == before[j],
            rest <= 1,
            value(before.take(i as int)) == 2 * value(s@.take(i as int)) + rest,
        decreases len - i,
    {
        let ghost earlier = s@;
        let whole: u8 = 10 * rest + s[i];
        let half: u8 = whole / 2;
        rest = whole % 2;
        s.set(i, half);
        proof {
            assert(before.take(i + 1).drop_last() =~= before.take(i as int));
            assert(s@.take(i + 1).drop_last() =~= earlier.take(i as int));
        }
        i = i + 1;
    }
    assert(before.take(len as int) =~= before);
    assert(s@.take(len as int) =~= s@);
}

/// The number that the digits denote, or `cap` where it is larger.
pub(crate) fn capped_value(s: &Vec<u8>, cap: u64) -> (v: u64)
    requires
        are_digits(s@),
        cap <= 0x100000000000000,
    ensures
        v == if value(s@) <= cap {
            value(s@)
        } else {
            cap as nat
        },
{
    let mut v: u64 = 0;
    let mut i: usize = 0;
    while i < s.len()
        invariant
            i <= s.len(),
            are_digits(s@),
            cap <= 0x100000000000000,
            v == if value(s@.take(i as int)) <= cap {
                value(s@.take(i as int))
            } else {
                cap as nat
            },
        decreases s.len() - i,
    {
        assert(s@.take(i + 1).drop_last() =~= s@.take(i as int));
        let next: u64 = 10 * v + s[i] as u64;
        v = if next <= cap {
            next
        } else {
            cap
        };
        i = i + 1;
    }
    assert(s@.take(s.len() as int) =~= s@);
    v
}

/// Whether every digit is zero.
pub(crate) fn is_zero(s: &Vec<u8>) -> (zero: bool)
    requires
        are_digits(s@),
    ensures
        zero == (value(s@) == 0),
{
    let mut i: usize = 0;
    while i < s.len()
        invariant
            i <= s.len(),
            forall|j: int| 0 <= j < i ==> s@[j] == 0,
        decreases s.len() - i,
    {
        if s[i] != 0 {
            proof {
                lemma_value_nonzero(s@, i as int);
            }
            return false;
        }
        i = i + 1;
    }
    proof {
        lemma_value_zeros(s@);
    }
    true
}

proof fn lemma_value_nonzero(s: Seq<u8>, i: int)
    requires
        0 <= i < s.len(),
        s[i] != 0,
    ensures
        value(s) > 0,
    decreases s.len(),
{
    if i < s.len() - 1 {
        lemma_value_nonzero(s.drop_last(), i);
    }
}

} // verus!
