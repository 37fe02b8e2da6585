//! Kubernetes-style quantities: CPU and memory limits in text.
use crate::cores::{
    cores_quota, decimal_quota, lemma_decimal_extreme, lemma_whole_quota, quota_of_decimal, PERIOD_MICROS,
};
use crate::digits::{are_digits, lemma_pow10_is_power, lemma_value_bound, pow10, value};
use crate::text::{
    all_digits, chars_of, decimal_text, digit_of, digits_value, is_digit, law_decimal_read_back,
    lemma_decimal_digits, parse_unsigned, unsigned64_value, unsigned_value,
};
use vstd::arithmetic::power::pow;
use vstd::arithmetic::power2::pow2;
use vstd::prelude::*;

verus! {

/// The number `digits * 10^exponent`.
pub struct Decimal {
    pub digits: nat,
    pub exponent: int,
}

/// The position of the first `a` or `b`, or the length where there is none.
pub open spec fn first_of(s: Seq<char>, a: char, b: char) -> nat
    decreases s.len(),
{
    if s.len() == 0 || s[0] == a || s[0] == b {
        0
    } else {
        1 + first_of(s.skip(1), a, b)
    }
}

/// The value of a decimal exponent: an optional sign, then one or more digits.
pub open spec fn exponent_value(s: Seq<char>) -> Option<int> {
    let signed = s.len() > 0 && (s[0] == '+' || s[0] == '-');
    let digits = if signed {
        s.skip(1)
    } else {
        s
    };
    if digits.len() == 0 || !all_digits(digits) {
        None
    } else if signed && s[0] == '-' {
        Some(-digits_value(digits))
    } else {
        Some(digits_value(digits) as int)
    }
}

/// The value of an unsigned decimal number: digits with at most one point among
/// them, before, behind or between, then `e` or `E` and an exponent, if any.
pub open spec fn decimal_value(s: Seq<char>) -> Option<Decimal> {
    let mark = first_of(s, 'e', 'E') as int;
    let exponent = if mark < s.len() {
        exponent_value(s.skip(mark + 1))
    } else {
        Some(0)
    };
    let point = first_of(s.take(mark), '.', '.') as int;
    let whole = s.take(point);
    let fraction = if point < mark {
        s.subrange(point + 1, mark)
    } else {
        Seq::empty()
    };
    let digits = whole + fraction;
    if digits.len() > 0 && all_digits(digits) && exponent is Some {
        Some(
            Decimal { digits: digits_value(digits), exponent: exponent->Some_0 - fraction.len() },
        )
    } else {
        None
    }
}

/// The quota for a number of cores, an optional `+` before it.
///
/// Text that is no number has no quota, nor have negative numbers, infinities and
/// what is not a number by name.
pub open spec fn cores_micros(s: Seq<char>) -> Option<u64> {
    let number = if s.len() > 0 && s[0] == '+' {
        s.skip(1)
    } else {
        s
    };
    match decimal_value(number) {
        Some(cores) => decimal_quota(cores.digits, cores.exponent),
        None => None,
    }
}

/// The quota that a CPU quantity stands for, in microseconds per period of 100 ms:
/// thousandths of a core with the suffix `m`, else cores. A quota of zero, and one
/// that does not fit 64 bits in thousandths, count as no quota.
pub open spec fn cpu_micros(s: Seq<char>) -> Option<u64> {
    if s.len() > 0 && s.last() == 'm' {
        match unsigned64_value(s.drop_last()) {
            Some(millis) => if 0 < millis * 100 <= u64::MAX {
                Some((millis * 100) as u64)
            } else {
                None
            },
            None => None,
        }
    } else {
        cores_micros(s)
    }
}

/// The length of the unit suffix of a memory quantity, and the bytes in that unit.
pub open spec fn memory_unit(s: Seq<char>) -> (nat, nat) {
    let last = if s.len() > 0 {
        s.last()
    } else {
        ' '
    };
    let before = if s.len() > 1 {
        s[s.len() - 2]
    } else {
        ' '
    };
    if last == 'i' && before == 'T' {
        (2, 0x100_0000_0000)
    } else if last == 'i' && before == 'G' {
        (2, 0x4000_0000)
    } else if last == 'i' && before == 'M' {
        (2, 0x10_0000)
    } else if last == 'i' && before == 'K' {
        (2, 0x400)
    } else if last == 'T' {
        (1, 1_000_000_000_000)
    } else if last == 'G' {
        (1, 1_000_000_000)
    } else if last == 'M' {
        (1, 1_000_000)
    } else if last == 'k' {
        (1, 1_000)
    } else {
        (0, 1)
    }
}

/// The bytes that a memory quantity stands for: an unsigned integer in its unit,
/// where both the integer and the product fit 64 bits.
pub open spec fn memory_bytes(s: Seq<char>) -> Option<u64> {
    let (suffix, unit) = memory_unit(s);
    match unsigned64_value(s.take(s.len() - suffix)) {
        Some(n) => if n * unit <= u64::MAX {
            Some((n * unit) as u64)
        } else {
            None
        },
        None => None,
    }
}

proof fn lemma_first_of(s: Seq<char>, a: char, b: char, i: int)
    requires
        0 <= i <= s.len(),
        forall|j: int| 0 <= j < i ==> s[j] != a && s[j] != b,
        i < s.len() ==> s[i] == a || s[i] == b,
    ensures
        first_of(s, a, b) == i,
    decreases s.len(),
{
    if i > 0 {
        assert(s[0] != a && s[0] != b);
        lemma_first_of(s.skip(1), a, b, i - 1);
    }
}

/// Find the first `a` or `b` between two positions; `to` where there is none.
fn find(chars: &Vec<char>, from: usize, to: usize, a: char, b: char) -> (at: usize)
    requires
        from <= to <= chars@.len(),
    ensures
        from <= at <= to,
        at - from == first_of(chars@.subrange(from as int, to as int), a, b),
{
    let ghost s = chars@.subrange(from as int, to as int);
    let mut i: usize = from;
    while i < to && chars[i] != a && chars[i] != b
        invariant
            from <= i <= to <= chars@.len(),
            s == chars@.subrange(from as int, to as int),
            forall|j: int| 0 <= j < i - from ==> #[trigger] s[j] != a && s[j] != b,
        decreases to - i,
    {
        assert(s[i - from] == chars[i as int]);
        i = i + 1;
    }
    proof {
        if i < to {
            assert(s[i - from] == chars[i as int]);
        }
        lemma_first_of(s, a, b, i - from);
    }
    i
}

/// The digits that digit characters stand for.
spec fn digit_values(s: Seq<char>) -> Seq<u8> {
    s.map_values(|c: char| (c as int - '0' as int) as u8)
}

proof fn lemma_digit_values(s: Seq<char>)
    requires
        all_digits(s),
    ensures
        are_digits(digit_values(s)),
        value(digit_values(s)) == digits_value(s),
    decreases s.len(),
{
    let d = digit_values(s);
    assert forall|i: int| 0 <= i < d.len() implies #[trigger] d[i] < 10 by {
        assert(is_digit(s[i]));
    }
    if s.len() > 0 {
        assert(is_digit(s.last()));
        lemma_digit_values(s.drop_last());
        assert(d.drop_last() =~= digit_values(s.drop_last()));
    }
}

/// Append the digits between two positions; false where a character is none.
fn collect(chars: &Vec<char>, from: usize, to: usize, digits: &mut Vec<u8>) -> (ok: bool)
    requires
        from <= to <= chars@.len(),
    ensures
        ok == all_digits(chars@.subrange(from as int, to as int)),
        ok ==> final(digits)@ == old(digits)@ + digit_values(
            chars@.subrange(from as int, to as int),
        ),
{
    let ghost s = chars@.subrange(from as int, to as int);
    let ghost before = digits@;
    let mut i: usize = from;
    while i < to
        invariant
            from <= i <= to <= chars@.len(),
            s == chars@.subrange(from as int, to as int),
            forall|j: int| 0 <= j < i - from ==> is_digit(#[trigger] s[j]),
            digits@ == before + digit_values(s.take(i - from)),
        decreases to - i,
    {
        let c = chars[i];
        assert(s[i - from] == c);
        if !(c >= '0' && c <= '9') {
            return false;
        }
        digits.push(digit_of(c));
        assert(digit_values(s.take(i + 1 - from)) =~= digit_values(s.take(i - from)).push(
            (c as int - '0' as int) as u8,
        ));
        i = i + 1;
    }
    assert(s.take(to - from) =~= s);
    true
}

/// An exponent of more than this is as good as this.
const FAR: i128 = 0x1_0000_0000_0000_0000_0000;

/// The exponent, or the far end of the range on its side of zero.
spec fn near(exponent: int) -> int {
    if exponent > FAR {
        FAR as int
    } else if exponent < -FAR {
        -FAR
    } else {
        exponent
    }
}

/// Read an exponent from a position on.
fn parse_exponent(chars: &Vec<char>, from: usize) -> (exponent: Option<i128>)
    requires
        from <= chars@.len(),
    ensures
        exponent is Some <==> exponent_value(chars@.skip(from as int)) is Some,
        exponent matches Some(e) ==> e == near(
            exponent_value(chars@.skip(from as int))->Some_0,
        ),
{
    let ghost s = chars@.skip(from as int);
    let end: usize = chars.len();
    let signed: bool = from < end && (chars[from] == '+' || chars[from] == '-');
    let negative: bool = signed && chars[from] == '-';
    let start: usize = if signed {
        from + 1
    } else {
        from
    };
    assert(from < end ==> s[0] == chars[from as int]);
    if start == end {
        return None;
    }
    let ghost digits = chars@.skip(start as int);
    assert(signed ==> s.skip(1) =~= digits);
    let mut size: i128 = 0;
    let mut i: usize = start;
    assert(digits.take(0) =~= Seq::<char>::empty());
    while i < end
        invariant
            start <= i <= end,
            end == chars@.len(),
            from <= end,
            s == chars@.skip(from as int),
            signed == (s.len() > 0 && (s[0] == '+' || s[0] == '-')),
            digits == if signed {
                s.skip(1)
            } else {
                s
            },
            digits == chars@.skip(start as int),
            all_digits(digits.take(i - start)),
            0 <= size <= FAR,
            size == near(digits_value(digits.take(i - start)) as int),
        decreases end - i,
    {
        let c = chars[i];
        assert(digits[i - start] == c);
        if !(c >= '0' && c <= '9') {
            return None;
        }
        let digit: u8 = digit_of(c);
        assert(digits.take(i + 1 - start).drop_last() =~= digits.take(i - start));
        let next: i128 = 10 * size + digit as i128;
        size = if next > FAR {
            FAR
        } else {
            next
        };
        i = i + 1;
    }
    assert(digits.take(end - start) =~= digits);
    if negative {
        Some(-size)
    } else {
        Some(size)
    }
}

/// Read an unsigned decimal number from a position on: its digits and its
/// exponent, the latter as far as it matters.
fn parse_decimal(chars: &Vec<char>, start: usize) -> (number: Option<(Vec<u8>, i128)>)
    requires
        start <= chars@.len(),
    ensures
        number is Some <==> decimal_value(chars@.skip(start as int)) is Some,
        number matches Some((digits, exponent)) ==> {
            let decimal = decimal_value(chars@.skip(start as int))->Some_0;
            &&& are_digits(digits@)
            &&& value(digits@) == decimal.digits
            &&& -2 * FAR <= exponent <= 2 * FAR
            &&& exponent == decimal.exponent || (exponent > 400 && decimal.exponent > 400) || (
            exponent + digits@.len() <= -7 && decimal.exponent + digits@.len() <= -7)
        },
{
    let end: usize = chars.len();
    let ghost s = chars@.skip(start as int);
    let mark: usize = find(chars, start, end, 'e', 'E');
    assert(chars@.subrange(start as int, end as int) =~= s);
    let ghost mark_at = (mark - start) as int;
    assert(chars@.subrange(start as int, mark as int) =~= s.take(mark_at));
    let point: usize = find(chars, start, mark, '.', '.');
    let ghost point_at = (point - start) as int;
    let from: usize = if point < mark {
        point + 1
    } else {
        mark
    };
    let ghost whole = s.take(point_at);
    let ghost fraction = if point_at < mark_at {
        s.subrange(point_at + 1, mark_at)
    } else {
        Seq::empty()
    };
    assert(chars@.subrange(start as int, point as int) =~= whole);
    assert(chars@.subrange(from as int, mark as int) =~= fraction);
    let ghost text = whole + fraction;
    proof {
        lemma_all_digits_concat(whole, fraction);
    }
    let mut digits: Vec<u8> = Vec::new();
    if !collect(chars, start, point, &mut digits) {
        return None;
    }
    if !collect(chars, from, mark, &mut digits) {
        return None;
    }
    assert(digits@ =~= digit_values(text));
    if digits.len() == 0 {
        return None;
    }
    let exponent: i128 = if mark < end {
        assert(s.skip(mark_at + 1) =~= chars@.skip(mark + 1));
        match parse_exponent(chars, mark + 1) {
            Some(e) => e,
            None => {
                return None;
            },
        }
    } else {
        0
    };
    proof {
        lemma_digit_values(text);
    }
    let places: usize = mark - from;
    Some((digits, exponent - places as i128))
}

proof fn lemma_all_digits_concat(a: Seq<char>, b: Seq<char>)
    ensures
        all_digits(a + b) <==> all_digits(a) && all_digits(b),
{
    let s = a + b;
    if all_digits(s) {
        assert forall|i: int| 0 <= i < a.len() implies is_digit(#[trigger] a[i]) by {
            assert(is_digit(s[i]));
        }
        assert forall|i: int| 0 <= i < b.len() implies is_digit(#[trigger] b[i]) by {
            assert(is_digit(s[a.len() + i]));
        }
    }
}

/// The quota for a number of cores.
fn parse_cores(chars: &Vec<char>) -> (quota: Option<u64>)
    ensures
        quota == cores_micros(chars@),
{
    let start: usize = if chars.len() > 0 && chars[0] == '+' {
        1
    } else {
        0
    };
    assert(chars@.skip(0) =~= chars@);
    match parse_decimal(chars, start) {
        Some((digits, exponent)) => {
            proof {
                let decimal = decimal_value(chars@.skip(start as int))->Some_0;
                lemma_value_bound(digits@);
                lemma_decimal_extreme(
                    decimal.digits,
                    digits@.len(),
                    decimal.exponent,
                    exponent as int,
                );
            }
            quota_of_decimal(&digits, exponent)
        },
        None => None,
    }
}

/// Parse a Kubernetes-style CPU quantity to scheduler quota microseconds (for a
/// period of 100 ms).
///
/// Examples: `"500m"` is 50000, `"2"` is 200000, `"0.5"` is 50000.
pub fn parse_cpu_to_microseconds(quantity: &str) -> (micros: Option<u64>)
    ensures
        micros == cpu_micros(quantity@),
{
    let chars = chars_of(quantity);
    let len: usize = chars.len();
    if len > 0 && chars[len - 1] == 'm' {
        assert(chars@.take(len - 1) =~= chars@.drop_last());
        match parse_unsigned(&chars, len - 1) {
            Some(millis) => match millis.checked_mul(100) {
                Some(micros) => if micros == 0 {
                    None
                } else {
                    Some(micros)
                },
                None => None,
            },
            None => None,
        }
    } else {
        parse_cores(&chars)
    }
}

/// Parse a Kubernetes-style memory quantity to bytes.
///
/// The units are `Ki`, `Mi`, `Gi`, `Ti` (binary) and `k`, `M`, `G`, `T` (decimal);
/// without one the quantity is in bytes.
pub fn parse_memory_to_bytes(quantity: &str) -> (bytes: Option<u64>)
    ensures
        bytes == memory_bytes(quantity@),
{
    let chars = chars_of(quantity);
    let len: usize = chars.len();
    let last: char = if len > 0 {
        chars[len - 1]
    } else {
        ' '
    };
    let before: char = if len > 1 {
        chars[len - 2]
    } else {
        ' '
    };
    let (suffix, unit): (usize, u64) = if last == 'i' && before == 'T' {
        (2, 0x100_0000_0000)
    } else if last == 'i' && before == 'G' {
        (2, 0x4000_0000)
    } else if last == 'i' && before == 'M' {
        (2, 0x10_0000)
    } else if last == 'i' && before == 'K' {
        (2, 0x400)
    } else if last == 'T' {
        (1, 1_000_000_000_000)
    } else if last == 'G' {
        (1, 1_000_000_000)
    } else if last == 'M' {
        (1, 1_000_000)
    } else if last == 'k' {
        (1, 1_000)
    } else {
        (0, 1)
    };
    match parse_unsigned(&chars, len - suffix) {
        Some(n) => n.checked_mul(unit),
        None => None,
    }
}

/// A whole number of cores gets exactly as many periods, where double precision
/// holds that quota and it fits 64 bits. The number of cores is `bits * 2^shift`.
pub proof fn law_whole_cores(bits: nat, shift: nat)
    requires
        bits > 0,
        bits * 3125 < pow2(53),
        bits * pow2(shift) * PERIOD_MICROS <= u64::MAX,
    ensures
        cpu_micros(decimal_text(bits * pow2(shift))) == Some(
            (bits * pow2(shift) * PERIOD_MICROS) as u64,
        ),
{
    let n = bits * pow2(shift);
    let s = decimal_text(n);
    law_decimal_read_back(n);
    lemma_decimal_digits(n);
    assert(is_digit(s[0]) && is_digit(s.last()));
    assert forall|j: int| 0 <= j < s.len() implies #[trigger] s[j] != 'e' && s[j] != 'E' && s[j]
        != '.' by {
        assert(is_digit(s[j]));
    }
    let end = s.len() as int;
    lemma_first_of(s, 'e', 'E', end);
    assert(s.take(end) =~= s);
    lemma_first_of(s, '.', '.', end);
    assert(s + Seq::<char>::empty() =~= s);
    assert(decimal_value(s) == Some(Decimal { digits: n, exponent: 0 }));
    assert(pow10(0) == 1);
    assert(n * 1 == n);
    lemma_whole_quota(bits, shift);
}

/// A number of thousandths of a core gets a hundred microseconds for each; none
/// for none, and none where the product does not fit 64 bits.
pub proof fn law_thousandths(n: nat)
    ensures
        cpu_micros(decimal_text(n).push('m')) == (if 0 < n * 100 <= u64::MAX {
            Some((n * 100) as u64)
        } else {
            None
        }),
{
    let s = decimal_text(n);
    law_decimal_read_back(n);
    lemma_decimal_digits(n);
    assert(is_digit(s[0]));
    assert(s.push('m').drop_last() =~= s);
}

/// The bytes of `n` units; nothing where they do not fit 64 bits.
pub open spec fn units(n: nat, unit: nat) -> Option<u64> {
    if n * unit <= u64::MAX {
        Some((n * unit) as u64)
    } else {
        None
    }
}

proof fn lemma_memory_bytes(n: nat, suffix: Seq<char>, unit: nat)
    requires
        memory_unit(decimal_text(n) + suffix) == (suffix.len(), unit),
        unit > 0,
    ensures
        memory_bytes(decimal_text(n) + suffix) == units(n, unit),
{
    let s = decimal_text(n);
    law_decimal_read_back(n);
    lemma_decimal_digits(n);
    assert(is_digit(s[0]));
    assert((s + suffix).take(s.len() as int) =~= s);
    assert(n <= n * unit) by (nonlinear_arith)
        requires
            unit > 0,
    ;
}

/// A memory quantity stands for its number of units: binary ones, decimal ones, or
/// plain bytes.
pub proof fn law_memory_units(n: nat)
    ensures
        memory_bytes(decimal_text(n) + "Ti"@) == units(n, 0x100_0000_0000),
        memory_bytes(decimal_text(n) + "Gi"@) == units(n, 0x4000_0000),
        memory_bytes(decimal_text(n) + "Mi"@) == units(n, 0x10_0000),
        memory_bytes(decimal_text(n) + "Ki"@) == units(n, 0x400),
        memory_bytes(decimal_text(n) + "T"@) == units(n, 1_000_000_000_000),
        memory_bytes(decimal_text(n) + "G"@) == units(n, 1_000_000_000),
        memory_bytes(decimal_text(n) + "M"@) == units(n, 1_000_000),
        memory_bytes(decimal_text(n) + "k"@) == units(n, 1_000),
        memory_bytes(decimal_text(n)) == units(n, 1),
{
    let s = decimal_text(n);
    law_decimal_read_back(n);
    lemma_decimal_digits(n);
    assert(is_digit(s.last()));
    reveal_strlit("Ti");
    reveal_strlit("Gi");
    reveal_strlit("Mi");
    reveal_strlit("Ki");
    reveal_strlit("T");
    reveal_strlit("G");
    reveal_strlit("M");
    reveal_strlit("k");
    lemma_memory_bytes(n, "Ti"@, 0x100_0000_0000);
    lemma_memory_bytes(n, "Gi"@, 0x4000_0000);
    lemma_memory_bytes(n, "Mi"@, 0x10_0000);
    lemma_memory_bytes(n, "Ki"@, 0x400);
    lemma_memory_bytes(n, "T"@, 1_000_000_000_000);
    lemma_memory_bytes(n, "G"@, 1_000_000_000);
    lemma_memory_bytes(n, "M"@, 1_000_000);
    lemma_memory_bytes(n, "k"@, 1_000);
    assert(s + Seq::<char>::empty() =~= s);
    lemma_memory_bytes(n, Seq::empty(), 1);
}

/// A CPU quantity never stands for a quota of zero.
pub proof fn law_quota_not_zero(s: Seq<char>)
    ensures
        cpu_micros(s) != Some(0u64),
{
}

/// One or more of the characters `0` to `9`.
pub open spec fn is_numeral(s: Seq<char>) -> bool {
    s.len() > 0 && forall|i: int| 0 <= i < s.len() ==> '0' <= #[trigger] s[i] && s[i] <= '9'
}

/// A text, with a plus sign before it or without.
pub open spec fn signed(plus: bool, s: Seq<char>) -> Seq<char> {
    if plus {
        seq!['+'] + s
    } else {
        s
    }
}

/// The units of memory, by suffix.
pub open spec fn is_memory_unit(suffix: Seq<char>, unit: nat) -> bool {
    ||| suffix == Seq::<char>::empty() && unit == 1
    ||| suffix == seq!['K', 'i'] && unit == 1024
    ||| suffix == seq!['M', 'i'] && unit == 1024 * 1024
    ||| suffix == seq!['G', 'i'] && unit == 1024 * 1024 * 1024
    ||| suffix == seq!['T', 'i'] && unit == 1024 * 1024 * 1024 * 1024
    ||| suffix == seq!['k'] && unit == 1000
    ||| suffix == seq!['M'] && unit == 1000 * 1000
    ||| suffix == seq!['G'] && unit == 1000 * 1000 * 1000
    ||| suffix == seq!['T'] && unit == 1000 * 1000 * 1000 * 1000
}

proof fn lemma_signed_numeral(plus: bool, numeral: Seq<char>)
    requires
        is_numeral(numeral),
    ensures
        unsigned_value(signed(plus, numeral)) == Some(digits_value(numeral)),
{
    assert forall|i: int| 0 <= i < numeral.len() implies is_digit(#[trigger] numeral[i]) by {
    }
    assert(numeral[0] >= '0');
    assert(signed(true, numeral).skip(1) =~= numeral);
}

proof fn lemma_unsigned_is_signed_numeral(s: Seq<char>) -> (parts: (bool, Seq<char>))
    requires
        unsigned_value(s) is Some,
    ensures
        is_numeral(parts.1),
        s == signed(parts.0, parts.1),
{
    if s.len() > 0 && s[0] == '+' {
        let numeral = s.skip(1);
        assert(all_digits(numeral));
        assert(s =~= signed(true, numeral));
        assert forall|i: int| 0 <= i < numeral.len() implies '0' <= #[trigger] numeral[i]
            && numeral[i] <= '9' by {
            assert(is_digit(numeral[i]));
        }
        (true, numeral)
    } else {
        assert forall|i: int| 0 <= i < s.len() implies '0' <= #[trigger] s[i] && s[i] <= '9' by {
            assert(is_digit(s[i]));
        }
        (false, s)
    }
}

/// A numeral with the suffix of a unit stands for as many of these units in bytes,
/// where they fit 64 bits, however the numeral is written.
pub proof fn law_memory_quantity(plus: bool, numeral: Seq<char>, suffix: Seq<char>, unit: nat)
    requires
        is_numeral(numeral),
        is_memory_unit(suffix, unit),
    ensures
        ({
            let total = digits_value(numeral) * unit;
            let bytes = memory_bytes(signed(plus, numeral) + suffix);
            &&& total <= u64::MAX ==> bytes is Some && bytes->Some_0 == total
            &&& total > u64::MAX ==> bytes is None
        }),
{
    let number = signed(plus, numeral);
    let s = number + suffix;
    lemma_signed_numeral(plus, numeral);
    assert('0' <= numeral.last() && numeral.last() <= '9');
    assert(number.last() == numeral.last());
    assert(memory_unit(s) == (suffix.len(), unit));
    assert(s.take(number.len() as int) =~= number);
    let n = digits_value(numeral);
    assert(n <= n * unit) by (nonlinear_arith)
        requires
            unit > 0,
    ;
}

/// A text is a numeral with the suffix of a unit.
pub open spec fn is_memory_quantity(
    s: Seq<char>,
    plus: bool,
    numeral: Seq<char>,
    suffix: Seq<char>,
    unit: nat,
) -> bool {
    is_numeral(numeral) && is_memory_unit(suffix, unit) && s == signed(plus, numeral) + suffix
}

/// No other text stands for an amount of memory.
pub proof fn law_no_other_memory_quantity(s: Seq<char>)
    requires
        memory_bytes(s) is Some,
    ensures
        exists|plus: bool, numeral: Seq<char>, suffix: Seq<char>, unit: nat|
            is_memory_quantity(s, plus, numeral, suffix, unit),
{
    let (len, unit) = memory_unit(s);
    let number = s.take(s.len() - len);
    let suffix = s.skip(s.len() - len);
    let (plus, numeral) = lemma_unsigned_is_signed_numeral(number);
    assert(s =~= number + suffix);
    assert(len == 0 ==> suffix =~= Seq::<char>::empty());
    assert(len == 1 ==> suffix =~= seq![s.last()]);
    assert(len == 2 ==> suffix =~= seq![s[s.len() - 2], s.last()]);
    assert(is_memory_quantity(s, plus, numeral, suffix, unit));
}

/// A numeral with the suffix `m` stands for a hundred microseconds for each, where
/// that is not zero and fits 64 bits, however the numeral is written.
pub proof fn law_thousandths_quantity(plus: bool, numeral: Seq<char>)
    requires
        is_numeral(numeral),
    ensures
        ({
            let total = digits_value(numeral) * 100;
            let micros = cpu_micros(signed(plus, numeral).push('m'));
            &&& 0 < total <= u64::MAX ==> micros is Some && micros->Some_0 == total
            &&& total == 0 || total > u64::MAX ==> micros is None
        }),
{
    let number = signed(plus, numeral);
    lemma_signed_numeral(plus, numeral);
    assert(number.push('m').drop_last() =~= number);
}

/// A decimal exponent: `e` or `E`, a sign or none, and a numeral.
pub struct ExponentText {
    pub mark: char,
    pub sign: Option<char>,
    pub numeral: Seq<char>,
}

/// A decimal number: a plus sign or none, digits, a point or none, digits behind the
/// point, and an exponent or none.
pub struct DecimalText {
    pub plus: bool,
    pub whole: Seq<char>,
    pub point: bool,
    pub fraction: Seq<char>,
    pub exponent: Option<ExponentText>,
}

impl ExponentText {
    pub open spec fn is_valid(self) -> bool {
        &&& self.mark == 'e' || self.mark == 'E'
        &&& self.sign is None || self.sign == Some('+') || self.sign == Some('-')
        &&& is_numeral(self.numeral)
    }

    pub open spec fn text(self) -> Seq<char> {
        let sign = if self.sign is Some {
            seq![self.sign->Some_0]
        } else {
            Seq::empty()
        };
        seq![self.mark] + (sign + self.numeral)
    }

    pub open spec fn power(self) -> int {
        if self.sign == Some('-') {
            -digits_value(self.numeral)
        } else {
            digits_value(self.numeral) as int
        }
    }
}

impl DecimalText {
    /// There is a digit, before or behind the point.
    pub open spec fn is_valid(self) -> bool {
        &&& is_numeral(self.whole + self.fraction)
        &&& !self.point ==> self.fraction.len() == 0
        &&& self.exponent is Some ==> self.exponent->Some_0.is_valid()
    }

    pub open spec fn mantissa(self) -> Seq<char> {
        if self.point {
            self.whole + (seq!['.'] + self.fraction)
        } else {
            self.whole
        }
    }

    pub open spec fn tail(self) -> Seq<char> {
        if self.exponent is Some {
            self.exponent->Some_0.text()
        } else {
            Seq::empty()
        }
    }

    pub open spec fn text(self) -> Seq<char> {
        signed(self.plus, self.mantissa() + self.tail())
    }

    /// The power of ten that the digits are multiplied with.
    pub open spec fn power(self) -> int {
        let given = if self.exponent is Some {
            self.exponent->Some_0.power()
        } else {
            0
        };
        given - self.fraction.len()
    }

    /// The digits, as a number.
    pub open spec fn digits(self) -> nat {
        digits_value(self.whole + self.fraction)
    }
}

proof fn lemma_exponent_text(e: ExponentText)
    requires
        e.is_valid(),
    ensures
        exponent_value(e.text().skip(1)) == Some(e.power()),
        e.text()[0] == e.mark,
        is_digit(e.text().last()),
{
    let rest = e.text().skip(1);
    let numeral = e.numeral;
    assert(all_digits(numeral));
    assert(is_digit(numeral.last()));
    assert(is_digit(numeral[0]));
    if e.sign is Some {
        assert(rest[0] == e.sign->Some_0);
        assert(rest.skip(1) =~= numeral);
    } else {
        assert(rest =~= numeral);
    }
}

proof fn lemma_mantissa(t: DecimalText)
    requires
        t.is_valid(),
    ensures
        t.mantissa().len() > 0,
        is_digit(t.mantissa()[0]) || t.mantissa()[0] == '.',
        is_digit(t.mantissa().last()) || t.mantissa().last() == '.',
        forall|i: int|
            0 <= i < t.mantissa().len() ==> #[trigger] t.mantissa()[i] != 'e' && t.mantissa()[i]
                != 'E',
        first_of(t.mantissa(), '.', '.') == t.whole.len(),
{
    let digits = t.whole + t.fraction;
    let m = t.mantissa();
    assert forall|i: int| 0 <= i < t.whole.len() implies is_digit(#[trigger] t.whole[i]) by {
        assert(digits[i] == t.whole[i]);
        assert('0' <= digits[i] && digits[i] <= '9');
    }
    assert forall|i: int| 0 <= i < t.fraction.len() implies is_digit(#[trigger] t.fraction[i]) by {
        assert(digits[t.whole.len() + i] == t.fraction[i]);
        assert('0' <= digits[t.whole.len() + i] && digits[t.whole.len() + i] <= '9');
    }
    let at = t.whole.len() as int;
    assert forall|i: int| 0 <= i < m.len() implies is_digit(#[trigger] m[i]) || (m[i] == '.' && i
        == at) by {
        if i < at {
            assert(m[i] == t.whole[i]);
        } else if i > at {
            assert(m[i] == t.fraction[i - at - 1]);
        }
    }
    assert(forall|i: int| 0 <= i < at ==> m[i] == t.whole[i]);
    if t.whole.len() == 0 && !t.point {
        assert(digits.len() == 0);
    }
    lemma_first_of(m, '.', '.', at);
}

proof fn lemma_decimal_text(t: DecimalText)
    requires
        t.is_valid(),
    ensures
        decimal_value(t.mantissa() + t.tail()) == Some(
            Decimal { digits: t.digits(), exponent: t.power() },
        ),
{
    let m = t.mantissa();
    let s = m + t.tail();
    let mark = m.len() as int;
    lemma_mantissa(t);
    if t.exponent is Some {
        lemma_exponent_text(t.exponent->Some_0);
        assert(s[mark] == t.tail()[0]);
        assert(s.skip(mark + 1) =~= t.tail().skip(1));
    }
    assert(forall|i: int| 0 <= i < mark ==> s[i] == m[i]);
    lemma_first_of(s, 'e', 'E', mark);
    assert(s.take(mark) =~= m);
    let at = t.whole.len() as int;
    assert(s.take(at) =~= t.whole);
    if t.point {
        assert(s.subrange(at + 1, mark) =~= t.fraction);
    } else {
        assert(t.fraction =~= Seq::<char>::empty());
    }
    let digits = t.whole + t.fraction;
    assert forall|i: int| 0 <= i < digits.len() implies is_digit(#[trigger] digits[i]) by {
        assert('0' <= digits[i] && digits[i] <= '9');
    }
}

/// A decimal number of cores gets the quota of the number that it denotes: its
/// digits times a power of ten, however it is written.
pub proof fn law_cores_quantity(t: DecimalText)
    requires
        t.is_valid(),
    ensures
        t.power() >= 0 ==> cpu_micros(t.text()) == cores_quota(
            (t.digits() * pow(10, t.power() as nat)) as nat,
            1,
        ),
        t.power() < 0 ==> cpu_micros(t.text()) == cores_quota(
            t.digits(),
            pow(10, (-t.power()) as nat) as nat,
        ),
{
    let number = t.mantissa() + t.tail();
    let s = t.text();
    lemma_mantissa(t);
    lemma_decimal_text(t);
    if t.exponent is Some {
        lemma_exponent_text(t.exponent->Some_0);
        assert(number.last() == t.tail().last());
    } else {
        assert(number =~= t.mantissa());
    }
    assert(s.last() == number.last());
    assert(number[0] == t.mantissa()[0]);
    assert(signed(true, number).skip(1) =~= number);
    if t.power() >= 0 {
        lemma_pow10_is_power(t.power() as nat);
    } else {
        lemma_pow10_is_power((-t.power()) as nat);
    }
}

/// A text is a numeral with the suffix `m`.
pub open spec fn is_thousandths(s: Seq<char>, plus: bool, numeral: Seq<char>) -> bool {
    is_numeral(numeral) && s == signed(plus, numeral).push('m')
}

/// A text is a decimal number.
pub open spec fn is_decimal(s: Seq<char>, t: DecimalText) -> bool {
    t.is_valid() && s == t.text()
}

proof fn lemma_exponent_is_text(mark: char, s: Seq<char>) -> (e: ExponentText)
    requires
        mark == 'e' || mark == 'E',
        exponent_value(s) is Some,
    ensures
        e.is_valid(),
        e.text() == seq![mark] + s,
{
    let has_sign = s.len() > 0 && (s[0] == '+' || s[0] == '-');
    let numeral = if has_sign {
        s.skip(1)
    } else {
        s
    };
    assert forall|i: int| 0 <= i < numeral.len() implies '0' <= #[trigger] numeral[i] && numeral[i]
        <= '9' by {
        assert(is_digit(numeral[i]));
    }
    let sign = if has_sign {
        Some(s[0])
    } else {
        None
    };
    let e = ExponentText { mark, sign, numeral };
    assert(e.text() =~= seq![mark] + s);
    e
}

proof fn lemma_first_of_found(s: Seq<char>, a: char, b: char)
    ensures
        first_of(s, a, b) <= s.len(),
        first_of(s, a, b) < s.len() ==> s[first_of(s, a, b) as int] == a || s[first_of(
            s,
            a,
            b,
        ) as int] == b,
    decreases s.len(),
{
    if s.len() > 0 && s[0] != a && s[0] != b {
        lemma_first_of_found(s.skip(1), a, b);
    }
}

proof fn lemma_decimal_is_text(plus: bool, s: Seq<char>) -> (t: DecimalText)
    requires
        decimal_value(s) is Some,
    ensures
        is_decimal(signed(plus, s), t),
{
    let mark = first_of(s, 'e', 'E') as int;
    lemma_first_of_found(s, 'e', 'E');
    let head = s.take(mark);
    let at = first_of(head, '.', '.') as int;
    lemma_first_of_found(head, '.', '.');
    let whole = s.take(at);
    let fraction = if at < mark {
        s.subrange(at + 1, mark)
    } else {
        Seq::empty()
    };
    let exponent = if mark < s.len() {
        Some(lemma_exponent_is_text(s[mark], s.skip(mark + 1)))
    } else {
        None
    };
    let t = DecimalText { plus, whole, point: at < mark, fraction, exponent };
    let digits = whole + fraction;
    assert forall|i: int| 0 <= i < digits.len() implies '0' <= #[trigger] digits[i] && digits[i]
        <= '9' by {
        assert(is_digit(digits[i]));
    }
    assert(t.mantissa() =~= head);
    assert(t.tail() =~= s.skip(mark));
    assert(t.mantissa() + t.tail() =~= s);
    t
}

/// No other text stands for a quota.
pub proof fn law_no_other_cpu_quantity(s: Seq<char>)
    requires
        cpu_micros(s) is Some,
    ensures
        (exists|plus: bool, numeral: Seq<char>| is_thousandths(s, plus, numeral)) || (exists|
            t: DecimalText,
        |
            is_decimal(s, t)),
{
    if s.len() > 0 && s.last() == 'm' {
        let (plus, numeral) = lemma_unsigned_is_signed_numeral(s.drop_last());
        assert(s =~= s.drop_last().push('m'));
        assert(is_thousandths(s, plus, numeral));
    } else if s.len() > 0 && s[0] == '+' {
        let t = lemma_decimal_is_text(true, s.skip(1));
        assert(signed(true, s.skip(1)) =~= s);
        assert(is_decimal(s, t));
    } else {
        let t = lemma_decimal_is_text(false, s);
        assert(is_decimal(s, t));
    }
}

} // verus!
