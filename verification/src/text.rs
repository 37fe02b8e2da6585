//! Characters, decimal digits and unsigned integers in text.
use vstd::arithmetic::power::{lemma_pow0, lemma_pow1, lemma_pow_adds, pow};
use vstd::prelude::*;

verus! {

/// An ASCII decimal digit.
pub open spec fn is_digit(c: char) -> bool {
    '0' <= c <= '9'
}

/// Every character is a decimal digit.
pub open spec fn all_digits(s: Seq<char>) -> bool {
    forall|i: int| 0 <= i < s.len() ==> is_digit(#[trigger] s[i])
}

/// The number that a sequence of decimal digits denotes, most significant first.
pub open spec fn digits_value(s: Seq<char>) -> nat
    decreases s.len(),
{
    if s.len() == 0 {
        0
    } else {
        10 * digits_value(s.drop_last()) + (s.last() as nat - '0' as nat) as nat
    }
}

/// The number that an unsigned integer literal denotes: an optional `+`, then one
/// or more digits and nothing else.
pub open spec fn unsigned_value(s: Seq<char>) -> Option<nat> {
    let digits = if s.len() > 0 && s[0] == '+' {
        s.skip(1)
    } else {
        s
    };
    if digits.len() > 0 && all_digits(digits) {
        Some(digits_value(digits))
    } else {
        None
    }
}

/// The value of an unsigned integer literal that fits 64 bits.
pub open spec fn unsigned64_value(s: Seq<char>) -> Option<u64> {
    match unsigned_value(s) {
        Some(n) => if n <= u64::MAX {
            Some(n as u64)
        } else {
            None
        },
        None => None,
    }
}

/// The characters of a string.
pub fn chars_of(text: &str) -> (chars: Vec<char>)
    ensures
        chars@ == text@,
{
    let mut chars: Vec<char> = Vec::new();
    for c in it: text.chars()
        invariant
            it.seq() == text@,
            chars@ == it.seq().take(it.index() as int),
    {
        chars.push(c);
    }
    chars
}

/// The digit that a digit character stands for.
pub(crate) fn digit_of(c: char) -> (digit: u8)
    requires
        is_digit(c),
    ensures
        digit == c as int - '0' as int,
        digit < 10,
{
    (c as u32 - '0' as u32) as u8
}

/// Read an unsigned integer of 64 bits from the first `end` characters.
pub(crate) fn parse_unsigned(chars: &Vec<char>, end: usize) -> (number: Option<u64>)
    requires
        end <= chars@.len(),
    ensures
        number == unsigned64_value(chars@.take(end as int)),
{
    let ghost s = chars@.take(end as int);
    let start: usize = if end > 0 && chars[0] == '+' {
        1
    } else {
        0
    };
    let ghost digits = if s.len() > 0 && s[0] == '+' {
        s.skip(1)
    } else {
        s
    };
    if start == end {
        return None;
    }
    let mut number: u64 = 0;
    let mut fits: bool = true;
    let mut i: usize = start;
    assert(digits.take(0) =~= Seq::<char>::empty());
    while i < end
        invariant
            start <= i <= end,
            end <= chars@.len(),
            s == chars@.take(end as int),
            start <= 1,
            start == 1 ==> s.len() > 0 && s[0] == '+',
            start == 0 ==> !(s.len() > 0 && s[0] == '+'),
            digits == s.skip(start as int),
            digits.len() > 0,
            all_digits(digits.take(i - start)),
            fits ==> number == digits_value(digits.take(i - start)),
            !fits ==> digits_value(digits.take(i - start)) > u64::MAX,
        decreases end - i,
    {
        let c = chars[i];
        assert(digits[i - start] == c);
        if !(c >= '0' && c <= '9') {
            return None;
        }
        let digit: u8 = digit_of(c);
        assert(digits.take(i + 1 - start).drop_last() =~= digits.take(i - start));
        if fits {
            if number > (u64::MAX - digit as u64) / 10 {
                fits = false;
            } else {
                number = 10 * number + digit as u64;
            }
        }
        i = i + 1;
    }
    assert(digits.take(end - start) =~= digits);
    if fits {
        Some(number)
    } else {
        None
    }
}

/// The character of a digit.
pub open spec fn digit_char(digit: nat) -> char {
    ('0' as int + digit) as char
}

/// A number in decimal notation, without leading zeros.
pub open spec fn decimal_text(n: nat) -> Seq<char>
    decreases n,
{
    if n < 10 {
        seq![digit_char(n)]
    } else {
        decimal_text(n / 10).push(digit_char(n % 10))
    }
}

fn digit_text(digit: u64) -> (text: &'static str)
    requires
        digit < 10,
    ensures
        text@ == seq![digit_char(digit as nat)],
{
    proof {
        reveal_strlit("0");
        reveal_strlit("1");
        reveal_strlit("2");
        reveal_strlit("3");
        reveal_strlit("4");
        reveal_strlit("5");
        reveal_strlit("6");
        reveal_strlit("7");
        reveal_strlit("8");
        reveal_strlit("9");
    }
    match digit {
        0 => "0",
        1 => "1",
        2 => "2",
        3 => "3",
        4 => "4",
        5 => "5",
        6 => "6",
        7 => "7",
        8 => "8",
        _ => "9",
    }
}

/// Write a number in decimal notation.
pub fn decimal(n: u64) -> (text: String)
    ensures
        text@ == decimal_text(n as nat),
    decreases n,
{
    if n < 10 {
        digit_text(n).to_owned()
    } else {
        let mut text = decimal(n / 10);
        text.append(digit_text(n % 10));
        assert(text@ =~= decimal_text((n / 10) as nat).push(digit_char((n % 10) as nat)));
        text
    }
}

/// A number is read back from its decimal notation.
pub proof fn law_decimal_read_back(n: nat)
    ensures
        unsigned_value(decimal_text(n)) == Some(n),
{
    lemma_decimal_digits(n);
}

pub(crate) proof fn lemma_decimal_digits(n: nat)
    ensures
        decimal_text(n).len() > 0,
        all_digits(decimal_text(n)),
        digits_value(decimal_text(n)) == n,
    decreases n,
{
    let s = decimal_text(n);
    if n < 10 {
        assert(s.drop_last() =~= Seq::<char>::empty());
        assert(digits_value(s.drop_last()) == 0);
    } else {
        lemma_decimal_digits(n / 10);
        assert(s.drop_last() =~= decimal_text(n / 10));
    }
}

/// The digits are `0` to `9`, and a text is all digits if every character is one.
pub proof fn law_digits(c: char, s: Seq<char>)
    ensures
        is_digit(c) <==> '0' <= c && c <= '9',
        all_digits(s) <==> forall|i: int| 0 <= i < s.len() ==> '0' <= #[trigger] s[i] && s[i] <= '9',
{
    assert(all_digits(s) ==> forall|i: int|
        0 <= i < s.len() ==> is_digit(#[trigger] s[i]));
}

/// A digit counts as many ones as its character is behind `0`, and a digit before
/// others ten times as much for each of them.
pub proof fn law_digits_value(a: Seq<char>, b: Seq<char>, c: char)
    ensures
        digits_value(Seq::empty()) == 0,
        is_digit(c) ==> digits_value(seq![c]) == c as int - '0' as int,
        digits_value(a + b) == digits_value(a) * pow(10, b.len()) + digits_value(b),
    decreases b.len(),
{
    assert(seq![c].drop_last() =~= Seq::<char>::empty());
    assert(digits_value(seq![c].drop_last()) == 0);
    lemma_pow0(10);
    if b.len() == 0 {
        assert(a + b =~= a);
        assert(digits_value(a) * 1 == digits_value(a));
    } else {
        let front = b.drop_last();
        law_digits_value(a, front, c);
        assert((a + b).drop_last() =~= a + front);
        assert((a + b).last() == b.last());
        lemma_pow1(10);
        lemma_pow_adds(10, front.len(), 1);
        let x = digits_value(a);
        let p = pow(10, front.len());
        assert(10 * (x * p) == x * (p * 10)) by (nonlinear_arith);
    }
}

/// The decimal notation of a number is digits that have its value, the first of
/// several not zero.
pub proof fn law_decimal_digits(n: nat)
    ensures
        decimal_text(n).len() > 0,
        all_digits(decimal_text(n)),
        digits_value(decimal_text(n)) == n,
        decimal_text(n).len() > 1 ==> decimal_text(n)[0] != '0',
    decreases n,
{
    lemma_decimal_digits(n);
    if n >= 10 {
        law_decimal_digits(n / 10);
        let front = decimal_text(n / 10);
        assert(decimal_text(n)[0] == front[0]);
        if front.len() == 1 {
            assert(front.drop_last() =~= Seq::<char>::empty());
            assert(digits_value(front.drop_last()) == 0);
        }
    }
}

} // verus!
