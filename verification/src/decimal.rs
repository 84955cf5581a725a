//! Decimal numerals: how numbers are written into and read from text.

use vstd::prelude::*;

verus! {

/// The ASCII code of the digit `0`.
pub const ZERO: u8 = 48;

/// The ASCII code of the plus sign.
pub const PLUS: u8 = 43;

/// Whether a byte is an ASCII decimal digit.
pub open spec fn is_digit(b: u8) -> bool {
    48 <= b <= 57
}

/// The decimal numeral of a number, as ASCII digits: no sign, and no leading
/// zero except for zero itself.
pub open spec fn decimal_digits(n: nat) -> Seq<u8>
    decreases n,
{
    if n < 10 {
        seq![(48 + n) as u8]
    } else {
        decimal_digits(n / 10).push((48 + n % 10) as u8)
    }
}

/// The decimal numeral of a number, as characters.
pub open spec fn decimal_chars(n: nat) -> Seq<char> {
    Seq::new(decimal_digits(n).len(), |i: int| decimal_digits(n)[i] as char)
}

/// The number that a run of ASCII digits denotes; nothing where a byte is no
/// digit. The empty run denotes zero.
pub open spec fn digits_value(s: Seq<u8>) -> Option<nat>
    decreases s.len(),
{
    if s.len() == 0 {
        Some(0)
    } else {
        match digits_value(s.drop_last()) {
            Some(v) => if is_digit(s.last()) {
                Some(v * 10 + (s.last() - 48) as nat)
            } else {
                None
            },
            None => None,
        }
    }
}

/// The digits of a numeral: what follows an optional plus sign.
pub open spec fn unsigned_digits(s: Seq<u8>) -> Seq<u8> {
    if s.len() > 0 && s[0] == 43 {
        s.subrange(1, s.len() as int)
    } else {
        s
    }
}

/// The 32-bit unsigned number that a text denotes: an optional plus sign
/// followed by one or more digits whose value fits in 32 bits.
pub open spec fn parse_u32_spec(s: Seq<u8>) -> Option<u32> {
    let digits = unsigned_digits(s);
    if digits.len() == 0 {
        None
    } else {
        match digits_value(digits) {
            Some(v) => if v <= u32::MAX {
                Some(v as u32)
            } else {
                None
            },
            None => None,
        }
    }
}

/// Every byte of a numeral is a digit, and a numeral is not empty.
pub proof fn lemma_decimal_digits(n: nat)
    ensures
        decimal_digits(n).len() >= 1,
        forall|i: int| 0 <= i < decimal_digits(n).len() ==> is_digit(#[trigger] decimal_digits(n)[i]),
        digits_value(decimal_digits(n)) == Some(n),
    decreases n,
{
    if n < 10 {
        let s = decimal_digits(n);
        assert(s.drop_last() =~= Seq::<u8>::empty());
        assert(digits_value(s.drop_last()) == Some(0nat));
    } else {
        lemma_decimal_digits(n / 10);
        let s = decimal_digits(n);
        assert(s.drop_last() =~= decimal_digits(n / 10));
        assert((n / 10) * 10 + n % 10 == n);
    }
}

/// Reading the numeral of a 32-bit number gives the number back.
pub proof fn lemma_parse_decimal(n: u32)
    ensures
        parse_u32_spec(decimal_digits(n as nat)) == Some(n),
{
    lemma_decimal_digits(n as nat);
    let s = decimal_digits(n as nat);
    assert(is_digit(s[0]));
    assert(unsigned_digits(s) == s);
}

/// The value of a run of digits is at least the value of each of its
/// prefixes, and where the run has a value each prefix has one.
pub proof fn lemma_digits_value_prefix(s: Seq<u8>, n: int)
    requires
        0 <= n <= s.len(),
    ensures
        digits_value(s) is Some ==> digits_value(s.subrange(0, n)) is Some && digits_value(
            s.subrange(0, n),
        )->0 <= digits_value(s)->0,
    decreases s.len() - n,
{
    if n == s.len() {
        assert(s.subrange(0, n) =~= s);
    } else {
        lemma_digits_value_prefix(s, n + 1);
        assert(s.subrange(0, n + 1).drop_last() =~= s.subrange(0, n));
    }
}

/// Reads a 32-bit unsigned number from text: an optional plus sign and then
/// digits only, at least one.
pub fn parse_u32(s: &[u8]) -> (r: Option<u32>)
    ensures
        r == parse_u32_spec(s@),
{
    let start: usize = if s.len() > 0 && s[0] == PLUS {
        1
    } else {
        0
    };
    let ghost digits = unsigned_digits(s@);
    if s.len() == start {
        return None;
    }
    let mut value: u32 = 0;
    let mut i: usize = start;
    assert(digits.subrange(0, 0) =~= Seq::<u8>::empty());
    assert(digits =~= s@.subrange(start as int, s@.len() as int));
    while i < s.len()
        invariant
            start <= i <= s@.len(),
            start < s@.len(),
            digits == unsigned_digits(s@),
            digits == s@.subrange(start as int, s@.len() as int),
            digits_value(digits.subrange(0, i - start)) == Some(value as nat),
        decreases s@.len() - i,
    {
        let b = s[i];
        let ghost upto = digits.subrange(0, i - start + 1);
        proof {
            assert(upto.drop_last() =~= digits.subrange(0, i - start));
            assert(upto.last() == b);
            lemma_digits_value_prefix(digits, i - start + 1);
        }
        if b < ZERO || b > 57 {
            return None;
        }
        let d: u32 = (b - ZERO) as u32;
        if value > (u32::MAX - d) / 10 {
            assert(value * 10 + d > u32::MAX) by (nonlinear_arith)
                requires
                    value > (u32::MAX - d) / 10,
                    d < 10,
            ;
            return None;
        }
        assert(value * 10 + d <= u32::MAX) by (nonlinear_arith)
            requires
                value <= (u32::MAX - d) / 10,
                d < 10,
        ;
        value = value * 10 + d;
        i += 1;
    }
    assert(digits.subrange(0, i - start) =~= digits);
    Some(value)
}

/// Appends the decimal numeral of a number to a byte buffer.
pub fn push_decimal(out: &mut Vec<u8>, n: u64)
    ensures
        final(out)@ == old(out)@ + decimal_digits(n as nat),
    decreases n,
{
    if n >= 10 {
        push_decimal(out, n / 10);
    }
    out.push(ZERO + (n % 10) as u8);
    assert(out@ =~= old(out)@ + decimal_digits(n as nat));
}

/// Appends the decimal numeral of a number to a string.
pub fn push_decimal_str(out: &mut String, n: u64)
    ensures
        final(out)@ == old(out)@ + decimal_chars(n as nat),
    decreases n,
{
    if n >= 10 {
        push_decimal_str(out, n / 10);
    }
    let digit: u8 = ZERO + (n % 10) as u8;
    out.push(digit as char);
    proof {
        let s = decimal_digits(n as nat);
        if n >= 10 {
            assert(s.drop_last() =~= decimal_digits((n / 10) as nat));
            assert(decimal_chars(n as nat) =~= decimal_chars((n / 10) as nat).push(digit as char));
        } else {
            assert(decimal_chars(n as nat) =~= seq![digit as char]);
        }
    }
    assert(out@ =~= old(out)@ + decimal_chars(n as nat));
}

/// The decimal numeral of a number.
pub fn decimal_string(n: u64) -> (r: String)
    ensures
        r@ == decimal_chars(n as nat),
{
    let mut out = String::new();
    push_decimal_str(&mut out, n);
    assert(out@ =~= decimal_chars(n as nat));
    out
}

} // verus!
