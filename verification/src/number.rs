//! Decimal integers and truth values as text.

use vstd::prelude::*;
use crate::lexeme::{DIGIT_0, DIGIT_9};

verus! {

/// `+`, which may stand before the digits of an integer.
pub const PLUS: u8 = 0x2b;

/// `-`, which stands before the digits of a negative integer.
pub const MINUS: u8 = 0x2d;

/// One of the digits `0` to `9`.
pub open spec fn is_digit(b: u8) -> bool {
    DIGIT_0 <= b <= DIGIT_9
}

/// A run of digits, possibly empty.
pub open spec fn all_digits(s: Seq<u8>) -> bool {
    forall|i: int| 0 <= i < s.len() ==> is_digit(#[trigger] s[i])
}

/// The number that a run of digits denotes in base ten.
pub open spec fn digits_value(s: Seq<u8>) -> nat
    decreases s.len(),
{
    if s.len() == 0 {
        0
    } else {
        digits_value(s.drop_last()) * 10 + (s.last() - DIGIT_0) as nat
    }
}

/// The integer that a text denotes: an optional sign (`+`, or `-` where
/// `signed`), then one digit or more and nothing else. `None` for any
/// other text.
pub open spec fn decimal(s: Seq<u8>, signed: bool) -> Option<int> {
    if s.len() == 0 {
        None
    } else if s[0] == PLUS || (signed && s[0] == MINUS) {
        let digits = s.subrange(1, s.len() as int);
        if digits.len() > 0 && all_digits(digits) {
            if s[0] == MINUS {
                Some(-(digits_value(digits) as int))
            } else {
                Some(digits_value(digits) as int)
            }
        } else {
            None
        }
    } else if all_digits(s) {
        Some(digits_value(s) as int)
    } else {
        None
    }
}

/// Why a text is not an integer of the wanted type.
#[derive(Clone, Copy, Debug, PartialEq, Eq, Structural)]
pub enum NumberError {
    /// The text is not an optional sign and digits.
    Malformed,
    /// The text denotes an integer outside the type's range.
    OutOfRange,
}

/// The integer between `low` and `high` that a text denotes.
pub open spec fn read_integer(s: Seq<u8>, signed: bool, low: int, high: int) -> Result<
    int,
    NumberError,
> {
    match decimal(s, signed) {
        None => Err(NumberError::Malformed),
        Some(v) => if low <= v <= high {
            Ok(v)
        } else {
            Err(NumberError::OutOfRange)
        },
    }
}

/// The digits of a natural number, without leading zeros.
pub open spec fn decimal_text(n: nat) -> Seq<u8>
    decreases n,
{
    if n < 10 {
        seq![(DIGIT_0 + n) as u8]
    } else {
        decimal_text(n / 10).push((DIGIT_0 + n % 10) as u8)
    }
}

/// The text of an integer: `-` before the digits of a negative one.
pub open spec fn integer_text(v: int) -> Seq<u8> {
    if v < 0 {
        seq![MINUS] + decimal_text((-v) as nat)
    } else {
        decimal_text(v as nat)
    }
}

/// The text `true`.
pub open spec fn true_text() -> Seq<u8> {
    seq![0x74u8, 0x72u8, 0x75u8, 0x65u8]
}

/// The text `false`.
pub open spec fn false_text() -> Seq<u8> {
    seq![0x66u8, 0x61u8, 0x6cu8, 0x73u8, 0x65u8]
}

/// The truth value that a text denotes: `true` or `false`, in lower case
/// and nothing else.
pub open spec fn read_boolean(s: Seq<u8>) -> Option<bool> {
    if s == true_text() {
        Some(true)
    } else if s == false_text() {
        Some(false)
    } else {
        None
    }
}

/// The text of a truth value.
pub open spec fn boolean_text(b: bool) -> Seq<u8> {
    if b {
        true_text()
    } else {
        false_text()
    }
}

/// The digits of a number denote it.
pub proof fn lemma_decimal_text(n: nat)
    ensures
        decimal_text(n).len() > 0,
        all_digits(decimal_text(n)),
        digits_value(decimal_text(n)) == n,
    decreases n,
{
    if n < 10 {
        let t = decimal_text(n);
        assert(t.drop_last() =~= Seq::<u8>::empty());
        assert(digits_value(t.drop_last()) == 0);
    } else {
        lemma_decimal_text(n / 10);
        let t = decimal_text(n);
        assert(t.drop_last() =~= decimal_text(n / 10));
    }
}

/// The text of an integer denotes it.
pub proof fn lemma_integer_text(v: int)
    ensures
        decimal(integer_text(v), true) == Some(v),
        v >= 0 ==> decimal(integer_text(v), false) == Some(v),
{
    if v < 0 {
        let digits = decimal_text((-v) as nat);
        lemma_decimal_text((-v) as nat);
        let t = integer_text(v);
        assert(t.subrange(1, t.len() as int) =~= digits);
    } else {
        lemma_decimal_text(v as nat);
        let t = integer_text(v);
        assert(is_digit(t[0]));
    }
}

/// Reads the digits of `s` from index `from` on as a number up to `limit`.
fn parse_digits(s: &[u8], from: usize, limit: u64) -> (r: Result<u64, NumberError>)
    requires
        from <= s.len(),
        limit >= 9,
    ensures
        r == (if from < s.len() && all_digits(s@.subrange(from as int, s.len() as int)) {
            if digits_value(s@.subrange(from as int, s.len() as int)) <= limit {
                Ok(digits_value(s@.subrange(from as int, s.len() as int)) as u64)
            } else {
                Err(NumberError::OutOfRange)
            }
        } else {
            Err::<u64, NumberError>(NumberError::Malformed)
        }),
{
    let ghost digits = s@.subrange(from as int, s.len() as int);
    if from == s.len() {
        return Err(NumberError::Malformed);
    }
    let mut value: u64 = 0;
    let mut over: bool = false;
    let mut i: usize = from;
    assert(digits.subrange(0, 0) =~= Seq::<u8>::empty());
    while i < s.len()
        invariant
            from <= i <= s.len(),
            limit >= 9,
            digits == s@.subrange(from as int, s.len() as int),
            all_digits(digits.subrange(0, i - from)),
            !over ==> value == digits_value(digits.subrange(0, i - from)) && value <= limit,
            over ==> digits_value(digits.subrange(0, i - from)) > limit,
        decreases s.len() - i,
    {
        let b: u8 = s[i];
        if !(DIGIT_0 <= b && b <= DIGIT_9) {
            assert(!is_digit(digits[i - from]));
            return Err(NumberError::Malformed);
        }
        let d: u64 = (b - DIGIT_0) as u64;
        proof {
            let shorter = digits.subrange(0, i - from);
            let longer = digits.subrange(0, i - from + 1);
            assert(longer.drop_last() =~= shorter);
            assert(longer.last() == b);
            assert(digits_value(longer) == digits_value(shorter) * 10 + d);
            assert forall|j: int| 0 <= j < longer.len() implies is_digit(#[trigger] longer[j]) by {
                if j < shorter.len() {
                    assert(shorter[j] == longer[j]);
                }
            }
        }
        if !over {
            if value > limit / 10 {
                over = true;
            } else if value * 10 > limit - d {
                over = true;
            } else {
                value = value * 10 + d;
            }
        }
        i += 1;
    }
    assert(digits.subrange(0, s.len() - from) =~= digits);
    if over {
        Err(NumberError::OutOfRange)
    } else {
        Ok(value)
    }
}

/// Reads a 64-bit signed integer: an optional `+` or `-`, then digits.
pub fn parse_i64(s: &[u8]) -> (r: Result<i64, NumberError>)
    ensures
        match read_integer(s@, true, i64::MIN as int, i64::MAX as int) {
            Ok(v) => r == Ok::<i64, NumberError>(v as i64),
            Err(e) => r == Err::<i64, NumberError>(e),
        },
{
    if s.len() == 0 {
        return Err(NumberError::Malformed);
    }
    if s[0] == MINUS {
        match parse_digits(s, 1, 0x8000_0000_0000_0000) {
            Ok(magnitude) => {
                if magnitude == 0x8000_0000_0000_0000 {
                    Ok(i64::MIN)
                } else {
                    Ok(-(magnitude as i64))
                }
            },
            Err(e) => Err(e),
        }
    } else if s[0] == PLUS {
        match parse_digits(s, 1, 0x7fff_ffff_ffff_ffff) {
            Ok(magnitude) => Ok(magnitude as i64),
            Err(e) => Err(e),
        }
    } else {
        assert(s@.subrange(0, s.len() as int) =~= s@);
        match parse_digits(s, 0, 0x7fff_ffff_ffff_ffff) {
            Ok(magnitude) => Ok(magnitude as i64),
            Err(e) => Err(e),
        }
    }
}

/// Reads a 16-bit unsigned integer: an optional `+`, then digits.
pub fn parse_u16(s: &[u8]) -> (r: Result<u16, NumberError>)
    ensures
        match read_integer(s@, false, 0, u16::MAX as int) {
            Ok(v) => r == Ok::<u16, NumberError>(v as u16),
            Err(e) => r == Err::<u16, NumberError>(e),
        },
{
    if s.len() == 0 {
        return Err(NumberError::Malformed);
    }
    if s[0] == PLUS {
        match parse_digits(s, 1, 0xffff) {
            Ok(magnitude) => Ok(magnitude as u16),
            Err(e) => Err(e),
        }
    } else {
        assert(s@.subrange(0, s.len() as int) =~= s@);
        match parse_digits(s, 0, 0xffff) {
            Ok(magnitude) => Ok(magnitude as u16),
            Err(e) => Err(e),
        }
    }
}

/// Reads a truth value: `true` or `false`.
pub fn parse_bool(s: &[u8]) -> (r: Option<bool>)
    ensures
        r == read_boolean(s@),
{
    if s.len() == 4 && s[0] == 0x74 && s[1] == 0x72 && s[2] == 0x75 && s[3] == 0x65 {
        assert(s@ =~= true_text());
        Some(true)
    } else if s.len() == 5 && s[0] == 0x66 && s[1] == 0x61 && s[2] == 0x6c && s[3] == 0x73 && s[4]
        == 0x65 {
        assert(s@ =~= false_text());
        Some(false)
    } else {
        assert(s@ != true_text()) by {
            if s@ == true_text() {
                assert(true_text().len() == 4);
                assert(true_text()[0] == 0x74 && true_text()[1] == 0x72 && true_text()[2] == 0x75
                    && true_text()[3] == 0x65);
            }
        }
        assert(s@ != false_text()) by {
            if s@ == false_text() {
                assert(false_text().len() == 5);
                assert(false_text()[0] == 0x66 && false_text()[1] == 0x61 && false_text()[2]
                    == 0x6c && false_text()[3] == 0x73 && false_text()[4] == 0x65);
            }
        }
        None
    }
}

/// Appends the digits of `n` to `out`.
pub fn push_decimal(out: &mut Vec<u8>, n: u64)
    ensures
        final(out)@ == old(out)@ + decimal_text(n as nat),
    decreases n,
{
    if n < 10 {
        out.push(DIGIT_0 + n as u8);
        assert(out@ =~= old(out)@ + decimal_text(n as nat));
    } else {
        push_decimal(out, n / 10);
        out.push(DIGIT_0 + (n % 10) as u8);
        assert(out@ =~= old(out)@ + decimal_text(n as nat));
    }
}

/// The text of a 64-bit signed integer.
pub fn format_i64(v: i64) -> (r: Vec<u8>)
    ensures
        r@ == integer_text(v as int),
{
    let mut out: Vec<u8> = Vec::new();
    if v < 0 {
        out.push(MINUS);
        let magnitude: u64 = (-(v + 1)) as u64 + 1;
        push_decimal(&mut out, magnitude);
    } else {
        push_decimal(&mut out, v as u64);
    }
    assert(out@ =~= integer_text(v as int));
    out
}

/// The text of a 16-bit unsigned integer.
pub fn format_u16(v: u16) -> (r: Vec<u8>)
    ensures
        r@ == integer_text(v as int),
{
    let mut out: Vec<u8> = Vec::new();
    push_decimal(&mut out, v as u64);
    assert(out@ =~= integer_text(v as int));
    out
}

/// The text of a truth value.
pub fn format_bool(b: bool) -> (r: Vec<u8>)
    ensures
        r@ == boolean_text(b),
{
    let mut out: Vec<u8> = Vec::new();
    if b {
        out.push(0x74);
        out.push(0x72);
        out.push(0x75);
        out.push(0x65);
    } else {
        out.push(0x66);
        out.push(0x61);
        out.push(0x6c);
        out.push(0x73);
        out.push(0x65);
    }
    assert(out@ =~= boolean_text(b));
    out
}

} // verus!
