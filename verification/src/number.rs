//! Numbers written as text: decimal and hexadecimal.

use vstd::prelude::*;

use crate::text;

verus! {

/// Why a text is not a number of the wanted range.
#[derive(Debug, Clone, Copy, PartialEq, Eq, Structural)]
pub enum NumberError {
    /// There is no character at all.
    Empty,
    /// A character is no digit of the radix.
    InvalidDigit,
    /// The value is above the largest one allowed.
    TooLarge,
}

/// The value of a digit in a radix of at most 16.
pub open spec fn digit_value(c: char, radix: nat) -> Option<nat> {
    let value = if '0' <= c <= '9' {
        c as nat - '0' as nat
    } else if 'a' <= c <= 'f' {
        c as nat - 'a' as nat + 10
    } else if 'A' <= c <= 'F' {
        c as nat - 'A' as nat + 10
    } else {
        16
    };
    if value < radix {
        Some(value as nat)
    } else {
        None
    }
}

/// Reads digits from left to right and stops at the first one that is wrong.
pub open spec fn read_digits(s: Seq<char>, radix: nat, max: nat) -> Result<nat, NumberError>
    decreases s.len(),
{
    if s.len() == 0 {
        Ok(0)
    } else {
        match read_digits(s.drop_last(), radix, max) {
            Err(e) => Err(e),
            Ok(value) => match digit_value(s.last(), radix) {
                None => Err(NumberError::InvalidDigit),
                Some(d) => if value * radix + d > max {
                    Err(NumberError::TooLarge)
                } else {
                    Ok(value * radix + d)
                },
            },
        }
    }
}

/// The digits of a number, behind the `+` that may stand before them.
pub open spec fn unsigned_digits(s: Seq<char>) -> Seq<char> {
    if s.len() > 1 && s[0] == '+' {
        s.drop_first()
    } else {
        s
    }
}

/// Reads an unsigned number of at most `max`.
pub open spec fn read_number(s: Seq<char>, radix: nat, max: nat) -> Result<nat, NumberError> {
    if s.len() == 0 {
        Err(NumberError::Empty)
    } else {
        read_digits(unsigned_digits(s), radix, max)
    }
}

/// The digit of a value below ten.
pub open spec fn decimal_digit(d: nat) -> char {
    (('0' as nat + d) as u32) as char
}

/// A number in decimal, without leading zeros.
pub open spec fn decimal(n: nat) -> Seq<char>
    decreases n,
{
    if n < 10 {
        seq![decimal_digit(n)]
    } else {
        decimal(n / 10).push(decimal_digit(n % 10))
    }
}

/// The value of a digit.
fn digit(c: char, radix: u32) -> (out: Option<u32>)
    requires
        radix <= 16,
    ensures
        match out {
            Some(d) => digit_value(c, radix as nat) == Some(d as nat),
            None => digit_value(c, radix as nat) is None,
        },
{
    let value: u32 = if '0' <= c && c <= '9' {
        c as u32 - '0' as u32
    } else if 'a' <= c && c <= 'f' {
        c as u32 - 'a' as u32 + 10
    } else if 'A' <= c && c <= 'F' {
        c as u32 - 'A' as u32 + 10
    } else {
        16
    };
    if value < radix {
        Some(value)
    } else {
        None
    }
}

/// Once reading has failed, more digits do not help.
proof fn lemma_read_digits_err(s: Seq<char>, i: int, radix: nat, max: nat)
    requires
        0 <= i <= s.len(),
        read_digits(s.take(i), radix, max) is Err,
    ensures
        read_digits(s, radix, max) == read_digits(s.take(i), radix, max),
    decreases s.len() - i,
{
    if i == s.len() {
        assert(s.take(i) =~= s);
    } else {
        assert(s.take(i + 1).drop_last() =~= s.take(i));
        lemma_read_digits_err(s, i + 1, radix, max);
    }
}

/// Reads an unsigned number in the given radix, of at most `max`.
pub fn parse_number(s: &str, radix: u32, max: u64) -> (out: Result<u64, NumberError>)
    requires
        2 <= radix <= 16,
    ensures
        match out {
            Ok(n) => read_number(s@, radix as nat, max as nat) == Ok::<nat, NumberError>(n as nat),
            Err(e) => read_number(s@, radix as nat, max as nat) == Err::<nat, NumberError>(e),
        },
{
    let chars = text::chars_of(s);
    if chars.len() == 0 {
        return Err(NumberError::Empty);
    }
    let from: usize = if chars.len() > 1 && chars[0] == '+' {
        1
    } else {
        0
    };
    let ghost digits = unsigned_digits(s@);
    assert(digits =~= s@.skip(from as int));
    let mut value: u64 = 0;
    let mut i: usize = from;
    assert(digits.take(0) =~= Seq::<char>::empty());
    while i < chars.len()
        invariant
            chars@ == s@,
            2 <= radix <= 16,
            from <= i <= chars@.len(),
            s@.len() > 0,
            digits == unsigned_digits(s@),
            digits == s@.skip(from as int),
            value <= max,
            read_digits(digits.take(i - from), radix as nat, max as nat) == Ok::<nat, NumberError>(
                value as nat,
            ),
        decreases chars@.len() - i,
    {
        let ghost k = i - from;
        proof {
            assert(digits.take(k + 1).drop_last() =~= digits.take(k));
            assert(digits.take(k + 1).last() == s@[i as int]);
        }
        match digit(chars[i], radix) {
            None => {
                proof {
                    lemma_read_digits_err(digits, k + 1, radix as nat, max as nat);
                }
                return Err(NumberError::InvalidDigit);
            },
            Some(d) => {
                assert((value as u128) * (radix as u128) <= 0xffff_ffff_ffff_ffff * 16)
                    by (nonlinear_arith)
                    requires
                        value <= 0xffff_ffff_ffff_ffff,
                        radix <= 16,
                ;
                let next: u128 = (value as u128) * (radix as u128) + (d as u128);
                if next > max as u128 {
                    proof {
                        lemma_read_digits_err(digits, k + 1, radix as nat, max as nat);
                    }
                    return Err(NumberError::TooLarge);
                }
                value = next as u64;
            },
        }
        i = i + 1;
    }
    assert(digits.take(i - from) =~= digits);
    Ok(value)
}

/// Writes a number in decimal.
pub fn decimal_text(n: u32) -> (out: String)
    ensures
        out@ == decimal(n as nat),
    decreases n,
{
    let d: u8 = (n % 10) as u8;
    let c: char = (48 + d) as char;
    let mut out = if n < 10 {
        String::new()
    } else {
        decimal_text(n / 10)
    };
    out.push(c);
    assert(n < 10 ==> out@ =~= seq![decimal_digit(n as nat)]);
    out
}

/// A number written in decimal is read back as the same number.
pub proof fn law_decimal_is_read_back(n: nat, max: nat)
    requires
        n <= max,
    ensures
        read_number(decimal(n), 10, max) == Ok::<nat, NumberError>(n),
{
    lemma_decimal_digits(n, max);
    assert(unsigned_digits(decimal(n)) == decimal(n));
}

proof fn lemma_decimal_digits(n: nat, max: nat)
    requires
        n <= max,
    ensures
        decimal(n).len() >= 1,
        decimal(n)[0] != '+',
        read_digits(decimal(n), 10, max) == Ok::<nat, NumberError>(n),
    decreases n,
{
    reveal_with_fuel(read_digits, 2);
    let d = decimal_digit(n % 10);
    assert(digit_value(d, 10) == Some(n % 10));
    if n < 10 {
        assert(decimal(n).drop_last() =~= Seq::<char>::empty());
    } else {
        lemma_decimal_digits(n / 10, max);
        assert(decimal(n).drop_last() =~= decimal(n / 10));
        assert(decimal(n)[0] == decimal(n / 10)[0]);
    }
}

/// A number written in decimal consists of digits, at least one.
pub proof fn lemma_decimal_chars(n: nat)
    ensures
        decimal(n).len() >= 1,
        forall|i: int| 0 <= i < decimal(n).len() ==> '0' <= #[trigger] decimal(n)[i] <= '9',
    decreases n,
{
    let d = decimal_digit(n % 10);
    assert('0' <= d <= '9');
    if n >= 10 {
        lemma_decimal_chars(n / 10);
    }
}


/// A number in decimal has no leading zero, unless it is zero.
pub proof fn law_no_leading_zero(n: nat)
    ensures
        decimal(0) == seq!['0'],
        n > 0 ==> decimal(n).len() > 0 && decimal(n)[0] != '0',
    decreases n,
{
    assert(decimal_digit(0) == '0');
    if n >= 10 {
        law_no_leading_zero(n / 10);
    } else if n > 0 {
        assert(decimal_digit(n) != '0');
    }
}

} // verus!
