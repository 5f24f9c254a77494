//! Integers written as text and read back.

use vstd::prelude::*;

use crate::text::chars_of;

verus! {

/// The digit character of a value below sixteen, in lower case.
pub open spec fn digit(value: nat) -> char
    recommends
        value < 16,
{
    if value < 10 {
        (('0' as u8) + value) as char
    } else {
        (('a' as u8) + (value - 10)) as char
    }
}

/// The digit character of a value below sixteen.
pub fn digit_char(value: u8) -> (c: char)
    requires
        value < 16,
    ensures
        c == digit(value as nat),
{
    if value < 10 {
        (('0' as u8) + value) as char
    } else {
        (('a' as u8) + (value - 10)) as char
    }
}

/// A number in the given base, without leading zeroes.
pub open spec fn in_base(value: nat, base: nat) -> Seq<char>
    decreases value,
{
    if base < 2 {
        Seq::empty()
    } else if value < base {
        seq![digit(value)]
    } else {
        proof {
            assert(value / base < value) by (nonlinear_arith)
                requires
                    2 <= base <= value,
            ;
        }
        in_base(value / base, base).push(digit(value % base))
    }
}

/// A number in decimal.
pub open spec fn decimal(value: nat) -> Seq<char> {
    in_base(value, 10)
}

/// A signed number in decimal.
pub open spec fn signed_decimal(value: int) -> Seq<char> {
    if value < 0 {
        seq!['-'] + decimal((-value) as nat)
    } else {
        decimal(value as nat)
    }
}

/// The digits of a number, most significant first.
fn base_digits(value: u128, base: u8) -> (digits: Vec<char>)
    requires
        2 <= base <= 16,
    ensures
        digits@ == in_base(value as nat, base as nat),
    decreases value,
{
    if value < base as u128 {
        let mut digits: Vec<char> = Vec::new();
        digits.push(digit_char(value as u8));
        assert(digits@ =~= in_base(value as nat, base as nat));
        digits
    } else {
        let rest: u128 = value / (base as u128);
        let low: u128 = value % (base as u128);
        assert(rest < value && low < base) by (nonlinear_arith)
            requires
                rest == value / (base as u128),
                low == value % (base as u128),
                2 <= base <= value,
        ;
        let mut digits = base_digits(rest, base);
        digits.push(digit_char(low as u8));
        digits
    }
}

/// Appends the characters to a text.
pub fn push_chars(text: &mut String, characters: &Vec<char>)
    ensures
        final(text)@ == old(text)@ + characters@,
{
    let mut i: usize = 0;
    assert(text@ =~= old(text)@ + characters@.take(0));
    while i < characters.len()
        invariant
            i <= characters@.len(),
            text@ == old(text)@ + characters@.take(i as int),
        decreases characters@.len() - i,
    {
        text.push(characters[i]);
        i += 1;
        assert(text@ =~= old(text)@ + characters@.take(i as int));
    }
    assert(characters@.take(i as int) =~= characters@);
}

/// Writes a number in decimal.
pub fn decimal_text(value: u128) -> (text: String)
    ensures
        text@ == decimal(value as nat),
{
    let mut text = String::new();
    push_chars(&mut text, &base_digits(value, 10));
    assert(text@ =~= decimal(value as nat));
    text
}

/// Writes a number in lower-case hexadecimal.
pub fn hex_text(value: u32) -> (text: String)
    ensures
        text@ == in_base(value as nat, 16),
{
    let mut text = String::new();
    push_chars(&mut text, &base_digits(value as u128, 16));
    assert(text@ =~= in_base(value as nat, 16));
    text
}

/// Writes a signed number in decimal.
pub fn signed_text(value: i64) -> (text: String)
    ensures
        text@ == signed_decimal(value as int),
{
    if value < 0 {
        let mut text = String::new();
        text.push('-');
        let magnitude: u128 = (-(value as i128)) as u128;
        push_chars(&mut text, &base_digits(magnitude, 10));
        assert(text@ =~= signed_decimal(value as int));
        text
    } else {
        decimal_text(value as u128)
    }
}

/// `count` copies of one character.
pub open spec fn repeated(c: char, count: int) -> Seq<char> {
    Seq::new(
        if count > 0 {
            count as nat
        } else {
            0
        },
        |i: int| c,
    )
}

/// `count` copies of one character.
pub fn repeat_char(c: char, count: usize) -> (text: String)
    ensures
        text@ == repeated(c, count as int),
{
    let mut text = String::new();
    let mut i: usize = 0;
    while i < count
        invariant
            i <= count,
            text@ == repeated(c, i as int),
        decreases count - i,
    {
        text.push(c);
        i += 1;
        assert(text@ =~= repeated(c, i as int));
    }
    text
}

/// A number of at least `width` characters, filled with zeroes behind the sign.
pub open spec fn zero_padded(value: int, width: int) -> Seq<char> {
    if value < 0 {
        let digits = decimal((-value) as nat);
        seq!['-'] + repeated('0', width - 1 - digits.len()) + digits
    } else {
        let digits = decimal(value as nat);
        repeated('0', width - digits.len()) + digits
    }
}

/// Writes a number with at least `width` characters, zero-filled.
pub fn zero_padded_text(value: i64, width: usize) -> (text: String)
    ensures
        text@ == zero_padded(value as int, width as int),
{
    let magnitude: u128 = if value < 0 {
        (-(value as i128)) as u128
    } else {
        value as u128
    };
    let digits = base_digits(magnitude, 10);
    let mut text = String::new();
    let mut taken: usize = digits.len();
    if value < 0 {
        text.push('-');
        if taken < usize::MAX {
            taken += 1;
        }
    }
    if taken < width {
        let fill = repeat_char('0', width - taken);
        text.append(fill.as_str());
    }
    push_chars(&mut text, &digits);
    assert(text@ =~= zero_padded(value as int, width as int));
    text
}

/// Whether a character is one of `0` to `9`.
pub open spec fn decimal_digit(c: char) -> bool {
    '0' <= c <= '9'
}

/// A text of decimal digits only.
pub open spec fn all_digits(text: Seq<char>) -> bool {
    forall|i: int| 0 <= i < text.len() ==> decimal_digit(#[trigger] text[i])
}

/// The value that a text of decimal digits stands for.
pub open spec fn digits_value(text: Seq<char>) -> nat
    decreases text.len(),
{
    if text.len() == 0 {
        0
    } else {
        (digits_value(text.drop_last()) * 10 + ((text.last() as u8) - ('0' as u8))) as nat
    }
}

/// The unsigned number that a text stands for: digits, with one optional plus
/// sign before them.
pub open spec fn unsigned_value(text: Seq<char>) -> Option<nat> {
    let digits = if text.len() > 0 && text[0] == '+' {
        text.drop_first()
    } else {
        text
    };
    if digits.len() > 0 && all_digits(digits) {
        Some(digits_value(digits))
    } else {
        None
    }
}

/// Reads an unsigned number that fits in 64 bits.
pub fn parse_unsigned(text: &str) -> (value: Option<u64>)
    ensures
        match value {
            Some(number) => unsigned_value(text@) == Some(number as nat),
            None => match unsigned_value(text@) {
                Some(number) => number > u64::MAX,
                None => true,
            },
        },
{
    let characters = chars_of(text);
    let start: usize = if characters.len() > 0 && characters[0] == '+' {
        1
    } else {
        0
    };
    let ghost digits = characters@.skip(start as int);
    assert(start == 0 ==> digits =~= text@);
    assert(start == 1 ==> digits =~= text@.drop_first());
    if start == characters.len() {
        return None;
    }
    let mut value: u64 = 0;
    let mut i: usize = start;
    let mut too_large: bool = false;
    while i < characters.len()
        invariant
            start <= i <= characters@.len(),
            digits == characters@.skip(start as int),
            unsigned_value(text@) == if digits.len() > 0 && all_digits(digits) {
                Some(digits_value(digits))
            } else {
                None
            },
            all_digits(digits.take(i - start)),
            !too_large ==> value == digits_value(digits.take(i - start)),
            too_large ==> digits_value(digits.take(i - start)) > u64::MAX,
        decreases characters@.len() - i,
    {
        let c = characters[i];
        assert(digits[i - start] == c);
        if c < '0' || c > '9' {
            assert(!decimal_digit(digits[i - start]));
            return None;
        }
        let low: u64 = ((c as u8) - ('0' as u8)) as u64;
        assert(digits.take(i + 1 - start).drop_last() =~= digits.take(i - start));
        assert(digits.take(i + 1 - start).last() == c);
        if !too_large {
            if value > (u64::MAX - low) / 10 {
                too_large = true;
            } else {
                value = value * 10 + low;
            }
        }
        i += 1;
    }
    assert(digits.take(i - start) =~= digits);
    if too_large {
        None
    } else {
        Some(value)
    }
}

} // verus!
