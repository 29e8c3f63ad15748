//! Whole numbers as decimal text, written and read.

use vstd::prelude::*;

use crate::text::{is_ascii_digit, is_digit, tail};

verus! {

/// The character of the digit `d`, from zero to nine.
pub open spec fn digit_char(d: int) -> char {
    ('0' as u32 + d) as char
}

/// `n` in decimal digits, without leading zeros.
pub open spec fn decimal(n: nat) -> Seq<char>
    decreases n,
{
    if n < 10 {
        seq![digit_char(n as int)]
    } else {
        decimal(n / 10).push(digit_char((n % 10) as int))
    }
}

/// `n` in decimal digits, with a minus sign before a negative number.
pub open spec fn signed_decimal(n: int) -> Seq<char> {
    if n < 0 {
        seq!['-'] + decimal((-n) as nat)
    } else {
        decimal(n as nat)
    }
}

/// The number that a row of digits stands for.
pub open spec fn value_of(digits: Seq<char>) -> nat
    decreases digits.len(),
{
    if digits.len() == 0 {
        0
    } else {
        value_of(digits.drop_last()) * 10 + (digits.last() as u32 - '0' as u32) as nat
    }
}

pub open spec fn all_digits(text: Seq<char>) -> bool {
    forall|i: int| 0 <= i < text.len() ==> is_digit(#[trigger] text[i])
}

/// `text` without one plus sign before it.
pub open spec fn after_plus(text: Seq<char>) -> Seq<char> {
    if text.len() > 0 && text[0] == '+' {
        text.skip(1)
    } else {
        text
    }
}

/// What an unsigned number of at most `max` is read from: digits, with one
/// plus sign allowed before them.
pub open spec fn parse_unsigned(text: Seq<char>, max: nat) -> Option<nat> {
    let digits = after_plus(text);
    if digits.len() > 0 && all_digits(digits) && value_of(digits) <= max {
        Some(value_of(digits))
    } else {
        None
    }
}

pub proof fn lemma_digit_char(d: int)
    requires
        0 <= d < 10,
    ensures
        is_digit(digit_char(d)),
        digit_char(d) as u32 - '0' as u32 == d,
{
}

/// Reading the digits that a number is written in gives the number back.
pub proof fn decimal_reads_back(n: nat)
    ensures
        decimal(n).len() > 0,
        all_digits(decimal(n)),
        value_of(decimal(n)) == n,
    decreases n,
{
    if n < 10 {
        lemma_digit_char(n as int);
        assert(decimal(n).drop_last() =~= Seq::empty());
        assert(value_of(decimal(n).drop_last()) == 0);
    } else {
        decimal_reads_back(n / 10);
        lemma_digit_char((n % 10) as int);
        assert(decimal(n).drop_last() =~= decimal(n / 10));
    }
}

/// Two numbers written alike are the same number.
pub proof fn decimal_is_injective(a: nat, b: nat)
    requires
        decimal(a) == decimal(b),
    ensures
        a == b,
{
    decimal_reads_back(a);
    decimal_reads_back(b);
}

/// Appends `n` in decimal digits.
pub fn push_decimal(text: &mut String, n: u64)
    ensures
        final(text)@ == old(text)@ + decimal(n as nat),
    decreases n,
{
    if n >= 10 {
        push_decimal(text, n / 10);
    }
    let digit = (48u8 + (n % 10) as u8) as char;
    assert(digit == digit_char((n % 10) as int));
    text.push(digit);
    assert(text@ =~= old(text)@ + decimal(n as nat));
}

/// `n` in decimal digits.
pub fn decimal_text(n: u64) -> (text: String)
    ensures
        text@ == decimal(n as nat),
{
    let mut text = String::new();
    push_decimal(&mut text, n);
    assert(text@ =~= decimal(n as nat));
    text
}

/// `n` in decimal digits, with a minus sign before a negative number.
pub fn signed_decimal_text(n: i64) -> (text: String)
    ensures
        text@ == signed_decimal(n as int),
{
    let mut text = String::new();
    if n < 0 {
        text.push('-');
        if n == i64::MIN {
            push_decimal(&mut text, 0x8000_0000_0000_0000);
        } else {
            push_decimal(&mut text, (-n) as u64);
        }
    } else {
        push_decimal(&mut text, n as u64);
    }
    assert(text@ =~= signed_decimal(n as int));
    text
}

/// Reads an unsigned number of at most `max`.
pub fn read_unsigned(text: &[char], max: u64) -> (n: Option<u64>)
    ensures
        match n {
            Some(n) => parse_unsigned(text@, max as nat) == Some(n as nat),
            None => parse_unsigned(text@, max as nat) is None,
        },
{
    let digits = if text.len() > 0 && text[0] == '+' {
        tail(text, 1)
    } else {
        text
    };
    if digits.len() == 0 {
        return None;
    }
    let mut n: u64 = 0;
    let mut i: usize = 0;
    let mut over = false;
    while i < digits.len()
        invariant
            i <= digits@.len(),
            digits@ == after_plus(text@),
            forall|j: int| 0 <= j < i ==> is_digit(#[trigger] digits@[j]),
            over ==> value_of(digits@.take(i as int)) > max,
            !over ==> n == value_of(digits@.take(i as int)) && n <= max,
        decreases digits@.len() - i,
    {
        let c = digits[i];
        if !is_ascii_digit(c) {
            assert(!is_digit(digits@[i as int]));
            return None;
        }
        proof {
            assert(digits@.take(i + 1).drop_last() =~= digits@.take(i as int));
        }
        if !over {
            let wide: u128 = (n as u128) * 10 + (c as u8 - 48u8) as u128;
            if wide > max as u128 {
                over = true;
            } else {
                n = wide as u64;
            }
        }
        i += 1;
    }
    assert(digits@.take(i as int) =~= digits@);
    if over {
        None
    } else {
        Some(n)
    }
}

/// A number is read from its digits, with or without a plus sign, where it is
/// not above the greatest that is allowed.
pub proof fn numbers_are_read_from_their_digits(n: nat, max: nat)
    ensures
        parse_unsigned(decimal(n), max) == if n <= max {
            Some(n)
        } else {
            None
        },
        parse_unsigned(seq!['+'] + decimal(n), max) == if n <= max {
            Some(n)
        } else {
            None
        },
{
    decimal_reads_back(n);
    assert(is_digit(decimal(n)[0]));
    assert((seq!['+'] + decimal(n)).skip(1) =~= decimal(n));
}

/// A text without digits, or with anything but digits behind its first
/// character, is no number.
pub proof fn other_texts_are_no_numbers(text: Seq<char>, i: int, max: nat)
    requires
        0 <= i < text.len() ==> !('0' <= text[i] <= '9'),
    ensures
        0 < i < text.len() ==> parse_unsigned(text, max) is None,
        i == 0 && text.len() > 0 && text[0] != '+' ==> parse_unsigned(text, max) is None,
        text.len() == 0 ==> parse_unsigned(text, max) is None,
        parse_unsigned(seq!['+'], max) is None,
{
    let digits = after_plus(text);
    if 0 < i < text.len() {
        if text[0] == '+' {
            assert(digits[i - 1] == text[i]);
        } else {
            assert(digits[i] == text[i]);
        }
    } else if i == 0 && text.len() > 0 && text[0] != '+' {
        assert(digits[0] == text[0]);
    }
    assert(seq!['+'].skip(1) =~= Seq::<char>::empty());
}

/// The digits of a number are those of its tens and then its last one; a minus
/// sign stands before a negative number.
pub proof fn digits_stand_for_powers_of_ten(tens: nat, last: nat)
    requires
        tens > 0,
        last < 10,
    ensures
        decimal(10 * tens + last) == decimal(tens) + seq![
            seq!['0', '1', '2', '3', '4', '5', '6', '7', '8', '9'][last as int],
        ],
        decimal(last) == seq![
            seq!['0', '1', '2', '3', '4', '5', '6', '7', '8', '9'][last as int],
        ],
        signed_decimal(-(tens as int)) == seq!['-'] + decimal(tens),
        signed_decimal(tens as int) == decimal(tens),
{
    let n = 10 * tens + last;
    let digits = seq!['0', '1', '2', '3', '4', '5', '6', '7', '8', '9'];
    assert(digits[0] == '0' && digits[1] == '1' && digits[2] == '2' && digits[3] == '3');
    assert(digits[4] == '4' && digits[5] == '5' && digits[6] == '6' && digits[7] == '7');
    assert(digits[8] == '8' && digits[9] == '9');
    assert(digit_char(last as int) == digits[last as int]);
    assert(n / 10 == tens && n % 10 == last);
    assert(decimal(n) =~= decimal(tens) + seq![digits[last as int]]);
}

} // verus!
