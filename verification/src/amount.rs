//! Amounts as text: the decimal digits of an amount, and the amount that a
//! text of digits stands for.

use crate::error::ContractError;
use vstd::prelude::*;
use vstd::string::*;
use vstd::utf8::encode_utf8;

verus! {

/// The character of one decimal digit.
pub open spec fn digit(d: nat) -> char {
    if d == 0 {
        '0'
    } else if d == 1 {
        '1'
    } else if d == 2 {
        '2'
    } else if d == 3 {
        '3'
    } else if d == 4 {
        '4'
    } else if d == 5 {
        '5'
    } else if d == 6 {
        '6'
    } else if d == 7 {
        '7'
    } else if d == 8 {
        '8'
    } else {
        '9'
    }
}

/// The decimal digits of a number, the most significant first, with no
/// leading zero but for zero itself.
pub open spec fn decimal(n: nat) -> Seq<char>
    decreases n,
{
    if n < 10 {
        seq![digit(n)]
    } else {
        decimal(n / 10).push(digit(n % 10))
    }
}

fn digit_text(d: u8) -> (text: &'static str)
    requires
        d < 10,
    ensures
        text@ == seq![digit(d as nat)],
{
    proof {
        reveal_strlit("0");
        reveal_strlit("1");
        reveal_strlit("2");
        reveal_strlit("3");
        reveal_strlit("4");
        reveal_strlit("5");
        reveal_strlit("6");
        reveal_strlit("7");
        reveal_strlit("8");
        reveal_strlit("9");
    }
    let text = if d == 0 {
        "0"
    } else if d == 1 {
        "1"
    } else if d == 2 {
        "2"
    } else if d == 3 {
        "3"
    } else if d == 4 {
        "4"
    } else if d == 5 {
        "5"
    } else if d == 6 {
        "6"
    } else if d == 7 {
        "7"
    } else if d == 8 {
        "8"
    } else {
        "9"
    };
    assert(text@ =~= seq![digit(d as nat)]);
    text
}

fn push_decimal(text: &mut String, amount: u128)
    ensures
        final(text)@ == old(text)@ + decimal(amount as nat),
    decreases amount,
{
    if amount >= 10 {
        push_decimal(text, amount / 10);
    }
    let last: u8 = (amount % 10) as u8;
    text.append(digit_text(last));
    assert(text@ =~= old(text)@ + decimal(amount as nat));
}

/// The amount in decimal digits.
pub fn to_decimal(amount: u128) -> (text: String)
    ensures
        text@ == decimal(amount as nat),
{
    let mut text = String::new();
    push_decimal(&mut text, amount);
    assert(text@ =~= decimal(amount as nat));
    text
}

/// Whether the bytes are decimal digits, and at least one.
pub open spec fn is_digits(bytes: Seq<u8>) -> bool {
    bytes.len() > 0 && forall|i: int| 0 <= i < bytes.len() ==> 0x30 <= #[trigger] bytes[i] <= 0x39
}

/// The number that a row of digit bytes stands for.
pub open spec fn digits_value(bytes: Seq<u8>) -> nat
    decreases bytes.len(),
{
    if bytes.len() == 0 {
        0
    } else {
        digits_value(bytes.drop_last()) * 10 + (bytes.last() - 0x30) as nat
    }
}

/// The bytes without a plus sign in front of them, if there is one.
pub open spec fn unsigned(bytes: Seq<u8>) -> Seq<u8> {
    if bytes.len() > 0 && bytes[0] == 0x2b {
        bytes.drop_first()
    } else {
        bytes
    }
}

/// The amount that the bytes of a text stand for: decimal digits, at least
/// one, with or without one plus sign before them, whose number is in the
/// range of an amount. `None` for every other text.
pub open spec fn parsed(bytes: Seq<u8>) -> Option<u128> {
    if is_digits(unsigned(bytes)) && digits_value(unsigned(bytes)) <= u128::MAX {
        Some(digits_value(unsigned(bytes)) as u128)
    } else {
        None
    }
}

/// A row of digits stands for no less than any of its beginnings.
pub proof fn lemma_digits_value_grows(bytes: Seq<u8>, n: int)
    requires
        is_digits(bytes),
        0 <= n <= bytes.len(),
    ensures
        digits_value(bytes.subrange(0, n)) <= digits_value(bytes),
    decreases bytes.len(),
{
    if n == bytes.len() {
        assert(bytes.subrange(0, n) =~= bytes);
    } else if bytes.len() == 1 {
        assert(bytes.subrange(0, n) =~= Seq::<u8>::empty());
    } else {
        assert(bytes.drop_last().subrange(0, n) =~= bytes.subrange(0, n));
        assert forall|i: int| 0 <= i < bytes.drop_last().len() implies 0x30
            <= #[trigger] bytes.drop_last()[i] <= 0x39 by {
            assert(bytes.drop_last()[i] == bytes[i]);
        }
        lemma_digits_value_grows(bytes.drop_last(), n);
    }
}

/// The characters of a text as bytes, one byte for each.
pub open spec fn ascii_bytes(text: Seq<char>) -> Seq<u8> {
    Seq::new(text.len(), |i: int| text[i] as u8)
}

/// The decimal digits of a number are digits, and stand for the number.
pub proof fn lemma_decimal_is_digits(n: nat)
    ensures
        is_digits(ascii_bytes(decimal(n))),
        digits_value(ascii_bytes(decimal(n))) == n,
        vstd::utf8::is_ascii_chars(decimal(n)),
    decreases n,
{
    let bytes = ascii_bytes(decimal(n));
    if n < 10 {
        assert(bytes.drop_last() =~= Seq::<u8>::empty());
        assert(digits_value(bytes.drop_last()) == 0);
        assert(bytes.last() == 0x30 + n);
    } else {
        lemma_decimal_is_digits(n / 10);
        assert(bytes.drop_last() =~= ascii_bytes(decimal(n / 10)));
        assert(bytes.last() == 0x30 + n % 10);
        assert(digits_value(bytes) == digits_value(bytes.drop_last()) * 10 + n % 10);
        assert forall|i: int| 0 <= i < bytes.len() implies 0x30 <= #[trigger] bytes[i] <= 0x39 by {
            if i < bytes.len() - 1 {
                assert(bytes[i] == ascii_bytes(decimal(n / 10))[i]);
            }
        }
        assert forall|i: int| 0 <= i < decimal(n).len() implies '\0' <= #[trigger] decimal(n)[i]
            <= '\u{7f}' by {
            if i < decimal(n).len() - 1 {
                assert(decimal(n)[i] == decimal(n / 10)[i]);
            }
        }
    }
}

/// The text that [`to_decimal`] gives for an amount reads back as that
/// amount.
pub proof fn law_decimal_reads_back(amount: u128)
    ensures
        parsed(encode_utf8(decimal(amount as nat))) == Some(amount),
{
    lemma_decimal_is_digits(amount as nat);
    vstd::utf8::is_ascii_chars_encode_utf8(decimal(amount as nat));
    assert(encode_utf8(decimal(amount as nat)) =~= ascii_bytes(decimal(amount as nat)));
}

/// Reads an amount from its text: the caller's error where the text is no
/// amount.
pub fn parse_amount(text: &str) -> (r: Result<u128, ContractError>)
    ensures
        match parsed(encode_utf8(text@)) {
            Some(amount) => r == Ok::<u128, ContractError>(amount),
            None => r == Err::<u128, ContractError>(ContractError::Validation),
        },
{
    let bytes = text.as_bytes();
    let start: usize = if bytes.len() > 0 && bytes[0] == 0x2b {
        1
    } else {
        0
    };
    let ghost digits = unsigned(bytes@);
    assert(digits =~= bytes@.subrange(start as int, bytes@.len() as int));
    if start == bytes.len() {
        return Err(ContractError::Validation);
    }
    let mut value: u128 = 0;
    let mut i: usize = start;
    while i < bytes.len()
        invariant
            start <= i <= bytes.len(),
            start < bytes.len(),
            bytes@ == encode_utf8(text@),
            digits == unsigned(bytes@),
            digits == bytes@.subrange(start as int, bytes@.len() as int),
            forall|j: int| 0 <= j < i - start ==> 0x30 <= #[trigger] digits[j] <= 0x39,
            value == digits_value(digits.subrange(0, i - start)),
        decreases bytes.len() - i,
    {
        let byte = bytes[i];
        assert(byte == digits[i - start]);
        if byte < 0x30 || byte > 0x39 {
            return Err(ContractError::Validation);
        }
        let digit: u128 = (byte - 0x30) as u128;
        proof {
            assert(digits.subrange(0, i - start + 1).drop_last() =~= digits.subrange(
                0,
                i - start,
            ));
            if is_digits(digits) {
                lemma_digits_value_grows(digits, i - start + 1);
            }
        }
        let tenfold = match value.checked_mul(10) {
            Some(tenfold) => tenfold,
            None => {
                return Err(ContractError::Validation);
            },
        };
        value = match tenfold.checked_add(digit) {
            Some(next) => next,
            None => {
                return Err(ContractError::Validation);
            },
        };
        i += 1;
    }
    assert(digits.subrange(0, i - start) =~= digits);
    Ok(value)
}

} // verus!
