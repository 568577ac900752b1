//! Decimal numbers as they stand in a line of text.

use vstd::prelude::*;
use vstd::string::StrSliceExecFns;

verus! {

/// Whether `c` is one of `0` to `9`.
pub open spec fn is_digit(c: char) -> bool {
    '0' <= c <= '9'
}

/// Whether `text` is made of digits, at least one.
pub open spec fn all_digits(text: Seq<char>) -> bool {
    text.len() > 0 && forall|i: int| 0 <= i < text.len() ==> is_digit(#[trigger] text[i])
}

/// The number that a run of digits writes in base ten.
pub open spec fn decimal_value(digits: Seq<char>) -> nat
    decreases digits.len(),
{
    if digits.len() == 0 {
        0
    } else {
        decimal_value(digits.drop_last()) * 10 + (digits.last() as nat - '0' as nat) as nat
    }
}

/// A longer run of digits writes a number that is no smaller than the one
/// that its start writes.
pub proof fn lemma_decimal_value_grows(digits: Seq<char>, upto: int)
    requires
        0 <= upto <= digits.len(),
        forall|i: int| 0 <= i < digits.len() ==> is_digit(#[trigger] digits[i]),
    ensures
        decimal_value(digits.take(upto)) <= decimal_value(digits),
    decreases digits.len() - upto,
{
    if upto == digits.len() {
        assert(digits.take(upto) =~= digits);
    } else {
        let longer = digits.take(upto + 1);
        assert(longer.drop_last() =~= digits.take(upto));
        assert(is_digit(digits[upto]));
        assert(longer.last() == digits[upto]);
        lemma_decimal_value_grows(digits, upto + 1);
    }
}

/// Reads a run of digits as a number. Gives `None` for text that holds
/// anything but digits, for empty text, and for a number too large to hold.
pub fn parse_decimal(text: &str) -> (value: Option<usize>)
    ensures
        value is Some <==> all_digits(text@) && decimal_value(text@) <= usize::MAX,
        value is Some ==> value->Some_0 == decimal_value(text@),
{
    if !text.is_ascii() {
        return None;
    }
    let len = text.unicode_len();
    if len == 0 {
        return None;
    }
    let mut value: usize = 0;
    let mut index: usize = 0;
    while index < len
        invariant
            index <= len,
            len == text@.len(),
            text.is_ascii(),
            forall|i: int| 0 <= i < index ==> is_digit(#[trigger] text@[i]),
            value == decimal_value(text@.take(index as int)),
        decreases len - index,
    {
        let byte = text.get_ascii(index);
        if byte < 48 || byte > 57 {
            assert(!is_digit(text@[index as int]));
            return None;
        }
        assert(is_digit(text@[index as int]));
        let ghost longer = text@.take(index as int + 1);
        proof {
            assert(longer.drop_last() =~= text@.take(index as int));
            assert(longer.last() == text@[index as int]);
        }
        let digit: usize = (byte - 48) as usize;
        let next = match value.checked_mul(10) {
            Some(tens) => tens.checked_add(digit),
            None => None,
        };
        match next {
            Some(next) => {
                value = next;
            },
            None => {
                proof {
                    assert(decimal_value(longer) > usize::MAX);
                    if all_digits(text@) {
                        lemma_decimal_value_grows(text@, index as int + 1);
                    }
                }
                return None;
            },
        }
        index = index + 1;
    }
    assert(text@.take(index as int) =~= text@);
    Some(value)
}

} // verus!
