//! Numbers and their digits.
use vstd::prelude::*;

use crate::text::{decimal_text, hex_digit, hex_text};
use crate::tree::{digit_of, integer_of, number_of, unsigned_of};

verus! {

/// Digits are told apart by their characters.
pub proof fn lemma_digits_differ(left: int, right: int)
    requires
        0 <= left < 16,
        0 <= right < 16,
        hex_digit(left) == hex_digit(right),
    ensures
        left == right,
{
    assert(hex_digit(left) as int == if left < 10 { 48 + left } else { 87 + left });
    assert(hex_digit(right) as int == if right < 10 { 48 + right } else { 87 + right });
}

/// Numbers are told apart by their decimal digits, none of which is a hyphen.
pub proof fn lemma_decimals_differ(left: nat, right: nat)
    ensures
        decimal_text(left) == decimal_text(right) ==> left == right,
        decimal_text(left).len() > 0,
        forall|i: int| 0 <= i < decimal_text(left).len() ==> #[trigger] decimal_text(left)[i] != '-',
    decreases left,
{
    assert(hex_digit((left % 10) as int) as int == 48 + left % 10);
    assert(hex_digit((right % 10) as int) as int == 48 + right % 10);
    if left >= 10 {
        lemma_decimals_differ(left / 10, right / 10);
        if decimal_text(left) == decimal_text(right) {
            if right < 10 {
                assert(decimal_text(left).len() > 1);
            } else {
                assert(decimal_text(left).last() == decimal_text(right).last());
                assert(decimal_text(left).drop_last() =~= decimal_text(left / 10));
                assert(decimal_text(right).drop_last() =~= decimal_text(right / 10));
                lemma_digits_differ((left % 10) as int, (right % 10) as int);
            }
        }
    } else if decimal_text(left) == decimal_text(right) {
        if right >= 10 {
            lemma_decimals_nonempty(right / 10);
            assert(decimal_text(right).len() > 1);
        } else {
            assert(decimal_text(left)[0] == decimal_text(right)[0]);
            lemma_digits_differ(left as int, right as int);
        }
    }
}

/// A number has a digit.
proof fn lemma_decimals_nonempty(number: nat)
    ensures
        decimal_text(number).len() > 0,
    decreases number,
{
    if number >= 10 {
        lemma_decimals_nonempty(number / 10);
    }
}

/// The digits of a number have no slash among them.
pub proof fn lemma_decimals_without_slash(number: nat)
    ensures
        forall|i: int| 0 <= i < decimal_text(number).len() ==> #[trigger] decimal_text(number)[i] != '/',
    decreases number,
{
    assert(hex_digit((number % 10) as int) as int == 48 + number % 10);
    if number >= 10 {
        lemma_decimals_without_slash(number / 10);
    }
    assert forall|i: int| 0 <= i < decimal_text(number).len() implies #[trigger] decimal_text(number)[i] != '/' by {
        if number >= 10 && i < decimal_text(number).len() - 1 {
            assert(decimal_text(number)[i] == decimal_text(number / 10)[i]);
        }
    }
}

/// A number that is written in decimal is read back as that number.
pub proof fn law_decimals_are_read_back(number: u64)
    ensures
        unsigned_of(decimal_text(number as nat), 10) == Some(number),
{
    let text = decimal_text(number as nat);
    lemma_decimal_value(number as nat);
    lemma_decimals_differ(number as nat, number as nat);
    lemma_first_digit(number as nat);
    assert(integer_of(text, 10) == Some(number as int));
}

proof fn lemma_first_digit(number: nat)
    ensures
        decimal_text(number).len() > 0,
        48 <= decimal_text(number)[0] as int <= 57,
    decreases number,
{
    assert(hex_digit((number % 10) as int) as int == 48 + number % 10);
    if number >= 10 {
        lemma_first_digit(number / 10);
    }
}

proof fn lemma_decimal_value(number: nat)
    ensures
        number_of(decimal_text(number), 10) == Some(number),
    decreases number,
{
    let text = decimal_text(number);
    let digit = hex_digit((number % 10) as int);
    assert(digit as int == 48 + number % 10);
    assert(digit_of(digit) == Some(number % 10));
    if number < 10 {
        assert(text.drop_last() =~= Seq::<char>::empty());
        reveal_with_fuel(number_of, 2);
    } else {
        lemma_decimal_value(number / 10);
        assert(text.drop_last() =~= decimal_text(number / 10));
        assert(text.last() == digit);
        assert(number == (number / 10) * 10 + number % 10) by (nonlinear_arith);
    }
}

/// The digits of a byte in hexadecimal stand for its value, the high one first.
pub proof fn law_hexadecimal_digits_stand_for_bytes(bytes: Seq<u8>, i: int)
    requires
        0 <= i < bytes.len(),
    ensures
        hex_text(bytes).len() == 2 * bytes.len(),
        digit_of(hex_text(bytes)[2 * i]) matches Some(high) && digit_of(hex_text(bytes)[2 * i + 1]) matches Some(low)
            && high < 16 && low < 16 && bytes[i] as int == 16 * high + low,
{
    let byte = bytes[i] as int;
    let even = 2 * i;
    let odd = 2 * i + 1;
    assert(even / 2 == i && even % 2 == 0 && odd / 2 == i && odd % 2 == 1);
    assert(hex_text(bytes)[even] == hex_digit(byte / 16));
    assert(hex_text(bytes)[odd] == hex_digit(byte % 16));
    assert(hex_digit(byte / 16) as int == if byte / 16 < 10 { 48 + byte / 16 } else { 87 + byte / 16 });
    assert(hex_digit(byte % 16) as int == if byte % 16 < 10 { 48 + byte % 16 } else { 87 + byte % 16 });
    assert(digit_of(hex_digit(byte / 16)) == Some((byte / 16) as nat));
    assert(digit_of(hex_digit(byte % 16)) == Some((byte % 16) as nat));
}

}
