//! What numbers mean as they are written.

use crate::text::{address_text, byte_text, decimal, digits, zero_padded};
use vstd::prelude::*;

verus! {

/// The value of a digit; none for other characters.
pub open spec fn digit_value(c: char) -> Option<int> {
    if '0' <= c && c <= '9' {
        Some(c as int - '0' as int)
    } else if 'A' <= c && c <= 'F' {
        Some(c as int - 'A' as int + 10)
    } else {
        None
    }
}

/// Every character of a text is a digit of a base.
pub open spec fn all_digits(text: Seq<char>, base: int) -> bool {
    forall|i: int|
        0 <= i < text.len() ==> (digit_value(#[trigger] text[i]) matches Some(d) && 0 <= d < base)
}

/// The number that a text of digits denotes.
pub open spec fn value_of(text: Seq<char>, base: int) -> int
    decreases text.len(),
{
    if text.len() == 0 {
        0
    } else {
        value_of(text.drop_last(), base) * base + digit_value(text.last())->0
    }
}

/// A number is written with the digits that denote it, and without leading zeros.
pub proof fn law_digits_denote_the_number(n: int, base: int)
    requires
        0 <= n,
        2 <= base <= 16,
    ensures
        digits(n, base).len() > 0,
        all_digits(digits(n, base), base),
        value_of(digits(n, base), base) == n,
        digits(n, base)[0] == '0' ==> digits(n, base).len() == 1,
    decreases n,
{
    let text = digits(n, base);
    if n < base {
        reveal_with_fuel(value_of, 2);
        assert(text.drop_last() =~= Seq::empty());
        assert(text.len() == 1);
    } else {
        crate::text::lemma_quotient(n, base);
        vstd::arithmetic::div_mod::lemma_fundamental_div_mod(n, base);
        let q = n / base;
        law_digits_denote_the_number(q, base);
        assert(text.drop_last() =~= digits(q, base));
        assert(base * q == q * base) by (nonlinear_arith);
        assert(digits(q, base)[0] == '0' ==> q < 1) by {
            if digits(q, base)[0] == '0' {
                reveal_with_fuel(value_of, 2);
                assert(digits(q, base).drop_last() =~= Seq::empty());
            }
        }
        assert(q >= 1) by (nonlinear_arith)
            requires
                n == base * q + n % base,
                n % base < base,
                n >= base,
        ;
        assert(text[0] == digits(q, base)[0]);
        assert forall|i: int| 0 <= i < text.len() implies (digit_value(#[trigger] text[i]) matches
            Some(d) && 0 <= d < base) by {
            if i < digits(q, base).len() {
                assert(text[i] == digits(q, base)[i]);
            }
        }
    }
}

/// Zeros in front do not change the number.
proof fn lemma_zeros_in_front(zeros: nat, text: Seq<char>, base: int)
    ensures
        value_of(Seq::new(zeros, |i: int| '0') + text, base) == value_of(text, base),
    decreases zeros + text.len(),
{
    let front = Seq::new(zeros, |i: int| '0');
    let whole = front + text;
    if text.len() > 0 {
        lemma_zeros_in_front(zeros, text.drop_last(), base);
        assert(whole.drop_last() =~= front + text.drop_last());
    } else if zeros > 0 {
        let fewer = Seq::new((zeros - 1) as nat, |i: int| '0');
        lemma_zeros_in_front((zeros - 1) as nat, text, base);
        assert(whole.drop_last() =~= fewer + text);
        assert(whole.last() == '0');
        assert(0 * base == 0);
    } else {
        assert(whole =~= text);
    }
}

/// Padded text is as wide as asked for, or not padded, and denotes the same.
proof fn lemma_padded(n: int, width: int)
    requires
        0 <= n,
    ensures
        ({
            let text = zero_padded(digits(n, 16), width);
            &&& all_digits(text, 16)
            &&& value_of(text, 16) == n
            &&& text.len() >= width
            &&& text.len() > width && text.len() > 1 ==> text[0] != '0'
        }),
{
    law_digits_denote_the_number(n, 16);
    let bare = digits(n, 16);
    let text = zero_padded(bare, width);
    if bare.len() < width {
        let zeros = (width - bare.len()) as nat;
        lemma_zeros_in_front(zeros, bare, 16);
        assert forall|i: int| 0 <= i < text.len() implies (digit_value(#[trigger] text[i]) matches
            Some(d) && 0 <= d < 16) by {
            if i >= zeros {
                assert(text[i] == bare[i - zeros]);
            }
        }
    }
}

/// A position is written in hexadecimal digits that denote it, eight of them or as
/// many more as it takes.
pub proof fn law_address_denotes_the_position(position: int)
    requires
        0 <= position,
    ensures
        all_digits(address_text(position), 16),
        value_of(address_text(position), 16) == position,
        address_text(position).len() >= 8,
        address_text(position).len() > 8 ==> address_text(position)[0] != '0',
{
    lemma_padded(position, 8);
}

/// A byte is written in two hexadecimal digits that denote it.
pub proof fn law_byte_text_denotes_the_byte(byte: u8)
    ensures
        all_digits(byte_text(byte), 16),
        value_of(byte_text(byte), 16) == byte,
        byte_text(byte).len() == 2,
{
    lemma_padded(byte as int, 2);
    reveal_with_fuel(digits, 3);
    assert(byte as int / 16 < 16);
}

/// A number is written in decimal digits that denote it, without leading zeros,
/// behind a minus sign if it is negative.
pub proof fn law_decimal_denotes_the_number(n: int)
    ensures
        n >= 0 ==> {
            &&& decimal(n).len() > 0
            &&& all_digits(decimal(n), 10)
            &&& value_of(decimal(n), 10) == n
            &&& decimal(n)[0] == '0' ==> decimal(n).len() == 1
        },
        n < 0 ==> {
            &&& decimal(n).len() > 1
            &&& decimal(n)[0] == '-'
            &&& all_digits(decimal(n).skip(1), 10)
            &&& value_of(decimal(n).skip(1), 10) == -n
            &&& decimal(n)[1] != '0'
        },
{
    if n >= 0 {
        law_digits_denote_the_number(n, 10);
    } else {
        law_digits_denote_the_number(-n, 10);
        assert(decimal(n).skip(1) =~= digits(-n, 10));
        if digits(-n, 10)[0] == '0' {
            reveal_with_fuel(value_of, 2);
            assert(digits(-n, 10).drop_last() =~= Seq::empty());
        }
        assert(decimal(n)[1] == digits(-n, 10)[0]);
    }
}

} // verus!
