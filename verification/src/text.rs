//! Numbers as they are written in the window.

use vstd::prelude::*;

verus! {

/// `String::push` adds the character at the end of the string.
pub assume_specification[ String::push ](s: &mut String, c: char)
    ensures
        final(s)@ == old(s)@.push(c),
;

/// A digit, from `0` to `9` and on from `A` to `F`.
pub open spec fn digit_char(digit: int) -> char {
    if digit < 10 {
        ('0' as int + digit) as char
    } else {
        ('A' as int + digit - 10) as char
    }
}

/// A number in positional notation, without leading zeros.
pub open spec fn digits(n: int, base: int) -> Seq<char>
    decreases n,
{
    if base < 2 || n < base {
        seq![digit_char(n)]
    } else {
        proof {
            lemma_quotient(n, base);
        }
        digits(n / base, base).push(digit_char(n % base))
    }
}

/// A number without its last digit is smaller.
pub proof fn lemma_quotient(n: int, base: int)
    requires
        2 <= base <= n,
    ensures
        0 <= n / base < n,
{
    vstd::arithmetic::div_mod::lemma_div_decreases(n, base);
    vstd::arithmetic::div_mod::lemma_div_pos_is_pos(n, base);
}

/// Text that is filled up to a width with zeros in front.
pub open spec fn zero_padded(text: Seq<char>, width: int) -> Seq<char> {
    if text.len() >= width {
        text
    } else {
        Seq::new((width - text.len()) as nat, |i: int| '0') + text
    }
}

/// A number in decimal notation.
pub open spec fn decimal(n: int) -> Seq<char> {
    if n < 0 {
        seq!['-'] + digits(-n, 10)
    } else {
        digits(n, 10)
    }
}

/// A position in a file: in hexadecimal notation, of eight digits or more.
pub open spec fn address_text(position: int) -> Seq<char> {
    zero_padded(digits(position, 16), 8)
}

/// A byte: in hexadecimal notation, of two digits.
pub open spec fn byte_text(byte: u8) -> Seq<char> {
    zero_padded(digits(byte as int, 16), 2)
}

/// Writes a number at the end of a text.
pub fn push_digits(out: &mut String, n: usize, base: usize)
    requires
        2 <= base <= 16,
    ensures
        final(out)@ == old(out)@ + digits(n as int, base as int),
    decreases n,
{
    let ghost before = out@;
    let digit: u8 = (n % base) as u8;
    if n >= base {
        proof {
            lemma_quotient(n as int, base as int);
        }
        push_digits(out, n / base, base);
    } else {
        assert(n as int % base as int == n) by {
            vstd::arithmetic::div_mod::lemma_small_mod(n as nat, base as nat);
        }
    }
    let c: char = if digit < 10 {
        ('0' as u8 + digit) as char
    } else {
        ('A' as u8 + (digit - 10)) as char
    };
    assert(c == digit_char(n as int % base as int));
    out.push(c);
    assert(out@ =~= before + digits(n as int, base as int));
}

/// The number of digits that a number has.
fn count_digits(n: usize, base: usize) -> (count: usize)
    requires
        2 <= base <= 16,
    ensures
        count == digits(n as int, base as int).len(),
        count <= n || count == 1,
    decreases n,
{
    if n >= base {
        proof {
            lemma_quotient(n as int, base as int);
        }
        count_digits(n / base, base) + 1
    } else {
        1
    }
}

/// Writes a number in hexadecimal notation, filled up with zeros.
fn padded_hex(n: usize, width: usize) -> (text: String)
    ensures
        text@ == zero_padded(digits(n as int, 16), width as int),
{
    let mut text = String::new();
    let mut at: usize = count_digits(n, 16);
    let ghost len = at;
    while at < width
        invariant
            text@ =~= Seq::new((at - len) as nat, |i: int| '0'),
            len <= at,
            len < width ==> at <= width,
            len >= width ==> at == len,
        decreases width - at,
    {
        text.push('0');
        at += 1;
    }
    push_digits(&mut text, n, 16);
    assert(text@ =~= zero_padded(digits(n as int, 16), width as int));
    text
}

/// Writes a position in a file.
pub fn format_address(position: usize) -> (text: String)
    ensures
        text@ == address_text(position as int),
{
    padded_hex(position, 8)
}

/// Writes a byte.
pub fn format_byte(byte: u8) -> (text: String)
    ensures
        text@ == byte_text(byte),
{
    padded_hex(byte as usize, 2)
}

/// Writes a number with a sign at the end of a text.
pub fn push_signed(out: &mut String, n: i32)
    ensures
        final(out)@ == old(out)@ + decimal(n as int),
{
    let ghost before = out@;
    if n < 0 {
        out.push('-');
        push_digits(out, (-(n as i64)) as usize, 10);
    } else {
        push_digits(out, n as usize, 10);
    }
    assert(out@ =~= before + decimal(n as int));
}

} // verus!
