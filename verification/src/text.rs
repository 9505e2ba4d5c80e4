//! Rendering of bytes and numbers as ASCII text: lower-case hexadecimal and
//! decimal, plain or zero-padded to a minimum width.
//!
//! Each renderer appends to a `String` and is specified by a `Seq<char>`
//! valued function of the same name with `_text` at the end.

use vstd::prelude::*;

verus! {

/// `String::push` appends one character. Trusted: the standard library
/// documents it as appending the given `char` to the end of the string.
pub assume_specification[ String::push ](s: &mut String, ch: char)
    ensures
        final(s)@ == old(s)@.push(ch),
;

/// The character for one decimal digit.
pub open spec fn digit_char(digit: nat) -> char
    recommends
        digit < 10,
{
    ('0' as nat + digit) as char
}

/// The character for one hexadecimal digit, lower case.
pub open spec fn hex_char(digit: nat) -> char
    recommends
        digit < 16,
{
    if digit < 10 {
        digit_char(digit)
    } else {
        ('a' as nat + digit - 10) as char
    }
}

/// `'0'` to `'9'`.
pub open spec fn is_decimal_digit(ch: char) -> bool {
    '0' <= ch <= '9'
}

/// `'0'` to `'9'` or `'a'` to `'f'`.
pub open spec fn is_lower_hex_digit(ch: char) -> bool {
    is_decimal_digit(ch) || 'a' <= ch <= 'f'
}

/// Two lower-case hexadecimal digits per byte, high nibble first, in the
/// order of the bytes.
pub open spec fn hex_text(bytes: Seq<u8>) -> Seq<char> {
    Seq::new(
        2 * bytes.len(),
        |i: int|
            if i % 2 == 0 {
                hex_char((bytes[i / 2] / 16) as nat)
            } else {
                hex_char((bytes[i / 2] % 16) as nat)
            },
    )
}

/// The decimal digits of `n`, most significant first, without leading zeros
/// (zero itself is `"0"`).
pub open spec fn decimal_text(n: nat) -> Seq<char>
    decreases n,
{
    if n < 10 {
        seq![digit_char(n)]
    } else {
        decimal_text(n / 10).push(digit_char(n % 10))
    }
}

/// `count` zero characters.
pub open spec fn zeros_text(count: nat) -> Seq<char> {
    Seq::new(count, |i: int| '0')
}

/// The decimal digits of `n`, with zeros in front where there are fewer than
/// `width` of them. A number with more digits than `width` is not cut.
pub open spec fn padded_decimal_text(n: nat, width: nat) -> Seq<char> {
    let digits = decimal_text(n);
    if digits.len() < width {
        zeros_text((width - digits.len()) as nat) + digits
    } else {
        digits
    }
}

/// Ten to the power `exp`.
pub open spec fn pow10(exp: nat) -> nat
    decreases exp,
{
    if exp == 0 {
        1
    } else {
        10 * pow10((exp - 1) as nat)
    }
}

/// Hexadecimal text has two characters per byte, each a lower-case
/// hexadecimal digit.
pub proof fn lemma_hex_text_shape(bytes: Seq<u8>)
    ensures
        hex_text(bytes).len() == 2 * bytes.len(),
        forall|i: int| 0 <= i < 2 * bytes.len() ==> is_lower_hex_digit(#[trigger] hex_text(bytes)[i]),
{
}

/// Hexadecimal text of a longer run is the text of its parts, joined.
pub proof fn lemma_hex_text_concat(front: Seq<u8>, back: Seq<u8>)
    ensures
        hex_text(front + back) == hex_text(front) + hex_text(back),
{
    let joined = front + back;
    assert forall|i: int| 0 <= i < 2 * joined.len() implies hex_text(joined)[i] == (hex_text(front)
        + hex_text(back))[i] by {
        if i < 2 * front.len() {
            assert(joined[i / 2] == front[i / 2]);
        } else {
            let j = i - 2 * front.len();
            assert(j / 2 == i / 2 - front.len());
            assert(j % 2 == i % 2);
            assert(joined[i / 2] == back[j / 2]);
        }
    }
    assert(hex_text(joined) =~= hex_text(front) + hex_text(back));
}

/// Decimal text is made of digits, has at least one, and starts with a zero
/// only for zero itself.
pub proof fn lemma_decimal_text_shape(n: nat)
    ensures
        decimal_text(n).len() >= 1,
        forall|i: int| 0 <= i < decimal_text(n).len() ==> is_decimal_digit(#[trigger] decimal_text(n)[i]),
        n > 0 ==> decimal_text(n)[0] != '0',
    decreases n,
{
    if n >= 10 {
        lemma_decimal_text_shape(n / 10);
    }
}

/// A number below `10^digits` has at most `digits` decimal digits.
pub proof fn lemma_decimal_text_len(n: nat, digits: nat)
    requires
        digits >= 1,
        n < pow10(digits),
    ensures
        decimal_text(n).len() <= digits,
    decreases digits,
{
    if n >= 10 {
        assert(pow10(1) == 10) by {
            assert(pow10(0) == 1);
        }
        assert(digits >= 2);
        lemma_decimal_text_len(n / 10, (digits - 1) as nat);
    }
}

/// Padded text is made of digits and is as long as the longer of the width
/// and the plain decimal text.
pub proof fn lemma_padded_decimal_text_shape(n: nat, width: nat)
    ensures
        padded_decimal_text(n, width).len() >= width,
        padded_decimal_text(n, width).len() >= decimal_text(n).len(),
        padded_decimal_text(n, width).len() == width || padded_decimal_text(n, width).len()
            == decimal_text(n).len(),
        forall|i: int|
            0 <= i < padded_decimal_text(n, width).len() ==> is_decimal_digit(
                #[trigger] padded_decimal_text(n, width)[i],
            ),
{
    lemma_decimal_text_shape(n);
}

/// A number below `10^width` pads to exactly `width` digits.
pub proof fn lemma_padded_decimal_text_len(n: nat, width: nat)
    requires
        width >= 1,
        n < pow10(width),
    ensures
        padded_decimal_text(n, width).len() == width,
{
    lemma_decimal_text_len(n, width);
}

/// One decimal digit as its character.
fn decimal_digit(digit: u8) -> (ch: char)
    requires
        digit < 10,
    ensures
        ch == digit_char(digit as nat),
{
    ('0' as u8 + digit) as char
}

/// One hexadecimal digit as its lower-case character.
fn hex_digit(digit: u8) -> (ch: char)
    requires
        digit < 16,
    ensures
        ch == hex_char(digit as nat),
{
    if digit < 10 {
        decimal_digit(digit)
    } else {
        ('a' as u8 + (digit - 10)) as char
    }
}

/// Appends the two hexadecimal digits of `byte` to `out`.
pub fn push_hex_byte(out: &mut String, byte: u8)
    ensures
        final(out)@ == old(out)@ + hex_text(seq![byte]),
{
    out.push(hex_digit(byte / 16));
    out.push(hex_digit(byte % 16));
    assert(out@ =~= old(out)@ + hex_text(seq![byte]));
}

/// The number of decimal digits of `n`.
pub fn decimal_len(n: u64) -> (len: usize)
    ensures
        len == decimal_text(n as nat).len(),
        1 <= len <= 20,
{
    let mut len: usize = 1;
    let mut rest: u64 = n;
    proof {
        assert(pow10(20) == 100_000_000_000_000_000_000nat) by {
            reveal_with_fuel(pow10, 21);
        }
        lemma_decimal_text_len(n as nat, 20);
        lemma_decimal_text_shape(n as nat);
    }
    while rest >= 10
        invariant
            len >= 1,
            decimal_text(n as nat).len() == decimal_text(rest as nat).len() + len - 1,
            decimal_text(n as nat).len() <= 20,
        decreases rest,
    {
        proof {
            lemma_decimal_text_shape((rest / 10) as nat);
        }
        rest = rest / 10;
        len = len + 1;
    }
    len
}

/// Appends `n` in decimal to `out`.
pub fn push_decimal(out: &mut String, n: u64)
    ensures
        final(out)@ == old(out)@ + decimal_text(n as nat),
    decreases n,
{
    if n >= 10 {
        push_decimal(out, n / 10);
    }
    out.push(decimal_digit((n % 10) as u8));
    assert(out@ =~= old(out)@ + decimal_text(n as nat));
}

/// Appends `n` in decimal to `out`, with zeros in front up to `width` digits.
pub fn push_padded_decimal(out: &mut String, n: u64, width: usize)
    ensures
        final(out)@ == old(out)@ + padded_decimal_text(n as nat, width as nat),
{
    let digits = decimal_len(n);
    let mut written: usize = digits;
    while written < width
        invariant
            digits <= written,
            written <= width || written == digits,
            out@ == old(out)@ + zeros_text((written - digits) as nat),
        decreases width - written,
    {
        out.push('0');
        written = written + 1;
        assert(out@ =~= old(out)@ + zeros_text((written - digits) as nat));
    }
    push_decimal(out, n);
    assert(out@ =~= old(out)@ + padded_decimal_text(n as nat, width as nat));
}

} // verus!
