//! Numbers as text.

use vstd::prelude::*;

verus! {

/// Appends one character to a string with `String::push`: afterwards the
/// string is what it was, followed by the character.
#[verifier::external_body]
pub(crate) fn push_char(s: &mut String, c: char)
    ensures
        final(s)@ == old(s)@.push(c),
{
    s.push(c)
}

/// The code of the character `0`.
pub const ZERO: u8 = 48;

/// The code of the character `A`.
pub const UPPER_A: u8 = 65;

/// The character of a decimal digit.
pub open spec fn digit_char(d: nat) -> char
    recommends
        d < 10,
{
    (ZERO + d) as char
}

/// The character of a hexadecimal digit, in upper case.
pub open spec fn hex_digit_char(d: nat) -> char
    recommends
        d < 16,
{
    if d < 10 {
        (ZERO + d) as char
    } else {
        (UPPER_A + (d - 10)) as char
    }
}

/// A number in upper-case hexadecimal, with leading zeros up to `width` digits.
pub open spec fn hex_text(n: nat, width: nat) -> Seq<char>
    decreases n, width,
{
    if n < 16 && width <= 1 {
        seq![hex_digit_char(n)]
    } else {
        hex_text(
            n / 16,
            if width > 0 {
                (width - 1) as nat
            } else {
                0
            },
        ).push(hex_digit_char(n % 16))
    }
}

/// A number in decimal.
pub open spec fn decimal_text(n: nat) -> Seq<char>
    decreases n,
{
    if n < 10 {
        seq![digit_char(n)]
    } else {
        decimal_text(n / 10).push(digit_char(n % 10))
    }
}

/// A number in decimal, with leading zeros up to `width` digits.
pub open spec fn padded_decimal_text(n: nat, width: nat) -> Seq<char>
    decreases n, width,
{
    if n < 10 && width <= 1 {
        seq![digit_char(n)]
    } else {
        padded_decimal_text(
            n / 10,
            if width > 0 {
                (width - 1) as nat
            } else {
                0
            },
        ).push(digit_char(n % 10))
    }
}

/// A signed number in decimal, with a minus sign if it is negative.
pub open spec fn signed_decimal_text(n: int) -> Seq<char> {
    if n < 0 {
        seq!['-'] + decimal_text((-n) as nat)
    } else {
        decimal_text(n as nat)
    }
}

/// The character of a decimal digit.
pub fn digit(d: u8) -> (c: char)
    requires
        d < 10,
    ensures
        c == digit_char(d as nat),
{
    (ZERO + d) as char
}

/// The character of a hexadecimal digit, in upper case.
pub fn hex_digit(d: u8) -> (c: char)
    requires
        d < 16,
    ensures
        c == hex_digit_char(d as nat),
{
    if d < 10 {
        (ZERO + d) as char
    } else {
        (UPPER_A + (d - 10)) as char
    }
}

/// Appends a number in upper-case hexadecimal, with leading zeros up to
/// `width` digits.
pub fn push_hex(s: &mut String, value: u64, width: usize)
    ensures
        final(s)@ == old(s)@ + hex_text(value as nat, width as nat),
    decreases value, width,
{
    if value >= 16 || width > 1 {
        push_hex(
            s,
            value / 16,
            if width > 0 {
                width - 1
            } else {
                0
            },
        );
    }
    push_char(s, hex_digit((value % 16) as u8));
    proof {
        let before = old(s)@;
        let head = hex_text(
            (value / 16) as nat,
            if width > 0 {
                (width - 1) as nat
            } else {
                0
            },
        );
        if value >= 16 || width > 1 {
            assert((before + head).push(hex_digit_char((value % 16) as nat)) =~= before
                + head.push(hex_digit_char((value % 16) as nat)));
        } else {
            assert(before.push(hex_digit_char(value as nat)) =~= before + seq![
                hex_digit_char(value as nat),
            ]);
        }
    }
}

/// Appends a number in decimal.
pub fn push_decimal(s: &mut String, value: u128)
    ensures
        final(s)@ == old(s)@ + decimal_text(value as nat),
    decreases value,
{
    if value >= 10 {
        push_decimal(s, value / 10);
    }
    push_char(s, digit((value % 10) as u8));
    proof {
        let before = old(s)@;
        if value >= 10 {
            let head = decimal_text((value / 10) as nat);
            assert((before + head).push(digit_char((value % 10) as nat)) =~= before + head.push(
                digit_char((value % 10) as nat),
            ));
        } else {
            assert(before.push(digit_char(value as nat)) =~= before + seq![
                digit_char(value as nat),
            ]);
        }
    }
}

/// Appends a signed number in decimal.
pub fn push_signed_decimal(s: &mut String, value: i64)
    ensures
        final(s)@ == old(s)@ + signed_decimal_text(value as int),
{
    if value < 0 {
        push_char(s, '-');
        let magnitude: u64 = if value == i64::MIN {
            0x8000_0000_0000_0000
        } else {
            (-value) as u64
        };
        push_decimal(s, magnitude as u128);
        proof {
            let before = old(s)@;
            assert(before.push('-') + decimal_text(magnitude as nat) =~= before + (seq!['-']
                + decimal_text(magnitude as nat)));
        }
    } else {
        push_decimal(s, value as u128);
    }
}

/// Appends a number in decimal, with leading zeros up to `width` digits.
pub fn push_padded_decimal(s: &mut String, value: u128, width: usize)
    ensures
        final(s)@ == old(s)@ + padded_decimal_text(value as nat, width as nat),
    decreases value, width,
{
    if value >= 10 || width > 1 {
        push_padded_decimal(
            s,
            value / 10,
            if width > 0 {
                width - 1
            } else {
                0
            },
        );
    }
    push_char(s, digit((value % 10) as u8));
    proof {
        let before = old(s)@;
        let head = padded_decimal_text(
            (value / 10) as nat,
            if width > 0 {
                (width - 1) as nat
            } else {
                0
            },
        );
        if value >= 10 || width > 1 {
            assert((before + head).push(digit_char((value % 10) as nat)) =~= before + head.push(
                digit_char((value % 10) as nat),
            ));
        } else {
            assert(before.push(digit_char(value as nat)) =~= before + seq![
                digit_char(value as nat),
            ]);
        }
    }
}

/// Appends a piece of text.
pub fn push_text(s: &mut String, piece: &str)
    ensures
        final(s)@ == old(s)@ + piece@,
{
    s.append(piece);
}

/// Ten to the power `n`.
pub open spec fn pow10(n: nat) -> nat
    decreases n,
{
    if n == 0 {
        1
    } else {
        10 * pow10((n - 1) as nat)
    }
}

/// Powers of ten grow.
pub proof fn lemma_pow10_grows(n: nat, m: nat)
    requires
        n <= m,
    ensures
        1 <= pow10(n) <= pow10(m),
    decreases m,
{
    if n < m {
        lemma_pow10_grows(n, (m - 1) as nat);
    } else if n > 0 {
        lemma_pow10_grows((n - 1) as nat, (n - 1) as nat);
    }
}

} // verus!
