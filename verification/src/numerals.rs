//! Numerals written into replies: the decimal `Content-Length` of the
//! endpoint's replies and the fixed-width hexadecimal fields of its token.
use vstd::prelude::*;
use crate::text::push_char;

verus! {

/// The character of digit `d` (`0`-`9`, then lower-case `a`-`f`).
pub open spec fn digit_char(d: int) -> char {
    if d < 10 {
        ((48 + d) as u8) as char
    } else {
        ((87 + d) as u8) as char
    }
}

/// The value of a digit character, the inverse of `digit_char`.
pub open spec fn digit_value(c: char) -> int {
    if '0' <= c && c <= '9' {
        (c as int) - 48
    } else {
        (c as int) - 87
    }
}

/// `n` in decimal, as `{}` formats it: no leading zeros, `0` for zero.
pub open spec fn decimal_digits(n: nat) -> Seq<char>
    decreases n,
{
    if n < 10 {
        seq![digit_char(n as int)]
    } else {
        decimal_digits(n / 10).push(digit_char((n % 10) as int))
    }
}

/// The low `width` hexadecimal digits of `n`, lower case, most significant
/// first. For `n < 16^width` this is what `{:0width$x}` formats.
pub open spec fn hex_fixed(n: nat, width: nat) -> Seq<char>
    decreases width,
{
    if width == 0 {
        seq![]
    } else {
        hex_fixed(n / 16, (width - 1) as nat).push(digit_char((n % 16) as int))
    }
}

/// The number that the digits `s` denote in base `base`.
pub open spec fn numeral_value(s: Seq<char>, base: int) -> int
    decreases s.len(),
{
    if s.len() == 0 {
        0
    } else {
        numeral_value(s.drop_last(), base) * base + digit_value(s.last())
    }
}

/// `16^width`.
pub open spec fn pow16(width: nat) -> nat
    decreases width,
{
    if width == 0 {
        1
    } else {
        16 * pow16((width - 1) as nat)
    }
}

/// Whether `c` is a lower-case hexadecimal digit.
pub open spec fn is_hex_digit(c: char) -> bool {
    ('0' <= c && c <= '9') || ('a' <= c && c <= 'f')
}

/// The upstream token for a start time, a process id and a port: 32, 8 and
/// 4 lower-case hexadecimal digits.
pub open spec fn token_text(nanos: nat, pid: nat, port: nat) -> Seq<char> {
    hex_fixed(nanos, 32) + hex_fixed(pid, 8) + hex_fixed(port, 4)
}

pub proof fn lemma_hex_fixed_shape(n: nat, width: nat)
    ensures
        hex_fixed(n, width).len() == width,
        forall|i: int| 0 <= i < width ==> is_hex_digit(#[trigger] hex_fixed(n, width)[i]),
    decreases width,
{
    if width > 0 {
        lemma_hex_fixed_shape(n / 16, (width - 1) as nat);
    }
}

pub proof fn lemma_hex_fixed_value(n: nat, width: nat)
    requires
        n < pow16(width),
    ensures
        numeral_value(hex_fixed(n, width), 16) == n,
    decreases width,
{
    if width > 0 {
        let w1 = (width - 1) as nat;
        let p = pow16(w1);
        assert(n / 16 < p) by (nonlinear_arith)
            requires
                n < 16 * p,
        ;
        lemma_hex_fixed_value(n / 16, w1);
        let s = hex_fixed(n, width);
        assert(s.drop_last() == hex_fixed(n / 16, w1));
        assert(digit_value(s.last()) == n % 16);
    } else {
        assert(n == 0);
    }
}

pub proof fn lemma_decimal_value(n: nat)
    ensures
        numeral_value(decimal_digits(n), 10) == n,
        decimal_digits(n).len() >= 1,
    decreases n,
{
    if n < 10 {
        let s = decimal_digits(n);
        assert(s.drop_last() =~= Seq::<char>::empty());
        assert(numeral_value(s.drop_last(), 10) == 0);
    } else {
        lemma_decimal_value(n / 10);
        let s = decimal_digits(n);
        assert(s.drop_last() == decimal_digits(n / 10));
    }
}

/// The token spells out its start time, process id and port, each in its
/// own fixed-width field, so that two tokens differ where any of the three
/// differs.
pub proof fn token_fields_round_trip(nanos: u128, pid: u32, port: u16)
    ensures
        token_text(nanos as nat, pid as nat, port as nat).len() == 44,
        forall|i: int|
            0 <= i < 44 ==> is_hex_digit(#[trigger] token_text(nanos as nat, pid as nat, port as nat)[i]),
        numeral_value(token_text(nanos as nat, pid as nat, port as nat).subrange(0, 32), 16)
            == nanos,
        numeral_value(token_text(nanos as nat, pid as nat, port as nat).subrange(32, 40), 16)
            == pid,
        numeral_value(token_text(nanos as nat, pid as nat, port as nat).subrange(40, 44), 16)
            == port,
{
    let a = hex_fixed(nanos as nat, 32);
    let b = hex_fixed(pid as nat, 8);
    let c = hex_fixed(port as nat, 4);
    let t = token_text(nanos as nat, pid as nat, port as nat);
    lemma_hex_fixed_shape(nanos as nat, 32);
    lemma_hex_fixed_shape(pid as nat, 8);
    lemma_hex_fixed_shape(port as nat, 4);
    assert(t.subrange(0, 32) =~= a);
    assert(t.subrange(32, 40) =~= b);
    assert(t.subrange(40, 44) =~= c);
    reveal_with_fuel(pow16, 33);
    assert(pow16(4) == 65536);
    assert(pow16(8) == 0x1_0000_0000);
    assert(pow16(32) == 0x1_0000_0000_0000_0000_0000_0000_0000_0000);
    lemma_hex_fixed_value(nanos as nat, 32);
    lemma_hex_fixed_value(pid as nat, 8);
    lemma_hex_fixed_value(port as nat, 4);
    assert forall|i: int| 0 <= i < 44 implies is_hex_digit(#[trigger] t[i]) by {
        if i < 32 {
            assert(t[i] == a[i]);
        } else if i < 40 {
            assert(t[i] == b[i - 32]);
        } else {
            assert(t[i] == c[i - 40]);
        }
    }
}

/// A decimal numeral is made of the digits `0`-`9` only and has no leading
/// zero: its first digit is `0` only for zero itself, which is `0`.
pub proof fn decimal_digits_shape(n: nat)
    ensures
        forall|i: int|
            0 <= i < decimal_digits(n).len() ==> '0' <= #[trigger] decimal_digits(n)[i]
                && decimal_digits(n)[i] <= '9',
        decimal_digits(n)[0] == '0' <==> n == 0,
        n == 0 ==> decimal_digits(n) == seq!['0'],
    decreases n,
{
    if n >= 10 {
        decimal_digits_shape(n / 10);
        lemma_decimal_value(n / 10);
        let s = decimal_digits(n);
        assert(s[0] == decimal_digits(n / 10)[0]);
    }
}

/// The `Content-Length` numeral reads back as the length it was written for.
pub proof fn content_length_round_trip(len: usize)
    ensures
        numeral_value(decimal_digits(len as nat), 10) == len,
{
    lemma_decimal_value(len as nat);
}

/// The character of digit `d`.
fn digit(d: u8) -> (c: char)
    requires
        d < 16,
    ensures
        c == digit_char(d as int),
{
    if d < 10 {
        (48 + d) as char
    } else {
        (87 + d) as char
    }
}

/// Appends `n` in decimal.
pub fn push_decimal(out: &mut String, n: usize)
    ensures
        final(out)@ == old(out)@ + decimal_digits(n as nat),
    decreases n,
{
    if n >= 10 {
        push_decimal(out, n / 10);
    }
    push_char(out, digit((n % 10) as u8));
    proof {
        if n >= 10 {
            assert(decimal_digits(n as nat) == decimal_digits((n / 10) as nat).push(
                digit_char((n % 10) as int),
            ));
        }
    }
}

/// Appends the low `width` hexadecimal digits of `n`.
pub fn push_hex_fixed(out: &mut String, n: u128, width: usize)
    ensures
        final(out)@ == old(out)@ + hex_fixed(n as nat, width as nat),
    decreases width,
{
    if width > 0 {
        push_hex_fixed(out, n / 16, width - 1);
        push_char(out, digit((n % 16) as u8));
    } else {
        assert(old(out)@ + hex_fixed(n as nat, 0) =~= old(out)@);
    }
}

/// The token that authenticates requests to the workspace endpoint: the
/// start time in nanoseconds, the process id and the port, in lower-case
/// hexadecimal of 32, 8 and 4 digits (`{:032x}{:08x}{:04x}`).
pub fn upstream_token(nanos: u128, pid: u32, port: u16) -> (res: String)
    ensures
        res@ == token_text(nanos as nat, pid as nat, port as nat),
{
    let mut token = String::new();
    push_hex_fixed(&mut token, nanos, 32);
    push_hex_fixed(&mut token, pid as u128, 8);
    push_hex_fixed(&mut token, port as u128, 4);
    token
}

} // verus!
