//! Numbers, flags and spans of time as text.

use vstd::prelude::*;
use vstd::string::*;

use crate::time::Duration;
use crate::time;

verus! {

/// A decimal digit.
pub open spec fn digit(d: nat) -> char {
    (48 + d) as char
}

/// A whole number in decimal, without leading zeros.
pub open spec fn decimal(n: nat) -> Seq<char>
    decreases n,
{
    if n < 10 {
        seq![digit(n)]
    } else {
        decimal(n / 10).push(digit(n % 10))
    }
}

/// A signed whole number in decimal.
pub open spec fn signed_decimal(n: int) -> Seq<char> {
    if n < 0 {
        "-"@ + decimal((-n) as nat)
    } else {
        decimal(n as nat)
    }
}

/// `true` or `false`.
pub open spec fn flag(b: bool) -> Seq<char> {
    if b {
        "true"@
    } else {
        "false"@
    }
}

/// The last `width` decimal digits of `n`, with leading zeros.
pub open spec fn padded(n: nat, width: nat) -> Seq<char>
    decreases width,
{
    if width == 0 {
        seq![]
    } else {
        padded(n / 10, (width - 1) as nat).push(digit(n % 10))
    }
}

/// The digits of the fraction `n / 10^width`, without trailing zeros.
pub open spec fn fraction_digits(n: nat, width: nat) -> Seq<char>
    decreases width,
{
    if width > 0 && n % 10 == 0 {
        fraction_digits(n / 10, (width - 1) as nat)
    } else {
        padded(n, width)
    }
}

/// The fraction `n / 10^width` behind its point; nothing where it is zero.
pub open spec fn fraction(n: nat, width: nat) -> Seq<char> {
    if n == 0 {
        seq![]
    } else {
        "."@ + fraction_digits(n, width)
    }
}

impl Duration {
    /// The span in the largest unit that it fills, of seconds, milliseconds, microseconds
    /// and nanoseconds.
    pub open spec fn debug_text(self) -> Seq<char> {
        let n = self.nanos as nat;
        if n >= time::NANOS_PER_SEC {
            decimal(n / (time::NANOS_PER_SEC as nat)) + fraction(
                n % (time::NANOS_PER_SEC as nat),
                9,
            ) + "s"@
        } else if n >= time::NANOS_PER_MILLI {
            decimal(n / (time::NANOS_PER_MILLI as nat)) + fraction(
                n % (time::NANOS_PER_MILLI as nat),
                6,
            ) + "ms"@
        } else if n >= time::NANOS_PER_MICRO {
            decimal(n / (time::NANOS_PER_MICRO as nat)) + fraction(
                n % (time::NANOS_PER_MICRO as nat),
                3,
            ) + "\u{b5}s"@
        } else {
            decimal(n) + "ns"@
        }
    }
}

/// A decimal digit.
fn digit_text(d: u128) -> (t: &'static str)
    requires
        d < 10,
    ensures
        t@ == seq![digit(d as nat)],
{
    proof {
        reveal_strlit("0");
        reveal_strlit("1");
        reveal_strlit("2");
        reveal_strlit("3");
        reveal_strlit("4");
        reveal_strlit("5");
        reveal_strlit("6");
        reveal_strlit("7");
        reveal_strlit("8");
        reveal_strlit("9");
    }
    if d == 0 {
        "0"
    } else if d == 1 {
        "1"
    } else if d == 2 {
        "2"
    } else if d == 3 {
        "3"
    } else if d == 4 {
        "4"
    } else if d == 5 {
        "5"
    } else if d == 6 {
        "6"
    } else if d == 7 {
        "7"
    } else if d == 8 {
        "8"
    } else {
        "9"
    }
}

/// Appends a whole number in decimal.
pub fn push_decimal(out: &mut String, n: u128)
    ensures
        final(out)@ == old(out)@ + decimal(n as nat),
    decreases n,
{
    if n >= 10 {
        push_decimal(out, n / 10);
    }
    out.append(digit_text(n % 10));
    assert(out@ =~= old(out)@ + decimal(n as nat));
}

/// Appends a signed whole number in decimal.
pub fn push_signed_decimal(out: &mut String, n: isize)
    ensures
        final(out)@ == old(out)@ + signed_decimal(n as int),
{
    if n < 0 {
        out.append("-");
        push_decimal(out, (-(n as i128)) as u128);
        assert(out@ =~= old(out)@ + signed_decimal(n as int));
    } else {
        push_decimal(out, n as u128);
    }
}

/// Appends `true` or `false`.
pub fn push_flag(out: &mut String, b: bool)
    ensures
        final(out)@ == old(out)@ + flag(b),
{
    if b {
        out.append("true");
    } else {
        out.append("false");
    }
}

/// Appends the last `width` decimal digits of `n`.
fn push_padded(out: &mut String, n: u128, width: u32)
    ensures
        final(out)@ == old(out)@ + padded(n as nat, width as nat),
    decreases width,
{
    if width > 0 {
        push_padded(out, n / 10, width - 1);
        out.append(digit_text(n % 10));
    }
    assert(out@ =~= old(out)@ + padded(n as nat, width as nat));
}

/// Appends the digits of a fraction without trailing zeros.
fn push_fraction_digits(out: &mut String, n: u128, width: u32)
    ensures
        final(out)@ == old(out)@ + fraction_digits(n as nat, width as nat),
    decreases width,
{
    if width > 0 && n % 10 == 0 {
        push_fraction_digits(out, n / 10, width - 1);
    } else {
        push_padded(out, n, width);
    }
}

/// Appends a fraction behind its point.
fn push_fraction(out: &mut String, n: u128, width: u32)
    ensures
        final(out)@ == old(out)@ + fraction(n as nat, width as nat),
{
    if n != 0 {
        out.append(".");
        push_fraction_digits(out, n, width);
    }
    assert(out@ =~= old(out)@ + fraction(n as nat, width as nat));
}

/// Appends a span of time.
pub fn push_duration(out: &mut String, d: Duration)
    ensures
        final(out)@ == old(out)@ + d.debug_text(),
{
    let n: u128 = d.nanos;
    if n >= time::NANOS_PER_SEC as u128 {
        push_decimal(out, n / time::NANOS_PER_SEC as u128);
        push_fraction(out, n % time::NANOS_PER_SEC as u128, 9);
        out.append("s");
    } else if n >= time::NANOS_PER_MILLI as u128 {
        push_decimal(out, n / time::NANOS_PER_MILLI as u128);
        push_fraction(out, n % time::NANOS_PER_MILLI as u128, 6);
        out.append("ms");
    } else if n >= time::NANOS_PER_MICRO as u128 {
        push_decimal(out, n / time::NANOS_PER_MICRO as u128);
        push_fraction(out, n % time::NANOS_PER_MICRO as u128, 3);
        out.append("\u{b5}s");
    } else {
        push_decimal(out, n);
        out.append("ns");
    }
    assert(out@ =~= old(out)@ + d.debug_text());
}

}
