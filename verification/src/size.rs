use vstd::prelude::*;
use vstd::string::StringExecFns;

use crate::text::push_decimal;
use crate::text::{decimal, digit_char};

verus! {

/// The whole number nearest to `num / den`; of two that are as near, the even one.
pub open spec fn nearest(num: nat, den: nat) -> nat {
    let low = num / den;
    let rest = num % den;
    if 2 * rest < den || (2 * rest == den && low % 2 == 0) {
        low
    } else {
        low + 1
    }
}

/// How far apart double-precision numbers are from `n` on, up to the next power of two: their
/// mantissa has fifty-three bits.
pub open spec fn double_spacing(n: nat) -> nat
    decreases n,
{
    if n < 0x20_0000_0000_0000 {
        1
    } else {
        2 * double_spacing(n / 2)
    }
}

/// The double-precision number nearest to `n`.
pub open spec fn nearest_double(n: nat) -> nat {
    nearest(n, double_spacing(n)) * double_spacing(n)
}

/// The size of the unit in which a number of bytes is told.
pub open spec fn unit_size(bytes: nat) -> nat {
    if bytes < 0x400 {
        1
    } else if bytes < 0x10_0000 {
        0x400
    } else if bytes < 0x4000_0000 {
        0x10_0000
    } else {
        0x4000_0000
    }
}

/// The name of the unit in which a number of bytes is told.
pub open spec fn unit_name(bytes: nat) -> Seq<char> {
    if bytes < 0x400 {
        " B"@
    } else if bytes < 0x10_0000 {
        " KiB"@
    } else if bytes < 0x4000_0000 {
        " MiB"@
    } else {
        " GiB"@
    }
}

/// A number of bytes as a person reads it: bytes one by one, the larger units in tenths, rounded from
/// a double-precision number.
pub open spec fn human_size(bytes: nat) -> Seq<char> {
    if bytes < 0x400 {
        decimal(bytes) + unit_name(bytes)
    } else {
        let tenths = nearest(10 * nearest_double(bytes), unit_size(bytes));
        decimal(tenths / 10) + seq!['.', digit_char((tenths % 10) as int)] + unit_name(bytes)
    }
}

/// The whole number nearest to `num / den`.
fn round_to_even(num: u128, den: u128) -> (rounded: u128)
    requires
        0 < den <= 0x4000_0000,
        num <= 0x100_0000_0000_0000_0000_0000,
    ensures
        rounded == nearest(num as nat, den as nat),
        rounded <= num / den + 1,
{
    let low = num / den;
    let rest = num % den;
    proof {
        assert(low <= num) by (nonlinear_arith)
            requires
                low == num / den,
                den > 0,
        ;
    }
    if 2 * rest < den || (2 * rest == den && low % 2 == 0) {
        low
    } else {
        low + 1
    }
}

/// How far apart double-precision numbers are from `n` on.
fn spacing(n: u64) -> (gap: u64)
    ensures
        gap == double_spacing(n as nat),
        gap == 1 || 1 < gap && gap * 0x10_0000_0000_0000 <= n,
    decreases n,
{
    if n < 0x20_0000_0000_0000 {
        1
    } else {
        2 * spacing(n / 2)
    }
}

/// Tells a number of bytes as a person reads it.
pub fn human_bytes(bytes: u64) -> (text: String)
    ensures
        text@ == human_size(bytes as nat),
{
    let mut text = String::new();
    if bytes < 0x400 {
        push_decimal(&mut text, bytes);
        text.append(" B");
        return text;
    }
    let gap = spacing(bytes) as u128;
    let steps = round_to_even(bytes as u128, gap);
    proof {
        assert(steps * gap <= bytes + gap) by (nonlinear_arith)
            requires
                steps <= bytes as u128 / gap + 1,
                gap > 0,
        ;
    }
    let double: u128 = steps * gap;
    let unit: u128 = if bytes < 0x10_0000 {
        0x400
    } else if bytes < 0x4000_0000 {
        0x10_0000
    } else {
        0x4000_0000
    };
    let tenths: u128 = round_to_even(10 * double, unit);
    push_decimal(&mut text, (tenths / 10) as u64);
    text.push('.');
    text.push((48u8 + (tenths % 10) as u8) as char);
    text.append(
        if bytes < 0x10_0000 {
            " KiB"
        } else if bytes < 0x4000_0000 {
            " MiB"
        } else {
            " GiB"
        },
    );
    text
}

} // verus!
