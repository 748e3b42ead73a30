//! Human-readable byte counts.
use vstd::prelude::*;

use crate::text::push_decimal;

verus! {

/// `a / b` rounded to the nearest whole number, and to the even one of two that are equally
/// near.
pub open spec fn half_even(a: nat, b: nat) -> nat {
    let q = a / b;
    let r = a % b;
    if 2 * r < b || (2 * r == b && q % 2 == 0) {
        q
    } else {
        q + 1
    }
}

/// The distance of neighbouring numbers around `n` in a format with a mantissa of 53 bits.
pub open spec fn spacing(n: nat) -> nat
    decreases n,
{
    if n < 0x20_0000_0000_0000 {
        1
    } else {
        2 * spacing(n / 2)
    }
}

/// The number of the format with a mantissa of 53 bits that is nearest to `n`; of two that are
/// equally near, the one with the even mantissa.
pub open spec fn nearest_double(n: nat) -> nat {
    half_even(n, spacing(n)) * spacing(n)
}

/// How often 1024 divides into `n`: at most four times, for the units up to TB.
pub open spec fn unit_index(n: nat) -> nat {
    if n < 0x400 {
        0
    } else if n < 0x10_0000 {
        1
    } else if n < 0x4000_0000 {
        2
    } else if n < 0x100_0000_0000 {
        3
    } else {
        4
    }
}

/// The bytes that a unit stands for.
pub open spec fn unit_bytes(unit: nat) -> nat {
    if unit == 0 {
        1
    } else if unit == 1 {
        0x400
    } else if unit == 2 {
        0x10_0000
    } else if unit == 3 {
        0x4000_0000
    } else {
        0x100_0000_0000
    }
}

/// The name of a unit, behind the space that sets it off.
pub open spec fn unit_name(unit: nat) -> Seq<char> {
    if unit == 0 {
        " B"@
    } else if unit == 1 {
        " KB"@
    } else if unit == 2 {
        " MB"@
    } else if unit == 3 {
        " GB"@
    } else {
        " TB"@
    }
}

/// `n` thousandths with three decimal places.
pub open spec fn thousandths(n: nat) -> Seq<char> {
    crate::text::decimal(n / 1000).push('.').push(crate::text::digit_char(n / 100 % 10)).push(
        crate::text::digit_char(n / 10 % 10),
    ).push(crate::text::digit_char(n % 10))
}

/// `n` bytes in the largest unit up to TB that they fill, 1024-based, with three decimal places
/// from KB on.
pub open spec fn bytes_text(n: nat) -> Seq<char> {
    let unit = unit_index(n);
    if unit == 0 {
        crate::text::decimal(n) + unit_name(0)
    } else {
        thousandths(half_even(nearest_double(n) * 1000, unit_bytes(unit))) + unit_name(unit)
    }
}

fn rounded(a: u128, b: u128) -> (r: u128)
    requires
        b > 0,
        a < 0x1_0000_0000_0000_0000_0000_0000_0000,
        b < 0x1_0000_0000_0000_0000_0000_0000_0000,
    ensures
        r == half_even(a as nat, b as nat),
        r * b <= a + b,
        r <= a + 1,
{
    let q: u128 = a / b;
    let r: u128 = a % b;
    proof {
        vstd::arithmetic::div_mod::lemma_fundamental_div_mod(a as int, b as int);
        assert(q * b == b * q) by (nonlinear_arith);
        assert((q + 1) * b == b * q + b) by (nonlinear_arith);
        assert(q <= a) by (nonlinear_arith)
            requires
                b > 0,
                q == a / b,
        ;
    }
    if 2 * r < b || (2 * r == b && q % 2 == 0) {
        q
    } else {
        q + 1
    }
}

fn spacing_of(n: u64) -> (r: u64)
    ensures
        r == spacing(n as nat),
        0 < r,
        r == 1 || r <= n,
    decreases n,
{
    if n < 0x20_0000_0000_0000 {
        1
    } else {
        2 * spacing_of(n / 2)
    }
}

fn push_thousandths(out: &mut String, n: u64)
    ensures
        final(out)@ == old(out)@ + thousandths(n as nat),
{
    let ghost start = out@;
    push_decimal(out, n / 1000);
    out.push('.');
    let hundreds: u8 = (n / 100 % 10) as u8;
    let tens: u8 = (n / 10 % 10) as u8;
    let ones: u8 = (n % 10) as u8;
    out.push((48u8 + hundreds) as char);
    out.push((48u8 + tens) as char);
    out.push((48u8 + ones) as char);
    assert(out@ =~= start + thousandths(n as nat));
}

/// Formats a byte count in the largest unit up to TB that it fills (1024-based, three decimal
/// places from KB on).
pub fn format_bytes(n: u64) -> (r: String)
    ensures
        r@ == bytes_text(n as nat),
{
    let mut out = String::new();
    if n < 0x400 {
        push_decimal(&mut out, n);
        out.append(" B");
        assert(out@ =~= bytes_text(n as nat));
        return out;
    }
    let step: u64 = spacing_of(n);
    let mantissa: u128 = rounded(n as u128, step as u128);
    assert(mantissa * step == nearest_double(n as nat));
    assert(mantissa * step <= 0x2_0000_0000_0000_0000);
    let size: u128 = mantissa * (step as u128);
    let (unit, name): (u128, &str) = if n < 0x10_0000 {
        (0x400, " KB")
    } else if n < 0x4000_0000 {
        (0x10_0000, " MB")
    } else if n < 0x100_0000_0000 {
        (0x4000_0000, " GB")
    } else {
        (0x100_0000_0000, " TB")
    };
    let thousand: u128 = rounded(size * 1000, unit);
    assert(thousand <= u64::MAX) by {
        if n < 0x20_0000_0000_0000 {
            assert(step == 1);
        }
        assert(thousand * unit <= size * 1000 + unit);
        assert(thousand <= 0xffff_ffff_ffff_ffff) by (nonlinear_arith)
            requires
                thousand * unit <= size * 1000 + unit,
                size <= 0x2_0000_0000_0000_0000,
                unit == 0x100_0000_0000 || (unit >= 0x400 && size <= 0x200_0000_0000),
        ;
    }
    push_thousandths(&mut out, thousand as u64);
    out.append(name);
    assert(out@ =~= bytes_text(n as nat));
    out
}

/// Up to 2^53 bytes nothing is lost before the rounding to three decimal places.
pub proof fn law_exact_below_2_53(n: nat)
    requires
        n < 0x20_0000_0000_0000,
    ensures
        nearest_double(n) == n,
{
    assert(n / 1 == n && n % 1 == 0);
    assert(n * 1 == n) by (nonlinear_arith);
}

/// From 1024 bytes up to 2^53 the figure shown is off by at most half of its last place.
pub proof fn law_shown_figure_is_nearest(n: nat)
    requires
        0x400 <= n < 0x20_0000_0000_0000,
    ensures
        ({
            let unit = unit_bytes(unit_index(n)) as int;
            let shown = half_even(nearest_double(n) * 1000, unit as nat) as int;
            &&& 2 * (shown * unit - n * 1000) <= unit
            &&& 2 * (n * 1000 - shown * unit) <= unit
        }),
{
    law_exact_below_2_53(n);
    let unit = unit_bytes(unit_index(n)) as int;
    let a = (n * 1000) as int;
    vstd::arithmetic::div_mod::lemma_fundamental_div_mod(a, unit);
    let q = a / unit;
    assert(q * unit == unit * q) by (nonlinear_arith);
    assert((q + 1) * unit == unit * q + unit) by (nonlinear_arith);
}

/// Rounding gives the nearest whole number; halfway between two, the even one.
pub proof fn law_half_even(a: nat, b: nat)
    requires
        b > 0,
    ensures
        2 * (half_even(a, b) * b - a) <= b,
        2 * (a - half_even(a, b) * b) <= b,
        2 * (half_even(a, b) * b - a) == b || 2 * (a - half_even(a, b) * b) == b ==> half_even(
            a,
            b,
        ) % 2 == 0,
{
    let q = a / b;
    vstd::arithmetic::div_mod::lemma_fundamental_div_mod(a as int, b as int);
    assert(q * b == b * q) by (nonlinear_arith);
    assert((q + 1) * b == b * q + b) by (nonlinear_arith);
}

/// From 2^53 on, neighbouring numbers of the format are so far apart that `n` lies within 2^52 and
/// 2^53 steps.
pub proof fn law_spacing(n: nat)
    ensures
        n < 0x20_0000_0000_0000 ==> spacing(n) == 1,
        n >= 0x20_0000_0000_0000 ==> spacing(n) * 0x10_0000_0000_0000 <= n && n < spacing(n)
            * 0x20_0000_0000_0000,
        n >= 0x20_0000_0000_0000 ==> spacing(n) == 2 * spacing(n / 2),
    decreases n,
{
    if n >= 0x20_0000_0000_0000 {
        law_spacing(n / 2);
    }
}

/// Rounding to the format moves a number by at most half a step.
pub proof fn law_nearest_double(n: nat)
    ensures
        2 * (nearest_double(n) - n) <= spacing(n),
        2 * (n - nearest_double(n)) <= spacing(n),
        nearest_double(n) == half_even(n, spacing(n)) * spacing(n),
{
    law_spacing(n);
    law_half_even(n, spacing(n));
}

proof fn lemma_places(whole: nat, a: nat, b: nat, c: nat)
    requires
        a < 10,
        b < 10,
        c < 10,
    ensures
        ({
            let n = whole * 1000 + a * 100 + b * 10 + c;
            &&& n / 1000 == whole
            &&& n / 100 % 10 == a
            &&& n / 10 % 10 == b
            &&& n % 10 == c
        }),
{
    let n = (whole * 1000 + a * 100 + b * 10 + c) as int;
    let tens = (whole * 100 + a * 10 + b) as int;
    let hundreds = (whole * 10 + a) as int;
    vstd::arithmetic::div_mod::lemma_fundamental_div_mod_converse(n, 10, tens, c as int);
    vstd::arithmetic::div_mod::lemma_fundamental_div_mod_converse(tens, 10, hundreds, b as int);
    vstd::arithmetic::div_mod::lemma_fundamental_div_mod_converse(
        hundreds,
        10,
        whole as int,
        a as int,
    );
    vstd::arithmetic::div_mod::lemma_fundamental_div_mod_converse(
        n,
        100,
        hundreds,
        (b * 10 + c) as int,
    );
    vstd::arithmetic::div_mod::lemma_fundamental_div_mod_converse(
        n,
        1000,
        whole as int,
        (a * 100 + b * 10 + c) as int,
    );
}

/// A figure with three decimal places is the whole part in decimal, a point and three digits.
pub proof fn law_three_decimal_places(whole: nat, a: nat, b: nat, c: nat)
    requires
        a < 10,
        b < 10,
        c < 10,
    ensures
        thousandths(whole * 1000 + a * 100 + b * 10 + c) == crate::text::decimal(whole) + seq![
            '.',
            crate::text::digit_char(a),
            crate::text::digit_char(b),
            crate::text::digit_char(c),
        ],
{
    let n = whole * 1000 + a * 100 + b * 10 + c;
    lemma_places(whole, a, b, c);
    assert(thousandths(n) =~= crate::text::decimal(whole) + seq![
        '.',
        crate::text::digit_char(a),
        crate::text::digit_char(b),
        crate::text::digit_char(c),
    ]);
}

/// Fewer than 1024 bytes are shown as they are. More are shown in the unit of which there is at
/// least one and, up to TB, fewer than 1024, with the three-place figure that is nearest to the
/// number as a double holds it.
pub proof fn law_bytes_text(n: nat)
    ensures
        n < 1024 ==> bytes_text(n) == crate::text::decimal(n) + " B"@,
        1024 <= n < 1048576 ==> bytes_text(n) == thousandths(
            half_even(nearest_double(n) * 1000, 1024),
        ) + " KB"@,
        1048576 <= n < 1073741824 ==> bytes_text(n) == thousandths(
            half_even(nearest_double(n) * 1000, 1048576),
        ) + " MB"@,
        1073741824 <= n < 1099511627776 ==> bytes_text(n) == thousandths(
            half_even(nearest_double(n) * 1000, 1073741824),
        ) + " GB"@,
        1099511627776 <= n ==> bytes_text(n) == thousandths(
            half_even(nearest_double(n) * 1000, 1099511627776),
        ) + " TB"@,
{
}

/// Of two byte counts in the same unit, the larger never shows the smaller figure.
pub proof fn law_figures_grow(a: nat, b: nat, unit: nat)
    requires
        a <= b < 0x20_0000_0000_0000,
        unit > 0,
    ensures
        half_even(nearest_double(a) * 1000, unit) <= half_even(nearest_double(b) * 1000, unit),
{
    law_exact_below_2_53(a);
    law_exact_below_2_53(b);
    let x = a * 1000;
    let y = b * 1000;
    law_half_even(x, unit);
    law_half_even(y, unit);
    let hx = half_even(x, unit);
    let hy = half_even(y, unit);
    if hx > hy {
        assert(hx * unit >= hy * unit + unit) by (nonlinear_arith)
            requires
                hx >= hy + 1,
                unit > 0,
        ;
        assert(hx * unit == hy * unit + unit);
        assert(x == y);
    }
}

} // verus!
