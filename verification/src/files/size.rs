//! Human-readable sizes.

use vstd::prelude::*;

use crate::text::number::{decimal, decimal_of, digit_char, digit_char_of};

verus! {

/// `n / d` rounded to the nearest whole number; half way to the even one.
pub open spec fn rounded(n: nat, d: nat) -> nat {
    let q = n / d;
    let r = n % d;
    if 2 * r > d || (2 * r == d && q % 2 == 1) {
        q + 1
    } else {
        q
    }
}

/// The spacing of the numbers with 53 significant bits around `n`.
pub open spec fn spacing(n: nat) -> nat
    decreases n,
{
    if n < 0x20_0000_0000_0000 {
        1
    } else {
        2 * spacing(n / 2)
    }
}

/// `n` rounded to 53 significant bits.
pub open spec fn rounded_53(n: nat) -> nat {
    rounded(n, spacing(n)) * spacing(n)
}

/// The largest unit that a size has at least one of: how often it can be divided
/// by 1024, four times at most.
pub open spec fn unit_index(bytes: nat) -> int {
    if bytes < 0x400 {
        0
    } else if bytes < 0x10_0000 {
        1
    } else if bytes < 0x4000_0000 {
        2
    } else if bytes < 0x100_0000_0000 {
        3
    } else {
        4
    }
}

/// How many bytes a unit has.
pub open spec fn unit_bytes(unit: int) -> nat {
    if unit <= 0 {
        1
    } else if unit == 1 {
        0x400
    } else if unit == 2 {
        0x10_0000
    } else if unit == 3 {
        0x4000_0000
    } else {
        0x100_0000_0000
    }
}

/// The name of a unit.
pub open spec fn unit_name(unit: int) -> Seq<char> {
    if unit <= 0 {
        "B"@
    } else if unit == 1 {
        "KB"@
    } else if unit == 2 {
        "MB"@
    } else if unit == 3 {
        "GB"@
    } else {
        "TB"@
    }
}

/// The tenths of the size in its unit.
pub open spec fn size_tenths(bytes: nat) -> nat {
    rounded(10 * rounded_53(bytes), unit_bytes(unit_index(bytes)))
}

/// A size in bytes, or in the largest unit it has at least one of, with one
/// decimal.
pub open spec fn size_text(bytes: nat) -> Seq<char> {
    let unit = unit_index(bytes);
    if unit == 0 {
        decimal(bytes) + " B"@
    } else {
        let tenths = size_tenths(bytes);
        decimal(tenths / 10) + seq!['.', digit_char(tenths as int % 10)] + " "@ + unit_name(unit)
    }
}

/// `n / d` rounded to the nearest whole number; half way to the even one.
fn round(n: u128, d: u128) -> (r: u128)
    requires
        0 < d <= 0x100_0000_0000,
        n <= 0x1_0000_0000_0000_0000_0000,
    ensures
        r == rounded(n as nat, d as nat),
        r <= n + 1,
{
    let q: u128 = n / d;
    let rest: u128 = n % d;
    assert(q <= n) by (nonlinear_arith)
        requires
            q == n / d,
            d > 0,
    ;
    if 2 * rest > d || (2 * rest == d && q % 2 == 1) {
        q + 1
    } else {
        q
    }
}

/// The spacing of the numbers with 53 significant bits around `n`.
fn spacing_of(n: u64) -> (r: u128)
    ensures
        r == spacing(n as nat),
        1 <= r <= 0x1000,
        n < 0x20_0000_0000_0000 * r,
        r > 1 ==> n >= 0x10_0000_0000_0000 * r,
{
    if n < 0x20_0000_0000_0000 {
        return 1;
    }
    let mut m: u64 = n;
    let mut s: u128 = 1;
    while m >= 0x20_0000_0000_0000
        invariant
            s * spacing(m as nat) == spacing(n as nat),
            m * s <= n < (m + 1) * s,
            1 <= s,
            n >= 0x20_0000_0000_0000,
            s == 1 ==> m == n,
            s > 1 ==> m >= 0x10_0000_0000_0000,
        decreases m,
    {
        let ghost (before, old_s) = (m, s);
        assert(s <= 0x800) by (nonlinear_arith)
            requires
                m * s <= n,
                m >= 0x20_0000_0000_0000,
                n <= 0xffff_ffff_ffff_ffff,
        ;
        m = m / 2;
        s = s * 2;
        proof {
            assert(spacing(before as nat) == 2 * spacing((before / 2) as nat));
            assert(s * spacing(m as nat) == spacing(n as nat)) by (nonlinear_arith)
                requires
                    s == old_s * 2,
                    old_s * (2 * spacing(m as nat)) == spacing(n as nat),
            ;
            assert(m * s <= before * old_s && (before + 1) * old_s <= (m + 1) * s)
                by (nonlinear_arith)
                requires
                    s == old_s * 2,
                    m == before / 2,
                    old_s >= 1,
            ;
        }
    }
    proof {
        assert(spacing(m as nat) == 1);
        assert(s * 1 == s);
        assert(s <= 0x1000) by (nonlinear_arith)
            requires
                m * s <= n,
                m >= 0x10_0000_0000_0000,
                n <= 0xffff_ffff_ffff_ffff,
                s >= 1,
        ;
        assert(n < 0x20_0000_0000_0000 * s) by (nonlinear_arith)
            requires
                n < (m + 1) * s,
                m < 0x20_0000_0000_0000,
                s >= 1,
        ;
        assert(n >= 0x10_0000_0000_0000 * s) by (nonlinear_arith)
            requires
                n >= m * s,
                m >= 0x10_0000_0000_0000,
                s >= 1,
        ;
    }
    s
}

/// `n` rounded to 53 significant bits.
fn round_53(n: u64) -> (r: u128)
    ensures
        r == rounded_53(n as nat),
        r <= 0x2_0000_0000_0000_0000,
{
    let s = spacing_of(n);
    let q = round(n as u128, s);
    proof {
        // The quotient fits in 53 bits, so the product stays in range.
        let m = (n as nat) / (s as nat);
        assert(m < 0x20_0000_0000_0000) by (nonlinear_arith)
            requires
                m == (n as nat) / (s as nat),
                n < 0x20_0000_0000_0000 * s,
                s >= 1,
        ;
        assert(q <= 0x20_0000_0000_0000);
        assert(q * s <= 0x20_0000_0000_0000 * 0x1000) by (nonlinear_arith)
            requires
                q <= 0x20_0000_0000_0000,
                s <= 0x1000,
        ;
    }
    q * s
}

/// Format a size: whole bytes below one kilobyte, else one decimal and the unit.
pub fn human_size(bytes: u64) -> (r: String)
    ensures
        r@ == size_text(bytes as nat),
{
    if bytes < 0x400 {
        let mut out = decimal_of(bytes);
        out.append(" B");
        return out;
    }
    let (unit, name): (u128, &str) = if bytes < 0x10_0000 {
        (0x400, "KB")
    } else if bytes < 0x4000_0000 {
        (0x10_0000, "MB")
    } else if bytes < 0x100_0000_0000 {
        (0x4000_0000, "GB")
    } else {
        (0x100_0000_0000, "TB")
    };
    let whole = round_53(bytes);
    let tenths = round(whole * 10, unit);
    proof {
        assert(unit == unit_bytes(unit_index(bytes as nat)));
        assert(tenths == size_tenths(bytes as nat));
        let q = (whole * 10) as nat / unit as nat;
        assert(q <= 0xffff_ffff_ffff_fff) by (nonlinear_arith)
            requires
                q == (whole * 10) as nat / unit as nat,
                whole <= 0x2_0000_0000_0000_0000,
                unit >= 0x400,
        ;
        assert(tenths <= q + 1);
    }
    let mut out = decimal_of((tenths / 10) as u64);
    out.push('.');
    out.push(digit_char_of((tenths % 10) as u8));
    out.append(" ");
    out.append(name);
    proof {
        let t = tenths as nat;
        assert(out@ =~= decimal(t / 10) + seq!['.', digit_char(t as int % 10)] + " "@ + name@);
    }
    out
}

/// A power of 1024 is shown as one of its unit.
pub proof fn law_units_are_one(unit: int)
    requires
        1 <= unit <= 4,
    ensures
        size_text(unit_bytes(unit)) == seq!['1', '.', '0'] + " "@ + unit_name(unit),
{
    let b = unit_bytes(unit);
    assert(spacing(b) == 1);
    assert(rounded(b, 1) == b);
    assert(rounded_53(b) == b);
    assert(rounded(10 * b, b) == 10) by (nonlinear_arith)
        requires
            b > 0,
    ;
    assert(decimal(1) =~= seq!['1']);
    assert(size_text(b) =~= seq!['1', '.', '0'] + " "@ + unit_name(unit));
}

/// A size is shown in the largest of the units B, KB, MB, GB and TB that it has at
/// least one of, each 1024 times the one before.
pub proof fn law_sizes_are_shown_in_their_unit(bytes: nat)
    ensures
        ({
            let unit = unit_index(bytes);
            &&& 0 <= unit <= 4
            &&& bytes >= 1024 ==> unit >= 1 && bytes >= unit_bytes(unit)
            &&& unit < 4 ==> bytes < 1024 * unit_bytes(unit)
            &&& bytes < 1024 <==> unit == 0
        }),
        unit_bytes(0) == 1 && unit_bytes(1) == 1024 && unit_bytes(2) == 1024 * 1024,
        unit_bytes(3) == 1024 * 1024 * 1024 && unit_bytes(4) == 1024 * 1024 * 1024 * 1024,
        unit_name(0) == "B"@ && unit_name(1) == "KB"@ && unit_name(2) == "MB"@,
        unit_name(3) == "GB"@ && unit_name(4) == "TB"@,
        bytes < 1024 ==> size_text(bytes) == decimal(bytes) + " B"@,
        bytes >= 1024 ==> size_text(bytes) == decimal(size_tenths(bytes) / 10) + seq![
            '.',
            (48 + size_tenths(bytes) % 10) as u8 as char,
        ] + " "@ + unit_name(unit_index(bytes)),
{
}

/// The tenths that are shown are the nearest to the size in its unit, for every
/// size that a floating-point number holds exactly.
pub proof fn law_sizes_are_rounded_to_tenths(bytes: nat)
    requires
        1024 <= bytes < 0x20_0000_0000_0000,
    ensures
        ({
            let unit = unit_bytes(unit_index(bytes)) as int;
            let shown = size_tenths(bytes) * unit;
            -unit <= 2 * (shown - 10 * bytes) <= unit
        }),
{
    assert(spacing(bytes) == 1);
    assert(rounded(bytes, 1) == bytes);
    assert(rounded_53(bytes) == bytes);
    let d = unit_bytes(unit_index(bytes));
    let n = 10 * bytes;
    let (q, r) = (n / d, n % d);
    assert(n == q * d + r && r < d) by (nonlinear_arith)
        requires
            q == n / d,
            r == n % d,
            d > 0,
    ;
    let t = rounded(n, d);
    assert(t * d == if t == q {
        q * d
    } else {
        q * d + d
    }) by (nonlinear_arith)
        requires
            t == q || t == q + 1,
    ;
}

} // verus!
