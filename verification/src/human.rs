//! Byte counts as a reader wants them: in bytes, or in binary multiples with
//! the precision that suits each.

use vstd::prelude::*;
use vstd::string::*;

verus! {

/// The bytes in a kibibyte.
pub const KIB: u64 = 1024;

/// The bytes in a mebibyte.
pub const MIB: u64 = 1024 * 1024;

/// The bytes in a gibibyte.
pub const GIB: u64 = 1024 * 1024 * 1024;

/// The first count that double precision cannot tell from its neighbours:
/// two to the power of 53.
pub const EXACT_LIMIT: u64 = 0x20_0000_0000_0000;

/// The quotient of `num` by `den` as the nearest whole number; where two
/// are equally near, the even one.
pub open spec fn round_half_even(num: nat, den: nat) -> nat
    recommends
        den > 0,
{
    let whole = num / den;
    let rest = num % den;
    if 2 * rest < den || (2 * rest == den && whole % 2 == 0) {
        whole
    } else {
        whole + 1
    }
}

/// The distance between neighbouring double-precision numbers at the size
/// of `n`: one below two to the power of 53, and twice as much each time
/// the size doubles.
pub open spec fn spacing(n: nat) -> nat
    decreases n,
{
    if n < EXACT_LIMIT {
        1
    } else {
        2 * spacing(n / 2)
    }
}

/// The double-precision number nearest to `n`. Sizes are shown as a reader
/// of double precision sees them, so that the text agrees with what a
/// division in double precision, printed to a fixed number of places,
/// gives.
pub open spec fn nearest_double(n: nat) -> nat {
    round_half_even(n, spacing(n)) * spacing(n)
}

/// Counts below two to the power of 53 are double-precision numbers
/// themselves: every size short of eight pebibytes is shown as it is,
/// rounded only to the places of its unit.
pub proof fn lemma_small_counts_are_exact(n: nat)
    requires
        n < EXACT_LIMIT,
    ensures
        nearest_double(n) == n,
{
    assert(spacing(n) == 1);
    assert(n / 1 == n && n % 1 == 0);
    assert(round_half_even(n, 1) == n);
}

/// The character for a single decimal digit.
pub open spec fn digit(d: nat) -> char {
    if d == 0 {
        '0'
    } else if d == 1 {
        '1'
    } else if d == 2 {
        '2'
    } else if d == 3 {
        '3'
    } else if d == 4 {
        '4'
    } else if d == 5 {
        '5'
    } else if d == 6 {
        '6'
    } else if d == 7 {
        '7'
    } else if d == 8 {
        '8'
    } else {
        '9'
    }
}

/// A number in decimal digits, without sign or leading zeros.
pub open spec fn decimal(n: nat) -> Seq<char>
    decreases n,
{
    if n < 10 {
        seq![digit(n)]
    } else {
        decimal(n / 10).push(digit(n % 10))
    }
}

/// A number of tenths written with one decimal place.
pub open spec fn one_place(tenths: nat) -> Seq<char> {
    decimal(tenths / 10) + seq!['.'] + seq![digit(tenths % 10)]
}

/// A byte count as text: gibibytes and mebibytes with one decimal place,
/// kibibytes as a whole number, anything smaller in bytes. The unit is
/// chosen by the count itself, the number shown is rounded to the nearest
/// that the places allow, the even one where two are equally near.
pub open spec fn human_text(bytes: nat) -> Seq<char> {
    if bytes >= GIB {
        one_place(round_half_even(nearest_double(bytes) * 10, GIB as nat)) + " GiB"@
    } else if bytes >= MIB {
        one_place(round_half_even(nearest_double(bytes) * 10, MIB as nat)) + " MiB"@
    } else if bytes >= KIB {
        decimal(round_half_even(nearest_double(bytes), KIB as nat)) + " KiB"@
    } else {
        decimal(bytes) + " B"@
    }
}

/// The text of a single decimal digit.
fn digit_text(d: u8) -> (text: &'static str)
    requires
        d < 10,
    ensures
        text@ == seq![digit(d as nat)],
{
    proof {
        reveal_strlit("0");
        reveal_strlit("1");
        reveal_strlit("2");
        reveal_strlit("3");
        reveal_strlit("4");
        reveal_strlit("5");
        reveal_strlit("6");
        reveal_strlit("7");
        reveal_strlit("8");
        reveal_strlit("9");
    }
    let text = match d {
        0 => "0",
        1 => "1",
        2 => "2",
        3 => "3",
        4 => "4",
        5 => "5",
        6 => "6",
        7 => "7",
        8 => "8",
        _ => "9",
    };
    assert(text@ =~= seq![digit(d as nat)]);
    text
}

/// Writes `n` in decimal digits at the end of `text`.
fn push_decimal(text: &mut String, n: u128)
    ensures
        final(text)@ == old(text)@ + decimal(n as nat),
    decreases n,
{
    if n >= 10 {
        push_decimal(text, n / 10);
    }
    text.append(digit_text((n % 10) as u8));
    assert(text@ =~= old(text)@ + decimal(n as nat));
}

/// Writes a number of tenths with one decimal place at the end of `text`.
fn push_one_place(text: &mut String, tenths: u128)
    ensures
        final(text)@ == old(text)@ + one_place(tenths as nat),
{
    proof {
        reveal_strlit(".");
    }
    push_decimal(text, tenths / 10);
    text.append(".");
    text.append(digit_text((tenths % 10) as u8));
    assert(text@ =~= old(text)@ + one_place(tenths as nat));
}

/// The quotient of `num` by `den`, rounded to the nearest whole number and
/// to the even one where two are equally near.
fn rounded_quotient(num: u128, den: u64) -> (quotient: u128)
    requires
        den > 0,
        num < u128::MAX,
    ensures
        quotient == round_half_even(num as nat, den as nat),
        quotient <= num / (den as u128) + 1,
{
    let den: u128 = den as u128;
    let whole: u128 = num / den;
    let rest: u128 = num % den;
    if 2 * rest < den || (2 * rest == den && whole % 2 == 0) {
        whole
    } else {
        whole + 1
    }
}

/// The double-precision number nearest to `n`.
fn as_double(n: u64) -> (nearest: u128)
    ensures
        nearest == nearest_double(n as nat),
        nearest <= 0x2_0000_0000_0000_0000,
{
    let mut unit: u64 = 1;
    let mut scaled: u64 = n;
    while scaled >= EXACT_LIMIT
        invariant
            spacing(n as nat) == unit * spacing(scaled as nat),
            1 <= unit,
            scaled * unit <= n,
            unit <= 4096,
        decreases scaled,
    {
        assert(unit < 2048 && (scaled / 2) * (unit * 2) <= n) by (nonlinear_arith)
            requires
                unit >= 1,
                scaled >= 0x20_0000_0000_0000,
                scaled * unit <= n,
                n <= 0xffff_ffff_ffff_ffff,
        ;
        assert(unit * (2 * spacing((scaled / 2) as nat)) == (unit * 2) * spacing(
            (scaled / 2) as nat,
        )) by (nonlinear_arith);
        scaled = scaled / 2;
        unit = unit * 2;
    }
    assert(spacing(n as nat) == unit) by (nonlinear_arith)
        requires
            spacing(n as nat) == unit * spacing(scaled as nat),
            spacing(scaled as nat) == 1,
    ;
    let count: u128 = rounded_quotient(n as u128, unit);
    assert(count * unit <= n + unit) by (nonlinear_arith)
        requires
            count <= (n as int) / (unit as int) + 1,
            unit >= 1,
            n >= 0,
    ;
    count * (unit as u128)
}

/// A byte count as text: `500 B`, `2 KiB`, `5.0 MiB`, `3.0 GiB`.
pub fn human_size(bytes: u64) -> (text: String)
    ensures
        text@ == human_text(bytes as nat),
{
    let mut text = String::new();
    if bytes >= GIB {
        let tenths: u128 = rounded_quotient(as_double(bytes) * 10, GIB);
        push_one_place(&mut text, tenths);
        text.append(" GiB");
    } else if bytes >= MIB {
        let tenths: u128 = rounded_quotient(as_double(bytes) * 10, MIB);
        push_one_place(&mut text, tenths);
        text.append(" MiB");
    } else if bytes >= KIB {
        let units: u128 = rounded_quotient(as_double(bytes), KIB);
        push_decimal(&mut text, units);
        text.append(" KiB");
    } else {
        push_decimal(&mut text, bytes as u128);
        text.append(" B");
    }
    text
}

} // verus!
