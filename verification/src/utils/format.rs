use vstd::arithmetic::div_mod::{lemma_div_denominator, lemma_fundamental_div_mod};
use vstd::prelude::*;

verus! {

/// Below this bound (two to the 53rd) every integer is exactly an `f64`.
pub const F64_EXACT_BOUND: u64 = 0x20_0000_0000_0000;

/// One kibibyte.
pub const KIB: u128 = 1024;

/// One mebibyte.
pub const MIB: u128 = 1048576;

/// One gibibyte.
pub const GIB: u128 = 1073741824;

/// The character of a decimal digit `d` (`0 <= d < 10`).
pub open spec fn digit_char(d: nat) -> char {
    (d + 48) as char
}

/// Decimal representation of `n`, without leading zeros.
pub open spec fn decimal_digits(n: nat) -> Seq<char>
    decreases n,
{
    if n < 10 {
        seq![digit_char(n)]
    } else {
        decimal_digits(n / 10).push(digit_char(n % 10))
    }
}

/// `n / d` rounded to the nearest integer, ties to the even one.
pub open spec fn round_half_even(n: nat, d: nat) -> nat
    recommends
        d > 0,
{
    let q = n / d;
    let r = n % d;
    if 2 * r > d || (2 * r == d && q % 2 == 1) {
        q + 1
    } else {
        q
    }
}

/// Distance between neighbouring `f64` values around the integer `b`, for the
/// part of the range that an unsigned 64-bit integer can reach.
pub open spec fn f64_spacing(b: nat) -> nat
    decreases b,
{
    if b < F64_EXACT_BOUND {
        1
    } else {
        2 * f64_spacing(b / 2)
    }
}

/// The value of `b as f64`: `b` rounded to the nearest multiple of the
/// spacing, ties to an even multiple.
pub open spec fn as_f64_value(b: nat) -> nat {
    round_half_even(b, f64_spacing(b)) * f64_spacing(b)
}

/// A value given in hundredths, written with exactly two decimals.
pub open spec fn two_decimals(h: nat) -> Seq<char> {
    decimal_digits(h / 100).push('.').push(digit_char((h / 10) % 10)).push(digit_char(h % 10))
}

/// What `format_total_bytes` writes for `bytes`: the value of `bytes` as an
/// `f64`, in the largest binary unit up to GB that it reaches; bytes as a
/// whole number, the larger units rounded to two decimals (ties to even).
pub open spec fn total_bytes_text(bytes: u64) -> Seq<char> {
    let v = as_f64_value(bytes as nat);
    if v < KIB {
        decimal_digits(v) + seq![' ', 'B']
    } else if v < MIB {
        two_decimals(round_half_even(v * 100, KIB as nat)) + seq![' ', 'K', 'B']
    } else if v < GIB {
        two_decimals(round_half_even(v * 100, MIB as nat)) + seq![' ', 'M', 'B']
    } else {
        two_decimals(round_half_even(v * 100, GIB as nat)) + seq![' ', 'G', 'B']
    }
}

/// Appends one character to a string (std's `String::push`): the new view is
/// the old one with `c` at the end.
#[verifier::external_body]
pub(crate) fn push_char(s: &mut String, c: char)
    ensures
        final(s)@ == old(s)@.push(c),
{
    s.push(c);
}

/// The character of the decimal digit `d`.
fn digit(d: u128) -> (c: char)
    requires
        d < 10,
    ensures
        c == digit_char(d as nat),
{
    let b: u8 = (d as u8) + 48u8;
    b as char
}

/// Appends the decimal representation of `n`.
pub(crate) fn push_decimal(s: &mut String, n: u128)
    ensures
        final(s)@ == old(s)@ + decimal_digits(n as nat),
    decreases n,
{
    if n >= 10 {
        push_decimal(s, n / 10);
    }
    push_char(s, digit(n % 10));
    proof {
        assert(final(s)@ =~= old(s)@ + decimal_digits(n as nat));
    }
}

/// Appends a value given in hundredths with exactly two decimals.
fn push_two_decimals(s: &mut String, h: u128)
    ensures
        final(s)@ == old(s)@ + two_decimals(h as nat),
{
    push_decimal(s, h / 100);
    push_char(s, '.');
    push_char(s, digit((h / 10) % 10));
    push_char(s, digit(h % 10));
    proof {
        assert(final(s)@ =~= old(s)@ + two_decimals(h as nat));
    }
}

/// `n / d` rounded half to even.
fn round_half_even_exec(n: u128, d: u128) -> (q: u128)
    requires
        d > 0,
        n < 0x1_0000_0000_0000_0000_0000_0000,
    ensures
        q == round_half_even(n as nat, d as nat),
{
    let q = n / d;
    let r = n % d;
    proof {
        lemma_fundamental_div_mod(n as int, d as int);
        assert(q <= n) by (nonlinear_arith)
            requires
                n == d * q + r,
                d > 0,
                r >= 0,
                q >= 0,
        ;
    }
    if 2 * r > d || (2 * r == d && q % 2 == 1) {
        q + 1
    } else {
        q
    }
}

/// The exact value of `b as f64`.
pub(crate) fn as_f64_exec(b: u64) -> (v: u128)
    ensures
        v == as_f64_value(b as nat),
        v <= 0x2_0000_0000_0000_0000,
{
    let mut unit: u128 = 1;
    let mut t: u64 = b;
    while t >= F64_EXACT_BOUND
        invariant
            unit >= 1,
            t as int == (b as int) / (unit as int),
            unit <= b as int || unit == 1,
            f64_spacing(b as nat) == unit * f64_spacing(t as nat),
        decreases t,
    {
        proof {
            lemma_div_denominator(b as int, unit as int, 2);
            lemma_fundamental_div_mod(b as int, unit as int);
            let bi = b as int;
            let ui = unit as int;
            let ti = t as int;
            let ri = bi % ui;
            assert(ui * 2 <= bi) by (nonlinear_arith)
                requires
                    bi == ui * ti + ri,
                    ri >= 0,
                    ti >= 2,
                    ui >= 1,
            ;
            let s = f64_spacing((t / 2) as nat);
            assert(unit * (2 * s) == (unit * 2) * s) by (nonlinear_arith);
        }
        t = t / 2;
        unit = unit * 2;
    }
    proof {
        let sp = f64_spacing(t as nat);
        assert(sp == 1);
        assert(unit * sp == unit) by (nonlinear_arith)
            requires
                sp == 1,
        ;
    }
    assert(f64_spacing(b as nat) == unit);
    let q = round_half_even_exec(b as u128, unit);
    proof {
        lemma_fundamental_div_mod(b as int, unit as int);
        let bi = b as int;
        let ui = unit as int;
        let qi = q as int;
        let fq = bi / ui;
        let ri = bi % ui;
        assert(qi * ui <= bi + ui) by (nonlinear_arith)
            requires
                qi <= fq + 1,
                bi == ui * fq + ri,
                ri >= 0,
                ri <= ui,
                ui >= 1,
        ;
    }
    q * unit
}

/// Format total bytes into a human-readable quantity.
///
/// The count is taken as an `f64` and scaled to B, KB, MB or GB (binary
/// units); bytes are written as a whole number, the other units with two
/// decimals rounded half to even.
pub fn format_total_bytes(bytes: u64) -> (text: String)
    ensures
        text@ == total_bytes_text(bytes),
{
    let v = as_f64_exec(bytes);
    let mut s = String::new();
    if v < KIB {
        push_decimal(&mut s, v);
        push_char(&mut s, ' ');
        push_char(&mut s, 'B');
    } else if v < MIB {
        let h = round_half_even_exec(v * 100, KIB);
        push_two_decimals(&mut s, h);
        push_char(&mut s, ' ');
        push_char(&mut s, 'K');
        push_char(&mut s, 'B');
    } else if v < GIB {
        let h = round_half_even_exec(v * 100, MIB);
        push_two_decimals(&mut s, h);
        push_char(&mut s, ' ');
        push_char(&mut s, 'M');
        push_char(&mut s, 'B');
    } else {
        let h = round_half_even_exec(v * 100, GIB);
        push_two_decimals(&mut s, h);
        push_char(&mut s, ' ');
        push_char(&mut s, 'G');
        push_char(&mut s, 'B');
    }
    proof {
        assert(s@ =~= total_bytes_text(bytes));
    }
    s
}

/// Integers below two to the 53rd are exact as `f64` values.
pub proof fn lemma_small_counts_are_exact(b: nat)
    requires
        b < F64_EXACT_BOUND,
    ensures
        as_f64_value(b) == b,
{
    assert(b / 1 == b && b % 1 == 0) by (nonlinear_arith);
    assert(b * 1 == b);
}

/// From two to the 53rd on, the spacing fits at least two to the 52nd times
/// into the count.
proof fn lemma_spacing_bound(b: nat)
    requires
        b >= F64_EXACT_BOUND,
    ensures
        f64_spacing(b) * 0x10_0000_0000_0000 <= b,
        f64_spacing(b) >= 2,
    decreases b,
{
    let h = b / 2;
    if h >= F64_EXACT_BOUND {
        lemma_spacing_bound(h);
        let sh = f64_spacing(h);
        assert(2 * sh * 0x10_0000_0000_0000 <= b) by (nonlinear_arith)
            requires
                sh * 0x10_0000_0000_0000 <= h,
                h == b / 2,
        ;
    } else {
        assert(f64_spacing(h) == 1);
    }
}

/// Counts from two to the 53rd on stay at least that large as `f64` values.
proof fn lemma_large_counts_stay_large(b: nat)
    requires
        b >= F64_EXACT_BOUND,
    ensures
        as_f64_value(b) >= F64_EXACT_BOUND,
{
    lemma_spacing_bound(b);
    let u = f64_spacing(b);
    let q = round_half_even(b, u);
    assert(q >= b / u);
    assert(b / u >= 0x10_0000_0000_0000) by (nonlinear_arith)
        requires
            u * 0x10_0000_0000_0000 <= b,
            u >= 2,
    {
        vstd::arithmetic::div_mod::lemma_div_is_ordered(
            (u * 0x10_0000_0000_0000) as int,
            b as int,
            u as int,
        );
        vstd::arithmetic::div_mod::lemma_div_multiples_vanish(0x10_0000_0000_0000, u as int);
    }
    assert(q * u >= 0x10_0000_0000_0000 * 2) by (nonlinear_arith)
        requires
            q >= 0x10_0000_0000_0000,
            u >= 2,
    ;
}

/// The unit of a total follows the byte count: below 1024 it is bytes,
/// written exactly; then KB, MB, and GB from one gibibyte on.
pub proof fn lemma_total_bytes_unit(bytes: u64)
    ensures
        bytes < KIB ==> total_bytes_text(bytes) == decimal_digits(bytes as nat) + seq![' ', 'B'],
        KIB <= bytes < MIB ==> total_bytes_text(bytes) == two_decimals(
            round_half_even(bytes as nat * 100, KIB as nat),
        ) + seq![' ', 'K', 'B'],
        MIB <= bytes < GIB ==> total_bytes_text(bytes) == two_decimals(
            round_half_even(bytes as nat * 100, MIB as nat),
        ) + seq![' ', 'M', 'B'],
        bytes >= GIB ==> total_bytes_text(bytes) == two_decimals(
            round_half_even(as_f64_value(bytes as nat) * 100, GIB as nat),
        ) + seq![' ', 'G', 'B'],
{
    if bytes < F64_EXACT_BOUND {
        lemma_small_counts_are_exact(bytes as nat);
    } else {
        lemma_large_counts_stay_large(bytes as nat);
    }
}

/// Format an optional value to a string, using "-" when absent.
pub fn format_optional<T: std::fmt::Display>(opt: &Option<T>) -> (text: String)
    ensures
        opt is None ==> text@ == seq!['-'],
        opt matches Some(n) ==> vstd::string::to_string_from_display_ensures::<T>(n, text),
{
    match opt {
        Some(n) => n.to_string(),
        None => {
            let mut s = String::new();
            push_char(&mut s, '-');
            s
        },
    }
}

} // verus!
