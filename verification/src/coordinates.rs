//! Map coordinates: degrees, minutes and seconds as one decimal number.
//!
//! The arithmetic is binary with 53 significant bits, rounded after every step. Numbers
//! are counts of 2^-96, fine enough to hold every intermediate result exactly. A number
//! that does not fit is held by a coarser count and what is left over.

use vstd::prelude::*;
use crate::rounding;
use crate::rounding::grain_of;
use crate::rounding::half_even_of;
use crate::rounding::quotient_of;
use crate::rounding::significant_of;
use crate::text;
use crate::text::to_decimal;

verus! {

/// A fraction as EXIF stores one: a numerator and a denominator.
pub type Fraction = (u32, u32);

/// The value of a fraction, in units of 2^-84.
pub open spec fn value_of(part: Fraction) -> nat {
    rounding::quotient((part.0 * 0x10_0000_0000_0000_0000_0000) as nat, part.1 as nat, 53)
}

/// Degrees, minutes and seconds added up, in units of 2^-96.
pub open spec fn magnitude(degrees: Fraction, minutes: Fraction, seconds: Fraction) -> nat {
    let d = value_of(degrees) * 4096;
    let m = rounding::quotient((value_of(minutes) * 64) as nat, 60, 53) * 64;
    let s = rounding::quotient((value_of(seconds) * 4096) as nat, 3600, 53);
    rounding::significant((rounding::significant((d + m) as nat, 53) + s) as nat, 53)
}

/// A number below a million in six digits.
pub open spec fn six_digits(n: nat) -> Seq<char> {
    seq![
        text::digit_char(n / 100000 % 10),
        text::digit_char(n / 10000 % 10),
        text::digit_char(n / 1000 % 10),
        text::digit_char(n / 100 % 10),
        text::digit_char(n / 10 % 10),
        text::digit_char(n % 10),
    ]
}

/// How many millionths are nearest to a number of units of 2^-96.
pub open spec fn millionths(units: nat) -> nat {
    rounding::half_even((units * 1000000) as nat, 0x1_0000_0000_0000_0000_0000_0000)
}

/// A count of millionths as a decimal number with six places.
pub open spec fn six_places(count: nat) -> Seq<char> {
    text::decimal(count / 1000000).push('.') + six_digits(count % 1000000)
}

/// A coordinate as text: six places, and a sign in front of the southern and western
/// halves.
pub open spec fn degrees_text(
    degrees: Fraction,
    minutes: Fraction,
    seconds: Fraction,
    negative: bool,
) -> Seq<char> {
    let digits = six_places(millionths(magnitude(degrees, minutes, seconds)));
    if negative {
        seq!['-'] + digits
    } else {
        digits
    }
}

proof fn lemma_half_even_double(num: nat, den: nat)
    requires
        den >= 1,
    ensures
        rounding::half_even(2 * num, 2 * den) == rounding::half_even(num, den),
{
    let q = num / den;
    let r = num % den;
    assert((2 * num) / (2 * den) == q && (2 * num) % (2 * den) == 2 * r) by (nonlinear_arith)
        requires
            q == num / den,
            r == num % den,
            den >= 1,
    {
        vstd::arithmetic::div_mod::lemma_fundamental_div_mod(num as int, den as int);
        assert(2 * num == (2 * den) * q + 2 * r);
        vstd::arithmetic::div_mod::lemma_fundamental_div_mod_converse(
            2 * num as int,
            2 * den as int,
            q as int,
            2 * r as int,
        );
    }
}

proof fn lemma_limit()
    ensures
        vstd::arithmetic::power2::pow2(53) == 0x20_0000_0000_0000,
{
    vstd::arithmetic::power2::lemma2_to64_rest();
}

/// Twice a number rounds to twice the rounded number.
proof fn lemma_significant_double(n: nat)
    ensures
        rounding::significant(2 * n, 53) == 2 * rounding::significant(n, 53),
{
    lemma_limit();
    let step = rounding::grain(n, 53);
    rounding::lemma_grain(n, 53);
    if 2 * n < 0x20_0000_0000_0000 {
        assert(step == 1);
        assert(rounding::grain(2 * n, 53) == 1);
        assert(rounding::half_even(n, 1) == n && rounding::half_even(2 * n, 1) == 2 * n);
    } else {
        assert((2 * n) / 2 == n);
        assert(rounding::grain(2 * n, 53) == 2 * step);
        lemma_half_even_double(n, step);
        let h = rounding::half_even(n, step);
        assert(h * (2 * step) == 2 * (h * step)) by (nonlinear_arith);
    }
}

/// The same for sixty-four times.
proof fn lemma_significant_times_64(n: nat)
    ensures
        rounding::significant(64 * n, 53) == 64 * rounding::significant(n, 53),
{
    lemma_significant_double(n);
    lemma_significant_double(2 * n);
    lemma_significant_double(4 * n);
    lemma_significant_double(8 * n);
    lemma_significant_double(16 * n);
    lemma_significant_double(32 * n);
}

/// A quotient of twice a number is twice the quotient, once it has all its bits.
proof fn lemma_quotient_double(num: nat, den: nat)
    requires
        den >= 1,
        num / den >= 0x10_0000_0000_0000,
    ensures
        rounding::quotient(2 * num, den, 53) == 2 * rounding::quotient(num, den, 53),
        (2 * num) / den >= 0x10_0000_0000_0000,
{
    lemma_limit();
    let whole = num / den;
    let twice = (2 * num) / den;
    assert(2 * whole <= twice <= 2 * whole + 1) by (nonlinear_arith)
        requires
            whole == num / den,
            twice == (2 * num) / den,
            den >= 1,
    {
        vstd::arithmetic::div_mod::lemma_fundamental_div_mod(num as int, den as int);
        vstd::arithmetic::div_mod::lemma_fundamental_div_mod(2 * num as int, den as int);
    }
    let step = rounding::grain(whole, 53);
    rounding::lemma_grain(whole, 53);
    assert(twice / 2 == whole);
    assert(rounding::grain(twice, 53) == 2 * step);
    let scaled = (den * step) as nat;
    assert(den * (2 * step) == 2 * scaled && scaled >= 1) by (nonlinear_arith)
        requires
            scaled == den * step,
            den >= 1,
            step >= 1,
    ;
    lemma_half_even_double(num, scaled);
    let h = rounding::half_even(num, scaled);
    assert(h * (2 * step) == 2 * (h * step)) by (nonlinear_arith);
}

/// The same for 4096 times.
proof fn lemma_quotient_times_4096(num: nat, den: nat)
    requires
        den >= 1,
        num / den >= 0x10_0000_0000_0000,
    ensures
        rounding::quotient(4096 * num, den, 53) == 4096 * rounding::quotient(num, den, 53),
{
    lemma_quotient_double(num, den);
    lemma_quotient_double(2 * num, den);
    lemma_quotient_double(4 * num, den);
    lemma_quotient_double(8 * num, den);
    lemma_quotient_double(16 * num, den);
    lemma_quotient_double(32 * num, den);
    lemma_quotient_double(64 * num, den);
    lemma_quotient_double(128 * num, den);
    lemma_quotient_double(256 * num, den);
    lemma_quotient_double(512 * num, den);
    lemma_quotient_double(1024 * num, den);
    lemma_quotient_double(2048 * num, den);
}

/// Appending a bit to a number that fills its digits doubles its spacing.
proof fn lemma_grain_append(n: nat, bit: nat)
    requires
        bit <= 1,
        n >= 0x20_0000_0000_0000,
    ensures
        rounding::grain((2 * n + bit) as nat, 53) == 2 * rounding::grain(n, 53),
{
    lemma_limit();
    assert(((2 * n + bit) as nat) / 2 == n);
}

/// Appending six bits.
proof fn lemma_grain_append_6(n: nat, rest: nat)
    requires
        rest < 64,
        n >= 0x20_0000_0000_0000,
    ensures
        rounding::grain((64 * n + rest) as nat, 53) == 64 * rounding::grain(n, 53),
{
    lemma_grain_append(n, rest / 32);
    lemma_grain_append((2 * n + rest / 32) as nat, rest / 16 % 2);
    lemma_grain_append((4 * n + rest / 16) as nat, rest / 8 % 2);
    lemma_grain_append((8 * n + rest / 8) as nat, rest / 4 % 2);
    lemma_grain_append((16 * n + rest / 4) as nat, rest / 2 % 2);
    lemma_grain_append((32 * n + rest / 2) as nat, rest % 2);
}

/// Rounds `64 * n + rest` for an `n` that is large, in units sixty-four times as coarse.
fn significant_wide(n: u128, rest: u128) -> (rounded: u128)
    requires
        0x100_0000_0000_0000_0000_0000_0000_0000 <= n
            <= 0x1000_0000_0000_0000_0000_0000_0000_0000,
        rest < 64,
    ensures
        64 * rounded == rounding::significant((64 * n + rest) as nat, 53),
        rounded <= 0x2000_0000_0000_0000_0000_0000_0000_0000,
{
    let step: u128 = grain_of(n, 53);
    let ghost whole = (64 * n + rest) as nat;
    proof {
        lemma_limit();
        rounding::lemma_grain(n as nat, 53);
        lemma_grain_append_6(n as nat, rest as nat);
        // The spacing is even: `n` is far above the limit.
        assert(step >= 2) by {
            assert(n < 0x20_0000_0000_0000 * step);
        }
        assert(rounding::grain(n as nat, 53) == 2 * rounding::grain((n / 2) as nat, 53));
    }
    let quotient: u128 = n / step;
    let over: u128 = n % step;
    proof {
        vstd::arithmetic::div_mod::lemma_fundamental_div_mod(n as int, step as int);
        assert(step * quotient == quotient * step && quotient * step <= n) by (nonlinear_arith)
            requires
                n == step * quotient + over,
                over >= 0,
        ;
        assert((quotient + 1) * step == quotient * step + step) by (nonlinear_arith);
        assert(whole == (64 * step) * quotient + (64 * over + rest)) by (nonlinear_arith)
            requires
                n == step * quotient + over,
                whole == 64 * n + rest,
        ;
        assert(64 * over + rest < 64 * step);
        vstd::arithmetic::div_mod::lemma_fundamental_div_mod_converse(
            whole as int,
            64 * step as int,
            quotient as int,
            64 * over as int + rest as int,
        );
        assert(quotient * (64 * step) == 64 * (quotient * step)) by (nonlinear_arith);
        assert((quotient + 1) * (64 * step) == 64 * ((quotient + 1) * step)) by (nonlinear_arith);
    }
    let below = over < step - over;
    let tied = over == step - over && rest == 0;
    if below || tied && quotient % 2 == 0 {
        quotient * step
    } else {
        (quotient + 1) * step
    }
}

/// The value of a fraction.
fn value(part: Fraction) -> (units: u128)
    requires
        part.1 >= 1,
    ensures
        units == value_of(part),
        units <= 0x20_0000_0000_0000_0000_0000_0000_0000,
{
    let num: u128 = part.0 as u128 * 0x10_0000_0000_0000_0000_0000;
    proof {
        rounding::lemma_quotient_bound(num as nat, part.1 as nat, 53);
        rounding::lemma_grain((num / part.1 as u128) as nat, 53);
        assert(num / part.1 as u128 <= num) by (nonlinear_arith)
            requires
                part.1 >= 1,
                num >= 0,
        ;
    }
    quotient_of(num, part.1 as u128, 53)
}

/// The millionths of a number given by its whole units and what is left over.
proof fn lemma_millionths(whole: nat, rest: nat, unit: nat)
    requires
        unit >= 1,
        rest < unit,
    ensures
        rounding::half_even(((whole * unit + rest) * 1000000) as nat, unit) == whole * 1000000
            + rounding::half_even((rest * 1000000) as nat, unit),
{
    let small = (rest * 1000000) as nat;
    let all = ((whole * unit + rest) * 1000000) as nat;
    let q = small / unit;
    let r = small % unit;
    vstd::arithmetic::div_mod::lemma_fundamental_div_mod(small as int, unit as int);
    assert(all == unit * (whole * 1000000 + q) + r) by (nonlinear_arith)
        requires
            small == unit * q + r,
            small == rest * 1000000,
            all == (whole * unit + rest) * 1000000,
    ;
    vstd::arithmetic::div_mod::lemma_fundamental_div_mod_converse(
        all as int,
        unit as int,
        (whole * 1000000 + q) as int,
        r as int,
    );
    assert((whole * 1000000 + q) % 2 == q % 2);
}

/// Counts the millionths of `units`, of which `one` make up one.
fn count_millionths(units: u128, one: u128) -> (count: u128)
    requires
        0x1_0000 <= one <= 0x1_0000_0000_0000_0000_0000_0000,
        units <= 0x5000_0000_0000_0000_0000_0000_0000_0000,
        units / one <= 0x100_0000_0000,
    ensures
        count == rounding::half_even((units * 1000000) as nat, one as nat),
        count <= 0x1000_0000_0000_0000,
{
    let whole: u128 = units / one;
    let rest: u128 = units % one;
    proof {
        vstd::arithmetic::div_mod::lemma_fundamental_div_mod(units as int, one as int);
        assert(whole * one == one * whole) by (nonlinear_arith);
        lemma_millionths(whole as nat, rest as nat, one as nat);
        let small = (rest * 1000000) as nat;
        rounding::lemma_half_even_fits(small, one as nat);
        let h = rounding::half_even(small, one as nat);
        assert(h <= 1000001) by (nonlinear_arith)
            requires
                2 * (h * one) <= 2 * small + one,
                small <= 1000000 * one,
                one >= 1,
        ;
    }
    whole * 1000000 + half_even_of(rest * 1000000, one)
}

/// The millionths of a coordinate, without its sign.
fn millionths_of(degrees: Fraction, minutes: Fraction, seconds: Fraction) -> (count: u128)
    requires
        degrees.1 >= 1,
        minutes.1 >= 1,
        seconds.1 >= 1,
    ensures
        count == millionths(magnitude(degrees, minutes, seconds)),
        count <= 0x1000_0000_0000_0000,
{
    let d: u128 = value(degrees);
    let m: u128 = value(minutes);
    let s: u128 = value(seconds);
    // Degrees and minutes in units of 2^-90.
    proof {
        rounding::lemma_quotient_bound((m * 64) as nat, 60, 53);
        rounding::lemma_grain((m * 64 / 60) as nat, 53);
    }
    let minute_part: u128 = quotient_of(m * 64, 60, 53);
    let coarse: u128 = d * 64 + minute_part;
    proof {
        lemma_significant_times_64(coarse as nat);
        rounding::lemma_grain(coarse as nat, 53);
        rounding::lemma_half_even_fits(coarse as nat, rounding::grain(coarse as nat, 53));
    }
    let sum: u128 = significant_of(coarse, 53);
    // Seconds in the same units, and what is left over of 2^-96.
    let ghost second_units = rounding::quotient((s * 4096) as nat, 3600, 53);
    let high: u128;
    let low: u128;
    if s < 0x1_0000_0000_0000_0000_0000_0000_0000 {
        proof {
            rounding::lemma_quotient_bound((s * 4096) as nat, 3600, 53);
            rounding::lemma_grain((s * 4096 / 3600) as nat, 53);
        }
        let fine: u128 = quotient_of(s * 4096, 3600, 53);
        high = fine / 64;
        low = fine % 64;
    } else {
        proof {
            lemma_quotient_times_4096(s as nat, 3600);
            rounding::lemma_quotient_bound(s as nat, 3600, 53);
            rounding::lemma_grain((s / 3600) as nat, 53);
        }
        high = quotient_of(s, 3600, 53) * 64;
        low = 0;
    }
    assert(64 * high + low == second_units);
    let n: u128 = sum + high;
    let ghost total = (64 * n + low) as nat;
    assert(total == rounding::significant((d * 4096 + minute_part * 64) as nat, 53)
        + second_units);
    if n < 0x100_0000_0000_0000_0000_0000_0000_0000 {
        proof {
            lemma_limit();
            rounding::lemma_grain(total, 53);
            rounding::lemma_half_even_fits(total, rounding::grain(total, 53));
        }
        let units: u128 = significant_of(64 * n + low, 53);
        count_millionths(units, 0x1_0000_0000_0000_0000_0000_0000)
    } else {
        let units: u128 = significant_wide(n, low);
        proof {
            lemma_half_even_times_64(
                (units * 1000000) as nat,
                0x400_0000_0000_0000_0000_0000,
            );
        }
        count_millionths(units, 0x400_0000_0000_0000_0000_0000)
    }
}

proof fn lemma_half_even_times_64(num: nat, den: nat)
    requires
        den >= 1,
    ensures
        rounding::half_even(64 * num, 64 * den) == rounding::half_even(num, den),
{
    lemma_half_even_double(num, den);
    lemma_half_even_double(2 * num, 2 * den);
    lemma_half_even_double(4 * num, 4 * den);
    lemma_half_even_double(8 * num, 8 * den);
    lemma_half_even_double(16 * num, 16 * den);
    lemma_half_even_double(32 * num, 32 * den);
}

fn digit(n: u64) -> (c: char)
    requires
        n < 10,
    ensures
        c == text::digit_char(n as nat),
{
    (48u8 + n as u8) as char
}

/// A coordinate as text.
pub fn decimal_degrees(
    degrees: Fraction,
    minutes: Fraction,
    seconds: Fraction,
    negative: bool,
) -> (shown: String)
    requires
        degrees.1 >= 1,
        minutes.1 >= 1,
        seconds.1 >= 1,
    ensures
        shown@ == degrees_text(degrees, minutes, seconds, negative),
{
    let count: u64 = millionths_of(degrees, minutes, seconds) as u64;
    let mut shown = if negative {
        "-".to_owned()
    } else {
        String::new()
    };
    proof {
        reveal_strlit("-");
    }
    shown.append(to_decimal(count / 1000000).as_str());
    shown.push('.');
    let rest: u64 = count % 1000000;
    shown.push(digit(rest / 100000 % 10));
    shown.push(digit(rest / 10000 % 10));
    shown.push(digit(rest / 1000 % 10));
    shown.push(digit(rest / 100 % 10));
    shown.push(digit(rest / 10 % 10));
    shown.push(digit(rest % 10));
    assert(shown@ =~= degrees_text(degrees, minutes, seconds, negative));
    shown
}

/// A coordinate is its degrees, a sixtieth of its minutes and a sixtieth of a sixtieth of its
/// seconds, to the nearest millionth of a degree, written with six places behind the point.
pub proof fn law_minutes_and_seconds_are_sixtieths(
    degrees: Fraction,
    minutes: Fraction,
    seconds: Fraction,
) -> (count: nat)
    requires
        degrees.1 >= 1 && degrees.0 <= 1000 * degrees.1,
        minutes.1 >= 1 && minutes.0 <= 1000 * minutes.1,
        seconds.1 >= 1 && seconds.0 <= 1000 * seconds.1,
    ensures
        ({
            let (b, e, g) = (degrees.1 as int, minutes.1 as int, seconds.1 as int);
            let all = b * (e * g);
            let sum = 3600 * (degrees.0 * (e * g)) + 60 * (minutes.0 * (b * g)) + seconds.0 * (b
                * e);
            -3601 * all <= 7200 * (all * count) - 2000000 * sum <= 3601 * all
        }),
        ({
            let text = degrees_text(degrees, minutes, seconds, false);
            let whole = text::decimal(count / 1000000);
            &&& text.len() == whole.len() + 7
            &&& text.take(whole.len() as int) == whole
            &&& text[whole.len() as int] == '.'
            &&& text::digits_value(text.skip(whole.len() as int + 1)) == Some(count % 1000000)
        }),
        degrees_text(degrees, minutes, seconds, true) == seq!['-'] + degrees_text(
            degrees,
            minutes,
            seconds,
            false,
        ),
{
    let total = magnitude(degrees, minutes, seconds);
    let count = millionths(total);
    lemma_magnitude_near(degrees, minutes, seconds);
    let (b, e, g) = (degrees.1 as int, minutes.1 as int, seconds.1 as int);
    let all = b * (e * g);
    let sum = 3600 * (degrees.0 * (e * g)) + 60 * (minutes.0 * (b * g)) + seconds.0 * (b * e);
    let unit: int = 0x1_0000_0000_0000_0000_0000_0000;
    rounding::lemma_half_even_fits((total * 1000000) as nat, unit as nat);
    let f = 2 * (count * unit - total * 1000000);
    let d = 3600 * (all * total) - unit * sum;
    assert(all >= 1) by (nonlinear_arith)
        requires
            all == b * (e * g),
            b >= 1,
            e >= 1,
            g >= 1,
    ;
    assert(unit * (7200 * (all * count) - 2000000 * sum) == 3600 * (all * f) + 2000000 * d)
        by (nonlinear_arith)
        requires
            f == 2 * (count * unit - total * 1000000),
            d == 3600 * (all * total) - unit * sum,
    ;
    assert(-(all * unit) <= all * f <= all * unit) by (nonlinear_arith)
        requires
            -unit <= f <= unit,
            all >= 1,
    ;
    assert(all * unit == unit * all) by (nonlinear_arith);
    assert(-3601 * all <= 7200 * (all * count) - 2000000 * sum <= 3601 * all);
    let text = degrees_text(degrees, minutes, seconds, false);
    let whole = text::decimal(count / 1000000);
    let rest = count % 1000000;
    assert(text =~= whole + seq!['.'] + six_digits(rest));
    assert(text.take(whole.len() as int) =~= whole);
    assert(text.skip(whole.len() as int + 1) =~= six_digits(rest));
    lemma_six_digits(rest);
    count
}

proof fn lemma_six_digits(n: nat)
    requires
        n < 1000000,
    ensures
        text::digits_value(six_digits(n)) == Some(n),
{
    let s = six_digits(n);
    assert(text::digits_value(s.take(0)) == Some(0nat));
    assert(s.take(1).drop_last() =~= s.take(0));
    assert(text::digits_value(s.take(1)) == Some(n / 100000));
    assert(s.take(2).drop_last() =~= s.take(1));
    assert(text::digits_value(s.take(2)) == Some(n / 10000));
    assert(s.take(3).drop_last() =~= s.take(2));
    assert(text::digits_value(s.take(3)) == Some(n / 1000));
    assert(s.take(4).drop_last() =~= s.take(3));
    assert(text::digits_value(s.take(4)) == Some(n / 100));
    assert(s.take(5).drop_last() =~= s.take(4));
    assert(text::digits_value(s.take(5)) == Some(n / 10));
    assert(s.drop_last() =~= s.take(5));
}

/// The value of a fraction, but for the rounding.
proof fn lemma_value_near(part: Fraction)
    requires
        part.1 >= 1,
        part.0 <= 1000 * part.1,
    ensures
        -(part.1 * 0x200_0000_0000) <= value_of(part) * part.1 - part.0
            * 0x10_0000_0000_0000_0000_0000 <= part.1 * 0x200_0000_0000,
        value_of(part) <= 1001 * 0x10_0000_0000_0000_0000_0000,
{
    let unit: int = 0x10_0000_0000_0000_0000_0000;
    let num = (part.0 * 0x10_0000_0000_0000_0000_0000) as nat;
    let den = part.1 as int;
    let step = rounding::lemma_quotient_near(num, part.1 as nat);
    assert(num as int / den <= 1000 * unit) by (nonlinear_arith)
        requires
            num == part.0 * unit,
            part.0 <= 1000 * den,
            den >= 1,
            unit >= 0,
    ;
    assert(step <= 0x400_0000_0000);
    let v = value_of(part);
    let e = v * den - num;
    assert(-(den * 0x200_0000_0000) <= e <= den * 0x200_0000_0000) by (nonlinear_arith)
        requires
            -(den * step) <= 2 * e <= den * step,
            0 <= step <= 0x400_0000_0000,
            den >= 1,
    ;
    assert(v <= 1001 * unit) by (nonlinear_arith)
        requires
            v * den == num + e,
            num <= 1000 * den * unit,
            e <= den * 0x200_0000_0000,
            unit >= 0x200_0000_0000,
            den >= 1,
    ;
}

/// Degrees, minutes and seconds added up, but for the rounding.
proof fn lemma_magnitude_near(degrees: Fraction, minutes: Fraction, seconds: Fraction)
    requires
        degrees.1 >= 1 && degrees.0 <= 1000 * degrees.1,
        minutes.1 >= 1 && minutes.0 <= 1000 * minutes.1,
        seconds.1 >= 1 && seconds.0 <= 1000 * seconds.1,
    ensures
        ({
            let (b, e, g) = (degrees.1 as int, minutes.1 as int, seconds.1 as int);
            let all = b * (e * g);
            let sum = 3600 * (degrees.0 * (e * g)) + 60 * (minutes.0 * (b * g)) + seconds.0 * (b
                * e);
            -(all * 0x40_0000_0000_0000_0000) <= 3600 * (all * magnitude(degrees, minutes, seconds))
                - 0x1_0000_0000_0000_0000_0000_0000 * sum <= all * 0x40_0000_0000_0000_0000
        }),
{
    lemma_value_near(degrees);
    lemma_value_near(minutes);
    lemma_value_near(seconds);
    let (vd, vm, vs) = (value_of(degrees), value_of(minutes), value_of(seconds));
    let s1 = rounding::lemma_quotient_near((vm * 64) as nat, 60);
    let s2 = rounding::lemma_quotient_near((vs * 4096) as nat, 3600);
    let d = vd * 4096;
    let m = rounding::quotient((vm * 64) as nat, 60, 53) * 64;
    let s = rounding::quotient((vs * 4096) as nat, 3600, 53);
    rounding::lemma_significant_near((d + m) as nat);
    let first = rounding::significant((d + m) as nat, 53);
    rounding::lemma_significant_near((first + s) as nat);
    let total = magnitude(degrees, minutes, seconds);
    let off = 3600 * total - (14745600 * vd + 245760 * vm + 4096 * vs);
    assert(-0x20_0000_0000_0000_0000 <= off <= 0x20_0000_0000_0000_0000);
    let (b, e, g) = (degrees.1 as int, minutes.1 as int, seconds.1 as int);
    let all = b * (e * g);
    let unit: int = 0x10_0000_0000_0000_0000_0000;
    let slack: int = 0x200_0000_0000;
    let (ed, em, es) = (
        vd * b - degrees.0 * unit,
        vm * e - minutes.0 * unit,
        vs * g - seconds.0 * unit,
    );
    let (x, y, z) = (
        degrees.0 * (e * g),
        minutes.0 * (b * g),
        seconds.0 * (b * e),
    );
    assert(all * vd == unit * x + (e * g) * ed) by (nonlinear_arith)
        requires
            all == b * (e * g),
            x == degrees.0 * (e * g),
            ed == vd * b - degrees.0 * unit,
    ;
    assert(all * vm == unit * y + (b * g) * em) by (nonlinear_arith)
        requires
            all == b * (e * g),
            y == minutes.0 * (b * g),
            em == vm * e - minutes.0 * unit,
    ;
    assert(all * vs == unit * z + (b * e) * es) by (nonlinear_arith)
        requires
            all == b * (e * g),
            z == seconds.0 * (b * e),
            es == vs * g - seconds.0 * unit,
    ;
    lemma_slack(b, e * g, ed, slack);
    lemma_slack(e, b * g, em, slack);
    lemma_slack(g, b * e, es, slack);
    assert(e * g >= 1 && b * g >= 1 && b * e >= 1 && all >= 1 && e * (b * g) == all && g * (b * e)
        == all) by (nonlinear_arith)
        requires
            b >= 1,
            e >= 1,
            g >= 1,
            all == b * (e * g),
    ;
    assert(3600 * (all * total) == 14745600 * (all * vd) + 245760 * (all * vm) + 4096 * (all * vs)
        + all * off) by (nonlinear_arith)
        requires
            3600 * total == 14745600 * vd + 245760 * vm + 4096 * vs + off,
    ;
    assert(-(all * 0x20_0000_0000_0000_0000) <= all * off <= all * 0x20_0000_0000_0000_0000)
        by (nonlinear_arith)
        requires
            -0x20_0000_0000_0000_0000 <= off <= 0x20_0000_0000_0000_0000,
            all >= 1,
    ;
}

proof fn lemma_slack(own: int, others: int, error: int, slack: int)
    requires
        own >= 1,
        others >= 0,
        -(own * slack) <= error <= own * slack,
    ensures
        -((own * others) * slack) <= others * error <= (own * others) * slack,
{
    assert(-((own * others) * slack) <= others * error <= (own * others) * slack)
        by (nonlinear_arith)
        requires
            others >= 0,
            -(own * slack) <= error <= own * slack,
    ;
}

} // verus!
