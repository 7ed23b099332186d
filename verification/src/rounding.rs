//! Rounding the way binary floating point rounds, in whole numbers.
//!
//! Sizes are scaled and colours are mixed in binary arithmetic of a fixed precision:
//! every result is the nearest number with so many significant bits, and of two that
//! are equally near the even one. Here a number is a count of some power of two, so
//! the same results come out of integers, and a contract can say what they are.

use vstd::prelude::*;

verus! {

/// The spacing of the numbers with at most `bits` significant bits around `n`: the
/// smallest power of two of which `n` holds fewer than two to the power of `bits`.
pub open spec fn grain(n: nat, bits: nat) -> nat
    decreases n,
{
    if n < vstd::arithmetic::power2::pow2(bits) || n < 2 {
        1
    } else {
        2 * grain(n / 2, bits)
    }
}

/// The integer nearest to `num / den`, the even one of two that are equally near.
pub open spec fn half_even(num: nat, den: nat) -> nat
    recommends
        den > 0,
{
    let quotient = num / den;
    let rest = num % den;
    if 2 * rest < den || 2 * rest == den && quotient % 2 == 0 {
        quotient
    } else {
        quotient + 1
    }
}

/// `n` rounded to `bits` significant bits.
pub open spec fn significant(n: nat, bits: nat) -> nat {
    half_even(n, grain(n, bits)) * grain(n, bits)
}

/// `num / den` rounded to `bits` significant bits, for a quotient that has as many
/// before its point.
pub open spec fn quotient(num: nat, den: nat, bits: nat) -> nat {
    let step = grain(num / den, bits);
    half_even(num, den * step) * step
}

/// The integer nearest to `num / den`, the larger one of two that are equally near.
pub open spec fn half_up(num: nat, den: nat) -> nat {
    (2 * num + den) / (2 * den)
}

/// The spacing is at least one, and where it is more, `n` holds at least half of two to
/// the power of `bits` of it.
pub proof fn lemma_grain(n: nat, bits: nat)
    requires
        bits >= 1,
    ensures
        1 <= grain(n, bits),
        grain(n, bits) <= (if n == 0 { 1 } else { n }),
        n < vstd::arithmetic::power2::pow2(bits) * grain(n, bits),
        grain(n, bits) > 1 ==> vstd::arithmetic::power2::pow2(bits) * grain(n, bits) <= 2 * n,
    decreases n,
{
    let limit = vstd::arithmetic::power2::pow2(bits);
    vstd::arithmetic::power2::lemma_pow2_unfold(bits);
    vstd::arithmetic::power2::lemma_pow2_pos((bits - 1) as nat);
    if n < limit || n < 2 {
        assert(limit * 1 == limit);
    } else {
        lemma_grain(n / 2, bits);
        let half = grain(n / 2, bits);
        assert(limit * (2 * half) == 2 * (limit * half)) by (nonlinear_arith);
    }
}

/// The spacing around `n`, found by halving.
pub fn grain_of(n: u128, bits: u32) -> (step: u128)
    requires
        1 <= bits <= 64,
    ensures
        step == grain(n as nat, bits as nat),
{
    proof {
        vstd::arithmetic::power2::lemma_pow2_unfold(bits as nat);
        vstd::arithmetic::power2::lemma_pow2_pos((bits - 1) as nat);
    }
    let limit: u128 = power_of(bits);
    let mut rest: u128 = n;
    let mut step: u128 = 1;
    while rest >= limit
        invariant
            limit == vstd::arithmetic::power2::pow2(bits as nat),
            limit >= 2,
            1 <= step,
            rest * step <= n,
            grain(n as nat, bits as nat) == step * grain(rest as nat, bits as nat),
        decreases rest,
    {
        assert((rest / 2) * (step * 2) <= rest * step) by (nonlinear_arith)
            requires
                rest >= 0,
                step >= 1,
        ;
        assert(step * 2 <= u128::MAX) by (nonlinear_arith)
            requires
                rest * step <= n <= u128::MAX,
                rest >= 2,
                step >= 1,
        ;
        assert(step * (2 * grain((rest / 2) as nat, bits as nat)) == (step * 2) * grain(
            (rest / 2) as nat,
            bits as nat,
        )) by (nonlinear_arith);
        rest = rest / 2;
        step = step * 2;
    }
    assert(step * 1 == step);
    step
}

/// Two to the power of `bits`.
fn power_of(bits: u32) -> (power: u128)
    requires
        bits <= 64,
    ensures
        power == vstd::arithmetic::power2::pow2(bits as nat),
        power <= 0x1_0000_0000_0000_0000,
{
    let mut power: u128 = 1;
    let mut i: u32 = 0;
    proof {
        vstd::arithmetic::power2::lemma2_to64();
    }
    while i < bits
        invariant
            i <= bits <= 64,
            power == vstd::arithmetic::power2::pow2(i as nat),
            power <= 0x1_0000_0000_0000_0000,
        decreases bits - i,
    {
        proof {
            vstd::arithmetic::power2::lemma_pow2_unfold((i + 1) as nat);
            vstd::arithmetic::power2::lemma2_to64();
            if i + 1 < 64 {
                vstd::arithmetic::power2::lemma_pow2_strictly_increases((i + 1) as nat, 64);
            }
        }
        power = power * 2;
        i += 1;
    }
    power
}

/// The integer nearest to `num / den`, ties to even.
pub fn half_even_of(num: u128, den: u128) -> (nearest: u128)
    requires
        1 <= den,
        den >= 2 || num < u128::MAX,
    ensures
        nearest == half_even(num as nat, den as nat),
{
    let quotient: u128 = num / den;
    let rest: u128 = num % den;
    if rest < den - rest || rest == den - rest && quotient % 2 == 0 {
        quotient
    } else {
        assert(quotient < u128::MAX) by (nonlinear_arith)
            requires
                quotient == num / den,
                den >= 2 || num < u128::MAX,
                den >= 1,
                num <= u128::MAX,
        ;
        quotient + 1
    }
}

/// `n` rounded to `bits` significant bits.
pub fn significant_of(n: u128, bits: u32) -> (rounded: u128)
    requires
        1 <= bits <= 64,
        n <= 0x7fff_ffff_ffff_ffff_ffff_ffff_ffff_ffff,
    ensures
        rounded == significant(n as nat, bits as nat),
{
    let step: u128 = grain_of(n, bits);
    proof {
        lemma_grain(n as nat, bits as nat);
        lemma_half_even_fits(n as nat, step as nat);
    }
    half_even_of(n, step) * step
}

/// Rounding to a multiple of `step` moves a number by at most half a step.
pub proof fn lemma_half_even_fits(n: nat, step: nat)
    requires
        step >= 1,
    ensures
        2 * (half_even(n, step) * step) <= 2 * n + step,
        2 * n <= 2 * (half_even(n, step) * step) + step,
{
    let q = n / step;
    let r = n % step;
    assert(n == step * q + r && 0 <= r < step) by (nonlinear_arith)
        requires
            q == n / step,
            r == n % step,
            step >= 1,
    ;
    assert((q + 1) * step == step * q + step && q * step == step * q) by (nonlinear_arith);
}

/// `num / den` rounded to `bits` significant bits.
pub fn quotient_of(num: u128, den: u128, bits: u32) -> (rounded: u128)
    requires
        1 <= den <= 0xffff_ffff,
        1 <= bits <= 64,
        num <= 0x3fff_ffff_ffff_ffff_ffff_ffff_ffff_ffff,
    ensures
        rounded == quotient(num as nat, den as nat, bits as nat),
{
    let whole: u128 = num / den;
    let step: u128 = grain_of(whole, bits);
    proof {
        lemma_grain(whole as nat, bits as nat);
        assert(den * whole <= num) by (nonlinear_arith)
            requires
                whole == num / den,
                den >= 1,
        ;
        assert(den * step <= num + den) by (nonlinear_arith)
            requires
                den * whole <= num,
                step <= whole || step == 1,
                den >= 1,
        ;
        assert(den * step >= 1) by (nonlinear_arith)
            requires
                den >= 1,
                step >= 1,
        ;
        let scaled = (den * step) as nat;
        lemma_half_even_fits(num as nat, scaled);
        let h = half_even(num as nat, scaled);
        assert(h * step <= h * scaled) by (nonlinear_arith)
            requires
                scaled == den * step,
                den >= 1,
                step >= 1,
                h >= 0,
        ;
    }
    half_even_of(num, den * step) * step
}

/// A rounded quotient is off by less than one of its spacing.
pub proof fn lemma_quotient_bound(num: nat, den: nat, bits: nat)
    requires
        den >= 1,
        bits >= 1,
    ensures
        quotient(num, den, bits) <= num / den + 1 + grain(num / den, bits),
{
    let whole = num / den;
    let step = grain(whole, bits);
    lemma_grain(whole, bits);
    let scaled = (den * step) as nat;
    assert(scaled >= 1) by (nonlinear_arith)
        requires
            den >= 1,
            step >= 1,
            scaled == den * step,
    ;
    lemma_half_even_fits(num, scaled);
    let h = half_even(num, scaled);
    assert(num < den * (whole + 1)) by (nonlinear_arith)
        requires
            whole == num / den,
            den >= 1,
    ;
    assert(h * step <= whole + 1 + step) by (nonlinear_arith)
        requires
            2 * (h * scaled) <= 2 * num + scaled,
            num < den * (whole + 1),
            scaled == den * step,
            den >= 1,
            step >= 1,
    ;
}

/// The integer nearest to `num / den`, ties upwards.
pub fn half_up_of(num: u128, den: u128) -> (nearest: u128)
    requires
        1 <= den,
        num <= 0x3fff_ffff_ffff_ffff_ffff_ffff_ffff_ffff,
        den <= 0x3fff_ffff_ffff_ffff_ffff_ffff_ffff_ffff,
    ensures
        nearest == half_up(num as nat, den as nat),
{
    (2 * num + den) / (2 * den)
}

/// A larger number has the same spacing or one at least twice as large.
proof fn lemma_grain_in_order(small: nat, large: nat, bits: nat)
    requires
        small <= large,
        bits >= 1,
    ensures
        grain(small, bits) == grain(large, bits) || 2 * grain(small, bits) <= grain(large, bits),
    decreases large,
{
    let limit = vstd::arithmetic::power2::pow2(bits);
    vstd::arithmetic::power2::lemma_pow2_unfold(bits);
    vstd::arithmetic::power2::lemma_pow2_pos((bits - 1) as nat);
    if large >= limit {
        lemma_grain(large / 2, bits);
        if small >= limit {
            lemma_grain_in_order(small / 2, large / 2, bits);
        }
    }
}

/// Rounding to the nearest multiple keeps numbers in order.
proof fn lemma_half_even_in_order(small: nat, large: nat, den: nat)
    requires
        small <= large,
        den >= 1,
    ensures
        half_even(small, den) <= half_even(large, den),
{
    vstd::arithmetic::div_mod::lemma_div_is_ordered(small as int, large as int, den as int);
    if small / den == large / den {
        vstd::arithmetic::div_mod::lemma_fundamental_div_mod(small as int, den as int);
        vstd::arithmetic::div_mod::lemma_fundamental_div_mod(large as int, den as int);
    }
}

/// Rounding to significant bits keeps numbers in order.
pub proof fn lemma_significant_in_order(small: nat, large: nat, bits: nat)
    requires
        small <= large,
        bits >= 1,
    ensures
        significant(small, bits) <= significant(large, bits),
{
    let limit = vstd::arithmetic::power2::pow2(bits);
    let low = grain(small, bits);
    let high = grain(large, bits);
    lemma_grain_in_order(small, large, bits);
    lemma_grain(small, bits);
    lemma_grain(large, bits);
    if low == high {
        lemma_half_even_in_order(small, large, low);
        let a = half_even(small, low);
        let b = half_even(large, low);
        assert(a * low <= b * low) by (nonlinear_arith)
            requires
                a <= b,
        ;
    } else {
        // The smaller rounds to at most the limit of its spacing, the larger to at least
        // half the limit of its own, which is no less.
        let a = half_even(small, low);
        let b = half_even(large, high);
        assert(a <= limit) by {
            lemma_half_even_in_order(small, limit * low, low);
            vstd::arithmetic::div_mod::lemma_div_multiples_vanish(limit as int, low as int);
            vstd::arithmetic::div_mod::lemma_mod_multiples_basic(limit as int, low as int);
            assert(low * limit == limit * low) by (nonlinear_arith);
            assert(half_even(limit * low, low) == limit);
        }
        vstd::arithmetic::power2::lemma_pow2_unfold(bits);
        let half = vstd::arithmetic::power2::pow2((bits - 1) as nat);
        assert(half * high <= large) by (nonlinear_arith)
            requires
                limit * high <= 2 * large,
                limit == 2 * half,
        ;
        assert(b >= half) by {
            lemma_half_even_in_order(half * high, large, high);
            vstd::arithmetic::div_mod::lemma_div_multiples_vanish(half as int, high as int);
            vstd::arithmetic::div_mod::lemma_mod_multiples_basic(half as int, high as int);
            assert(high * half == half * high) by (nonlinear_arith);
            assert(half_even(half * high, high) == half);
        }
        assert(a * low <= b * high) by (nonlinear_arith)
            requires
                a <= 2 * half,
                b >= half,
                2 * low <= high,
                low >= 0,
                half >= 0,
        ;
    }
}

/// Halving a number with fewer than `bits` significant bits leaves nothing over as long as
/// its spacing is more than one.
proof fn lemma_grain_divides(k: nat, m: nat, bits: nat)
    requires
        bits >= 1,
        k < vstd::arithmetic::power2::pow2(bits),
    ensures
        (k * vstd::arithmetic::power2::pow2(m)) % grain(
            k * vstd::arithmetic::power2::pow2(m),
            bits,
        ) == 0,
    decreases m,
{
    let n = k * vstd::arithmetic::power2::pow2(m);
    let limit = vstd::arithmetic::power2::pow2(bits);
    vstd::arithmetic::power2::lemma_pow2_unfold(bits);
    vstd::arithmetic::power2::lemma_pow2_pos((bits - 1) as nat);
    if n >= limit {
        if m == 0 {
            vstd::arithmetic::power2::lemma2_to64();
            assert(k * 1 == k);
        }
        let half = k * vstd::arithmetic::power2::pow2((m - 1) as nat);
        vstd::arithmetic::power2::lemma_pow2_unfold(m);
        assert(n == 2 * half) by (nonlinear_arith)
            requires
                n == k * vstd::arithmetic::power2::pow2(m),
                half == k * vstd::arithmetic::power2::pow2((m - 1) as nat),
                vstd::arithmetic::power2::pow2(m) == 2 * vstd::arithmetic::power2::pow2(
                    (m - 1) as nat,
                ),
        ;
        lemma_grain_divides(k, (m - 1) as nat, bits);
        lemma_grain(half, bits);
        let step = grain(half, bits);
        vstd::arithmetic::div_mod::lemma_fundamental_div_mod(half as int, step as int);
        let times = half as int / step as int;
        assert(n == times * (2 * step)) by (nonlinear_arith)
            requires
                n == 2 * half,
                half == step * times,
        ;
        vstd::arithmetic::div_mod::lemma_mod_multiples_basic(times, (2 * step) as int);
    }
}

/// A number that has at most `bits` significant bits is left as it is.
pub proof fn lemma_significant_exact(k: nat, m: nat, bits: nat)
    requires
        bits >= 1,
        k < vstd::arithmetic::power2::pow2(bits),
    ensures
        significant(k * vstd::arithmetic::power2::pow2(m), bits) == k
            * vstd::arithmetic::power2::pow2(m),
{
    let n = k * vstd::arithmetic::power2::pow2(m);
    lemma_grain_divides(k, m, bits);
    lemma_grain(n, bits);
    let step = grain(n, bits);
    vstd::arithmetic::div_mod::lemma_fundamental_div_mod(n as int, step as int);
    assert((n / step) * step == step * (n / step)) by (nonlinear_arith);
}

/// The spacing is a power of two, and a number rounds to a count of it that has at most
/// `bits` significant bits.
proof fn lemma_significant_shape(n: nat, bits: nat) -> (m: nat)
    requires
        bits >= 1,
    ensures
        grain(n, bits) == vstd::arithmetic::power2::pow2(m),
        half_even(n, grain(n, bits)) <= vstd::arithmetic::power2::pow2(bits),
    decreases n,
{
    let limit = vstd::arithmetic::power2::pow2(bits);
    lemma_grain(n, bits);
    let step = grain(n, bits);
    assert(half_even(n, step) <= limit) by {
        lemma_half_even_in_order(n, limit * step, step);
        vstd::arithmetic::div_mod::lemma_div_multiples_vanish(limit as int, step as int);
        vstd::arithmetic::div_mod::lemma_mod_multiples_basic(limit as int, step as int);
        assert(step * limit == limit * step) by (nonlinear_arith);
        assert(half_even(limit * step, step) == limit);
    }
    if n < limit || n < 2 {
        vstd::arithmetic::power2::lemma2_to64();
        0
    } else {
        let m = lemma_significant_shape(n / 2, bits);
        vstd::arithmetic::power2::lemma_pow2_unfold(m + 1);
        m + 1
    }
}

/// A rounded number, and a rounded number times a power of two, is not rounded any further.
pub proof fn lemma_significant_again(n: nat, m: nat, bits: nat)
    requires
        bits >= 1,
    ensures
        significant(significant(n, bits) * vstd::arithmetic::power2::pow2(m), bits)
            == significant(n, bits) * vstd::arithmetic::power2::pow2(m),
{
    let j = lemma_significant_shape(n, bits);
    let k = half_even(n, grain(n, bits));
    let limit = vstd::arithmetic::power2::pow2(bits);
    vstd::arithmetic::power2::lemma_pow2_adds(j, m);
    let unit = vstd::arithmetic::power2::pow2(j);
    let scale = vstd::arithmetic::power2::pow2(m);
    assert((k * unit) * scale == k * (unit * scale)) by (nonlinear_arith);
    if k < limit {
        lemma_significant_exact(k, j + m, bits);
    } else {
        vstd::arithmetic::power2::lemma_pow2_adds(bits, j + m);
        vstd::arithmetic::power2::lemma_pow2_unfold(bits);
        vstd::arithmetic::power2::lemma_pow2_pos((bits - 1) as nat);
        lemma_significant_exact(1, bits + (j + m), bits);
    }
}

/// Rounding to 53 significant bits moves a number by a part in two to the power of 53 at most.
pub proof fn lemma_significant_near(n: nat)
    ensures
        -n <= 0x20_0000_0000_0000 * (significant(n, 53) - n) <= n,
{
    let step = grain(n, 53);
    lemma_grain(n, 53);
    lemma_half_even_fits(n, step);
    vstd::arithmetic::power2::lemma2_to64_rest();
    assert(vstd::arithmetic::power2::pow2(53) == 0x20_0000_0000_0000);
    if step == 1 {
        assert(half_even(n, 1) == n);
        assert(n * 1 == n);
    }
}

/// A quotient rounded to 53 significant bits is off by half its spacing at most.
pub proof fn lemma_quotient_near(num: nat, den: nat) -> (step: nat)
    requires
        den >= 1,
    ensures
        1 <= step,
        step == 1 || 0x20_0000_0000_0000 * step <= 2 * (num / den),
        -(den * step) <= 2 * (quotient(num, den, 53) * den - num) <= den * step,
{
    let whole = num / den;
    lemma_grain(whole, 53);
    vstd::arithmetic::power2::lemma2_to64_rest();
    assert(vstd::arithmetic::power2::pow2(53) == 0x20_0000_0000_0000);
    let step = grain(whole, 53);
    let scaled = (den * step) as nat;
    assert(scaled >= 1) by (nonlinear_arith)
        requires
            scaled == den * step,
            den >= 1,
            step >= 1,
    ;
    lemma_half_even_fits(num, scaled);
    let h = half_even(num, scaled);
    assert(h * scaled == (h * step) * den) by (nonlinear_arith)
        requires
            scaled == den * step,
    ;
    step
}

/// The nearest whole number is off by half at most.
pub proof fn lemma_half_up_near(num: nat, den: nat)
    requires
        den >= 1,
    ensures
        -den <= 2 * (half_up(num, den) * den - num) <= den,
{
    assert(-den <= 2 * (half_up(num, den) * den - num) <= den) by (nonlinear_arith)
        requires
            half_up(num, den) == (2 * num + den) / (2 * den),
            den >= 1,
    ;
}

} // verus!
