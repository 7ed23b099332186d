//! Bringing a picture down to a size it has to fit in.

use vstd::prelude::*;
use crate::edit::Applied;
use crate::imageops;
use crate::imageops::resize;
use crate::imageops::Filter;
use crate::raster;
use crate::raster::Picture;
use crate::raster::Raster;
use crate::rounding;
use crate::rounding::half_up_of;
use crate::rounding::quotient_of;
use crate::rounding::significant_of;

verus! {

/// Two to the power of 85, of which a scale below one is a count.
pub const UNIT: u128 = 0x20_0000_0000_0000_0000_0000;

pub open spec fn longest(size: (u32, u32)) -> u32 {
    if size.0 >= size.1 {
        size.0
    } else {
        size.1
    }
}

/// The factor that brings a longest side down to a limit, in binary arithmetic with 53
/// significant bits, or nothing if it is within the limit already.
pub open spec fn scale_for(size: (u32, u32), limit: u32) -> Option<nat> {
    if longest(size) > limit {
        Some(rounding::quotient((limit * UNIT) as nat, longest(size) as nat, 53))
    } else {
        None
    }
}

/// One side times a factor, to the nearest whole number and never to nothing.
pub open spec fn side_at(side: u32, scale: nat) -> nat {
    let nearest = rounding::half_up(rounding::significant(side as nat * scale, 53), UNIT as nat);
    if nearest < 1 {
        1
    } else {
        nearest
    }
}

/// The size of a picture once its longest side is within a limit.
pub open spec fn size_within(size: (u32, u32), limit: u32) -> (nat, nat) {
    match scale_for(size, limit) {
        Some(scale) => (side_at(size.0, scale), side_at(size.1, scale)),
        None => (size.0 as nat, size.1 as nat),
    }
}

/// A scale below one takes no side past where it was.
proof fn lemma_scale_shrinks(side: u32, size: (u32, u32), limit: u32)
    requires
        longest(size) > limit,
        side <= longest(size),
    ensures
        scale_for(size, limit)->0 <= UNIT,
        side as nat * scale_for(size, limit)->0 <= 0xffff_ffff * UNIT,
        rounding::significant(side as nat * scale_for(size, limit)->0, 53) <= 0x1_0000_0000 * UNIT,
        side_at(side, scale_for(size, limit)->0) <= (if side < 1 { 1 } else { side }),
{
    let den = longest(size) as nat;
    let num = (limit * UNIT) as nat;
    let scale = scale_for(size, limit)->0;
    vstd::arithmetic::power2::lemma2_to64_rest();
    assert(vstd::arithmetic::power2::pow2(53) == 0x20_0000_0000_0000);
    let whole = num / den;
    // The quotient stays a whole 2^-32 below one.
    assert(num + UNIT <= den * UNIT) by (nonlinear_arith)
        requires
            num == limit * UNIT,
            limit + 1 <= den,
            UNIT > 0,
    ;
    assert(whole * 0xffff_ffff <= (UNIT - 1) * 0xffff_ffff && whole <= UNIT - 0x20_0000_0000_0000)
        by {
        assert(den * whole <= num) by (nonlinear_arith)
            requires
                whole == num / den,
                den >= 1,
        ;
        let slack = UNIT - whole;
        assert(den * slack >= UNIT) by (nonlinear_arith)
            requires
                den * whole <= num,
                num + UNIT <= den * UNIT,
                slack == UNIT - whole,
        ;
        assert(slack >= 0x20_0000_0000_0000) by (nonlinear_arith)
            requires
                den * slack >= 0x20_0000_0000_0000_0000_0000,
                1 <= den <= 0x1_0000_0000,
        ;
    }
    rounding::lemma_quotient_bound(num, den, 53);
    rounding::lemma_grain(whole, 53);
    let grain = rounding::grain(whole, 53);
    assert(grain <= 0x2_0000_0000) by {
        if grain > 1 {
            assert(0x20_0000_0000_0000 * grain <= 2 * whole);
        }
    }
    assert(scale <= UNIT - 0x10_0000_0000_0000);
    let n = side as nat * scale;
    assert(n <= side * (UNIT - 0x10_0000_0000_0000)) by (nonlinear_arith)
        requires
            n == side * scale,
            scale <= UNIT - 0x10_0000_0000_0000,
            side >= 0,
    ;
    assert(side * (UNIT - 0x10_0000_0000_0000) == side * UNIT - side * 0x10_0000_0000_0000)
        by (nonlinear_arith);
    assert(side * UNIT <= 0xffff_ffff * UNIT) by (nonlinear_arith)
        requires
            0 <= side <= 0xffff_ffff,
    ;
    assert(n >= 0) by (nonlinear_arith)
        requires
            n == side * scale,
            side >= 0,
            scale >= 0,
    ;
    rounding::lemma_grain(n, 53);
    let step = rounding::grain(n, 53);
    rounding::lemma_half_even_fits(n, step);
    let product = rounding::significant(n, 53);
    assert(2 * product <= 2 * n + step);
    if side == 0 {
        assert(n == 0) by (nonlinear_arith)
            requires
                n == side * scale,
                side == 0,
        ;
        assert(product <= 1);
    } else {
        // Half a step is at most n / 2^53, which the slack in the scale covers.
        assert(step <= 1 || 0x20_0000_0000_0000 * step <= 2 * n);
        assert(2 * product <= 2 * (side * UNIT));
    }
    lemma_nearest_below(product, UNIT as nat, if side < 1 { 1 } else { side as nat });
}

/// A number less than half a unit above `k` units is nearest to at most `k`.
proof fn lemma_nearest_below(num: nat, den: nat, k: nat)
    requires
        den >= 1,
        2 * num < 2 * (k * den) + den,
    ensures
        rounding::half_up(num, den) <= k,
{
    assert((2 * num + den) / (2 * den) <= k) by (nonlinear_arith)
        requires
            den >= 1,
            2 * num < 2 * (k * den) + den,
    ;
}

/// The longest side, scaled, does not pass the limit, and so no other side does.
proof fn lemma_scale_keeps_the_limit(side: u32, size: (u32, u32), limit: u32)
    requires
        longest(size) > limit >= 1,
        side <= longest(size),
    ensures
        side_at(side, scale_for(size, limit)->0) <= limit,
{
    let den = longest(size) as nat;
    let num = (limit * UNIT) as nat;
    let scale = scale_for(size, limit)->0;
    let whole = num / den;
    let step = rounding::grain(whole, 53);
    vstd::arithmetic::power2::lemma2_to64_rest();
    assert(vstd::arithmetic::power2::pow2(53) == 0x20_0000_0000_0000);
    rounding::lemma_grain(whole, 53);
    assert(whole <= UNIT) by (nonlinear_arith)
        requires
            whole == num / den,
            num == limit * UNIT,
            limit <= den,
            den >= 1,
            UNIT > 0,
    ;
    assert(step <= 0x2_0000_0000);
    let scaled = (den * step) as nat;
    assert(1 <= scaled <= 0x2_0000_0000 * 0x1_0000_0000) by (nonlinear_arith)
        requires
            scaled == den * step,
            1 <= den <= 0x1_0000_0000,
            1 <= step <= 0x2_0000_0000,
    ;
    rounding::lemma_half_even_fits(num, scaled);
    let h = rounding::half_even(num, scaled);
    assert(scale == h * step);
    let n = side as nat * scale;
    assert(n <= h * scaled && n >= 0) by (nonlinear_arith)
        requires
            n == side * (h * step),
            0 <= side <= den,
            scaled == den * step,
            h >= 0,
            step >= 1,
    ;
    assert(limit * UNIT <= 0xffff_ffff * UNIT) by (nonlinear_arith)
        requires
            limit <= 0xffff_ffff,
    ;
    rounding::lemma_grain(n, 53);
    let fine = rounding::grain(n, 53);
    rounding::lemma_half_even_fits(n, fine);
    let product = rounding::significant(n, 53);
    assert(2 * product <= 2 * n + fine);
    assert(fine <= 1 || 0x20_0000_0000_0000 * fine <= 2 * n);
    lemma_nearest_below(product, UNIT as nat, limit as nat);
}

/// The scale that brings a picture within a limit, as a count of 2^-85.
pub fn fit_scale(width: u32, height: u32, max_side: u32) -> (scale: Option<u128>)
    ensures
        scale is Some == (scale_for((width, height), max_side) is Some),
        scale matches Some(scale) ==> scale == scale_for((width, height), max_side)->0,
{
    let longest: u32 = if width >= height {
        width
    } else {
        height
    };
    if longest <= max_side {
        return None;
    }
    Some(quotient_of(max_side as u128 * UNIT, longest as u128, 53))
}

/// The size of a picture once its longest side is within a limit.
pub fn fitted_size(width: u32, height: u32, max_side: u32) -> (size: (u32, u32))
    ensures
        (size.0 as nat, size.1 as nat) == size_within((width, height), max_side),
        size.0 <= width || size.0 == 1,
        size.1 <= height || size.1 == 1,
        longest((width, height)) > max_side ==> size.0 >= 1 && size.1 >= 1,
        max_side >= 1 ==> size.0 <= max_side && size.1 <= max_side,
{
    match fit_scale(width, height, max_side) {
        None => (width, height),
        Some(scale) => {
            proof {
                lemma_scale_shrinks(width, (width, height), max_side);
                lemma_scale_shrinks(height, (width, height), max_side);
                if max_side >= 1 {
                    lemma_scale_keeps_the_limit(width, (width, height), max_side);
                    lemma_scale_keeps_the_limit(height, (width, height), max_side);
                }
            }
            let across: u128 = half_up_of(significant_of(width as u128 * scale, 53), UNIT);
            let down: u128 = half_up_of(significant_of(height as u128 * scale, 53), UNIT);
            (
                if across < 1 {
                    1
                } else {
                    across as u32
                },
                if down < 1 {
                    1
                } else {
                    down as u32
                },
            )
        },
    }
}

/// Whether a picture of this size can be brought within a limit.
pub open spec fn fittable(size: (u32, u32), limit: u32) -> bool {
    let within = size_within(size, limit);
    longest(size) <= limit || imageops::can_resize(
        Filter::Triangle,
        (size.0 as int, size.1 as int),
        (within.0 as int, within.1 as int),
    )
}

/// Whether a picture of this size can be brought within a limit.
pub fn can_fit(size: (u32, u32), max_side: u32) -> (can: bool)
    ensures
        can == fittable(size, max_side),
{
    let longest: u32 = if size.0 >= size.1 {
        size.0
    } else {
        size.1
    };
    longest <= max_side || imageops::resizable(
        Filter::Triangle,
        size,
        fitted_size(size.0, size.1, max_side),
    )
}

/// What is left of a picture that has to fit: itself, or a smaller one resized with the
/// triangle filter.
pub open spec fn fitted(pixels: Raster, limit: u32) -> Picture {
    let size = size_within((pixels.width, pixels.height), limit);
    if longest((pixels.width, pixels.height)) <= limit {
        pixels@
    } else {
        raster::picture_of(
            size.0,
            size.1,
            imageops::triangle_resized(
                pixels.width as nat,
                pixels.height as nat,
                pixels.pixels@,
                size.0,
                size.1,
            ),
        )
    }
}

/// A picture brought within a limit, borrowed if it is there already.
pub fn fit_within<'a>(pixels: &'a Raster, max_side: u32) -> (out: Applied<'a>)
    requires
        pixels.wf(),
        fittable((pixels.width, pixels.height), max_side),
    ensures
        out.wf(),
        out is Borrowed == (longest((pixels.width, pixels.height)) <= max_side),
        out matches Applied::Borrowed(same) ==> same == pixels,
        out.picture() == fitted(*pixels, max_side),
        out.picture().width == size_within((pixels.width, pixels.height), max_side).0,
        out.picture().height == size_within((pixels.width, pixels.height), max_side).1,
        max_side >= 1 ==> out.picture().width <= max_side && out.picture().height <= max_side,
{
    let longest: u32 = if pixels.width >= pixels.height {
        pixels.width
    } else {
        pixels.height
    };
    if longest <= max_side {
        return Applied::Borrowed(pixels);
    }
    let size = fitted_size(pixels.width, pixels.height, max_side);
    Applied::Owned(resize(pixels, size.0, size.1, Filter::Triangle))
}

/// A picture that fits is not touched, and one that does not comes out within the limit,
/// with no side longer than before and none rounded away.
pub proof fn law_fitting_only_shrinks(size: (u32, u32), limit: u32)
    requires
        size.0 >= 1,
        size.1 >= 1,
    ensures
        longest(size) <= limit ==> size_within(size, limit) == (size.0 as nat, size.1 as nat),
        1 <= size_within(size, limit).0 <= size.0,
        1 <= size_within(size, limit).1 <= size.1,
        limit >= 1 ==> size_within(size, limit).0 <= limit && size_within(size, limit).1 <= limit,
{
    if longest(size) > limit {
        lemma_scale_shrinks(size.0, size, limit);
        lemma_scale_shrinks(size.1, size, limit);
        if limit >= 1 {
            lemma_scale_keeps_the_limit(size.0, size, limit);
            lemma_scale_keeps_the_limit(size.1, size, limit);
        }
    }
}

/// Fitting keeps the shape of a picture: its longer side comes out at the limit, and each side
/// in the same measure, to the nearest pixel and never to none.
pub proof fn law_fitting_keeps_the_shape(size: (u32, u32), limit: u32)
    requires
        size.0 >= 1,
        size.1 >= 1,
        limit >= 1,
        size.0 > limit || size.1 > limit,
    ensures
        ({
            let long = if size.0 < size.1 { size.1 as int } else { size.0 as int };
            let near = |out: int, side: int|
                out == 1 && 2 * (side * limit) < long || -1001 * long <= 2000 * (out * long - side
                    * limit) <= 1001 * long;
            let out = size_within(size, limit);
            &&& near(out.0 as int, size.0 as int) && near(out.1 as int, size.1 as int)
            &&& size.0 >= size.1 ==> out.0 == limit
            &&& size.1 >= size.0 ==> out.1 == limit
        }),
{
    let long = longest(size) as int;
    lemma_side_near(size, limit, size.0);
    lemma_side_near(size, limit, size.1);
    let out = size_within(size, limit);
    if size.0 >= size.1 {
        lemma_longest_side(out.0 as int, long, limit as int);
    }
    if size.1 >= size.0 {
        lemma_longest_side(out.1 as int, long, limit as int);
    }
}

proof fn lemma_longest_side(out: int, long: int, limit: int)
    requires
        long >= 1,
        limit >= 1,
        out == 1 && 2 * (long * limit) < long || -1001 * long <= 2000 * (out * long - long * limit)
            <= 1001 * long,
    ensures
        out == limit,
{
    assert(long * limit >= long) by (nonlinear_arith)
        requires
            long >= 1,
            limit >= 1,
    ;
    assert(out * long - long * limit == (out - limit) * long) by (nonlinear_arith);
    if out > limit {
        assert((out - limit) * long >= long) by (nonlinear_arith)
            requires
                out - limit >= 1,
                long >= 1,
        ;
    }
    if out < limit {
        assert((out - limit) * long <= -long) by (nonlinear_arith)
            requires
                out - limit <= -1,
                long >= 1,
        ;
    }
}

/// One side at the scale that fits the longer one.
proof fn lemma_side_near(size: (u32, u32), limit: u32, side: u32)
    requires
        limit >= 1,
        longest(size) > limit,
        1 <= side <= longest(size),
    ensures
        ({
            let long = longest(size) as int;
            let out = side_at(side, scale_for(size, limit)->0) as int;
            out == 1 && 2 * (side * limit) < long || -1001 * long <= 2000 * (out * long - side
                * limit) <= 1001 * long
        }),
{
    let long = longest(size) as int;
    let unit: int = UNIT as int;
    let num = (limit * UNIT) as nat;
    let scale = rounding::quotient(num, long as nat, 53);
    let step = rounding::lemma_quotient_near(num, long as nat);
    assert(num as int / long <= unit) by (nonlinear_arith)
        requires
            num == limit * unit,
            0 <= limit < long,
            unit >= 0,
    ;
    assert(step <= 0x2_0000_0000);
    let e = scale * long - limit * unit;
    assert(-(long * 0x1_0000_0000) <= e <= long * 0x1_0000_0000) by (nonlinear_arith)
        requires
            -(long * step) <= 2 * e <= long * step,
            0 <= step <= 0x2_0000_0000,
            long >= 1,
    ;
    assert(scale <= 2 * unit) by (nonlinear_arith)
        requires
            scale * long == limit * unit + e,
            e <= long * 0x1_0000_0000,
            limit < long,
            unit >= 0x1_0000_0000,
            long >= 1,
    ;
    let product = side as nat * scale;
    let wide = rounding::significant(product, 53);
    rounding::lemma_significant_near(product);
    assert(0 <= product <= 0x1_0000_0000 * (2 * unit)) by (nonlinear_arith)
        requires
            product == side * scale,
            0 <= side <= 0xffff_ffff,
            0 <= scale <= 2 * unit,
    ;
    let d = wide - product;
    assert(-0x2_0000_0000_0000_0000 <= d <= 0x2_0000_0000_0000_0000);
    let nearest = rounding::half_up(wide, UNIT as nat);
    rounding::lemma_half_up_near(wide, UNIT as nat);
    let f = 2 * (nearest * unit - wide);
    let gap = nearest * long - side * limit;
    assert(2 * (gap * unit) == long * f + 2 * (long * d) + 2 * (side * e)) by (nonlinear_arith)
        requires
            gap == nearest * long - side * limit,
            f == 2 * (nearest * unit - wide),
            d == wide - product,
            product == side * scale,
            e == scale * long - limit * unit,
    ;
    assert(-(long * unit) <= long * f <= long * unit) by (nonlinear_arith)
        requires
            -unit <= f <= unit,
            long >= 1,
    ;
    assert(-(long * 0x2_0000_0000_0000_0000) <= long * d <= long * 0x2_0000_0000_0000_0000)
        by (nonlinear_arith)
        requires
            -0x2_0000_0000_0000_0000 <= d <= 0x2_0000_0000_0000_0000,
            long >= 1,
    ;
    assert(-(long * 0x1_0000_0000_0000_0000) <= side * e <= long * 0x1_0000_0000_0000_0000)
        by (nonlinear_arith)
        requires
            -(long * 0x1_0000_0000) <= e <= long * 0x1_0000_0000,
            0 <= side <= 0xffff_ffff,
            long >= 1,
    ;
    assert(long * unit == unit * long && gap * unit == unit * gap) by (nonlinear_arith);
    assert(-1001 * long <= 2000 * gap <= 1001 * long);
    if nearest < 1 {
        assert(nearest * long == 0) by (nonlinear_arith)
            requires
                nearest == 0,
        ;
        assert(1 * long - side * limit <= long) by (nonlinear_arith)
            requires
                side >= 1,
                limit >= 1,
        ;
    }
}

} // verus!
