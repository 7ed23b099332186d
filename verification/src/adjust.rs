//! Brightness, contrast and saturation.
//!
//! One struct rather than three, because they are one control panel. Held as whole
//! percentages, so that edits can be compared.
//!
//! The order is brightness, then contrast, then saturation, and it is not
//! interchangeable: brightening after a contrast stretch clips differently from
//! brightening before it. The arithmetic is binary with 24 significant bits: after every
//! step the result is the nearest such number. A channel value is a count of some
//! negative power of two, given beside each function, so that sums and products are
//! exact and only the rounding is left to state.

use vstd::prelude::*;
use crate::raster;
use crate::raster::Picture;
use crate::raster::Raster;
use crate::raster::Rgba;
use crate::rounding;
use crate::rounding::half_up_of;
use crate::rounding::quotient_of;
use crate::rounding::significant_of;

verus! {

/// The widest setting any of the three takes.
pub const LIMIT: i16 = 100;

/// A colour adjustment, in percentages away from "leave it alone".
///
/// Each runs -100 to 100: -100 brightness is black, -100 contrast is flat mid-grey, -100
/// saturation is greyscale.
#[derive(Debug, Clone, Copy, PartialEq, Eq, Structural)]
pub struct Adjust {
    pub brightness: i16,
    pub contrast: i16,
    pub saturation: i16,
}

/// `value` brought between -100 and 100.
pub open spec fn within_limit(value: i16) -> i16 {
    if value < -100 {
        (-100) as i16
    } else if value > 100 {
        100
    } else {
        value
    }
}

/// `x` rounded to 24 significant bits.
pub open spec fn rounded(x: int) -> int {
    if x < 0 {
        -(rounding::significant((-x) as nat, 24) as int)
    } else {
        rounding::significant(x as nat, 24) as int
    }
}

/// `n / den` rounded to 24 significant bits, where `one` stands for 1.
pub open spec fn fraction(n: int, den: nat, one: nat) -> int {
    if n < 0 {
        -(rounding::quotient(((-n) * one) as nat, den, 24) as int)
    } else {
        rounding::quotient((n * one) as nat, den, 24) as int
    }
}

/// A percentage, in units of 2^-30.
pub open spec fn percent(n: int) -> int {
    fraction(n, 100, 0x4000_0000)
}

/// One plus a percentage, in units of 2^-30.
pub open spec fn factor(n: int) -> int {
    rounded(0x4000_0000 + percent(n))
}

/// One of the weights that decide what "the same brightness, less colour" means, in
/// units of 2^-27: `n` ten-thousandths.
pub open spec fn weight(n: int) -> int {
    fraction(n, 10000, 0x800_0000)
}

/// The byte nearest to a channel value, where `one` stands for white. The value is
/// clamped here, and only here.
pub open spec fn byte_of(value: int, one: nat) -> u8 {
    let clamped = if value < 0 {
        0int
    } else if value > one {
        one as int
    } else {
        value
    };
    rounding::half_up(rounding::significant((clamped * 255) as nat, 24), one) as u8
}

impl Adjust {
    /// The setting that leaves everything alone.
    pub open spec fn neutral() -> Adjust {
        Adjust { brightness: 0, contrast: 0, saturation: 0 }
    }

    /// Every field is in range.
    pub open spec fn in_range(self) -> bool {
        &&& -100 <= self.brightness <= 100
        &&& -100 <= self.contrast <= 100
        &&& -100 <= self.saturation <= 100
    }

    /// Every field brought into range.
    pub open spec fn in_limits(self) -> Adjust {
        Adjust {
            brightness: within_limit(self.brightness),
            contrast: within_limit(self.contrast),
            saturation: within_limit(self.saturation),
        }
    }

    /// Brightness and contrast of one channel value, in units of 2^-61. Contrast works
    /// about mid grey, so raising it opens the picture up from the middle.
    #[verifier::opaque]
    pub open spec fn tone(self, value: u8) -> int {
        let channel = rounded(
            fraction(value as int, 255, 0x8000_0000) + 2 * percent(self.brightness as int),
        );
        let stretched = rounded(rounded(channel - 0x4000_0000) * factor(self.contrast as int));
        rounded(stretched + 0x1000_0000_0000_0000)
    }

    /// The brightness of a colour, in units of 2^-88.
    #[verifier::opaque]
    pub open spec fn luma(self, r: u8, g: u8, b: u8) -> int {
        rounded(
            rounded(
                rounded(weight(2126) * self.tone(r)) + rounded(weight(7152) * self.tone(g)),
            ) + rounded(weight(722) * self.tone(b)),
        )
    }

    /// One channel moved away from, or towards, the luma of its pixel.
    #[verifier::opaque]
    pub open spec fn mixed(self, luma: int, tone: int) -> u8 {
        let moved = rounded(
            rounded(tone * 0x800_0000 - luma) * factor(self.saturation as int),
        );
        byte_of(
            rounded(luma * 0x4000_0000 + moved),
            0x40_0000_0000_0000_0000_0000_0000_0000,
        )
    }

    /// One channel of a picture whose saturation is left alone.
    #[verifier::opaque]
    pub open spec fn toned(self, value: u8) -> u8 {
        byte_of(self.tone(value), 0x2000_0000_0000_0000)
    }

    /// What the adjustment makes of one pixel. Alpha is never touched.
    pub open spec fn colour(self, p: Rgba) -> Rgba {
        let adjust = self.in_limits();
        if self == Adjust::neutral() {
            p
        } else if adjust.saturation == 0 {
            Rgba { r: adjust.toned(p.r), g: adjust.toned(p.g), b: adjust.toned(p.b), a: p.a }
        } else {
            adjust.mixed_pixel(p)
        }
    }

    /// A picture, adjusted.
    pub open spec fn of(self, picture: Picture) -> Picture {
        picture.recoloured(|p: Rgba| self.colour(p))
    }

    /// No adjustment.
    pub fn none() -> (adjust: Self)
        ensures
            adjust == Adjust::neutral(),
    {
        Adjust { brightness: 0, contrast: 0, saturation: 0 }
    }

    /// Whether this would leave every pixel exactly as it found it.
    pub fn is_none(self) -> (none: bool)
        ensures
            none == (self == Adjust::neutral()),
    {
        self.brightness == 0 && self.contrast == 0 && self.saturation == 0
    }

    /// Clamps every field into range, for values that came from outside.
    pub fn clamped(self) -> (clamped: Self)
        ensures
            clamped == self.in_limits(),
            clamped.in_range(),
    {
        Adjust {
            brightness: clamp_percent(self.brightness),
            contrast: clamp_percent(self.contrast),
            saturation: clamp_percent(self.saturation),
        }
    }
}

fn clamp_percent(value: i16) -> (clamped: i16)
    ensures
        clamped == within_limit(value),
{
    if value < -LIMIT {
        -LIMIT
    } else if value > LIMIT {
        LIMIT
    } else {
        value
    }
}

impl Default for Adjust {
    fn default() -> (adjust: Self)
        ensures
            adjust == Adjust::neutral(),
    {
        Adjust::none()
    }
}

/// Rounding moves a number by a twenty-four-bit fraction of itself at most.
proof fn lemma_rounded(x: int)
    ensures
        x >= 0 ==> 0 <= rounded(x) <= x + x / 0x80_0000,
        x <= 0 ==> 0 <= -rounded(x) <= -x + (-x) / 0x80_0000,
{
    let n = if x < 0 {
        (-x) as nat
    } else {
        x as nat
    };
    let step = rounding::grain(n, 24);
    rounding::lemma_grain(n, 24);
    rounding::lemma_half_even_fits(n, step);
    vstd::arithmetic::power2::lemma2_to64();
    assert(vstd::arithmetic::power2::pow2(24) == 0x100_0000);
    if step == 1 {
        assert(rounding::half_even(n, 1) == n);
    }
    assert(rounding::significant(n, 24) >= 0) by (nonlinear_arith)
        requires
            rounding::significant(n, 24) == rounding::half_even(n, step) * step,
    ;
}

/// Rounds to 24 significant bits.
fn round(x: i128) -> (r: i128)
    requires
        -0x4000_0000_0000_0000_0000_0000_0000_0000 <= x
            <= 0x4000_0000_0000_0000_0000_0000_0000_0000,
    ensures
        r == rounded(x as int),
        x >= 0 ==> 0 <= r <= x + x / 0x80_0000,
        x <= 0 ==> 0 <= -r <= -x + (-x) as int / 0x80_0000,
{
    proof {
        lemma_rounded(x as int);
    }
    if x < 0 {
        -(significant_of((-x) as u128, 24) as i128)
    } else {
        significant_of(x as u128, 24) as i128
    }
}

/// A fraction stays close to its exact value.
proof fn lemma_fraction(n: int, den: nat, one: nat)
    requires
        den >= 1,
        -10000 <= n <= 10000,
        one <= 0x8000_0000,
        n * one <= den * one,
        -n * one <= den * one,
    ensures
        -(one + 2 + one / 0x80_0000) <= fraction(n, den, one) <= one + 2 + one / 0x80_0000,
        n >= 0 ==> fraction(n, den, one) >= 0,
{
    let size = if n < 0 {
        -n
    } else {
        n
    };
    let num = (size * one) as nat;
    assert(size * one >= 0) by (nonlinear_arith)
        requires
            size >= 0,
    ;
    assert(-n * one == (-n) * one) by (nonlinear_arith);
    let whole = num / den;
    assert(whole <= one) by (nonlinear_arith)
        requires
            whole == num / den,
            num <= den * one,
            den >= 1,
    ;
    rounding::lemma_quotient_bound(num, den, 24);
    rounding::lemma_grain(whole, 24);
    vstd::arithmetic::power2::lemma2_to64();
    assert(vstd::arithmetic::power2::pow2(24) == 0x100_0000);
    let step = rounding::grain(whole, 24);
    assert(rounding::quotient(num, den, 24) >= 0);
}

/// `n / den` with 24 significant bits.
fn fraction_of(n: i32, den: u32, one: u32) -> (value: i128)
    requires
        1 <= den,
        -(den as int) <= n <= den,
        den <= 10000,
        one <= 0x8000_0000,
    ensures
        value == fraction(n as int, den as nat, one as nat),
        -(one + 2 + one as int / 0x80_0000) <= value <= one + 2 + one as int / 0x80_0000,
        n >= 0 ==> value >= 0,
{
    proof {
        assert(n * one <= den * one && -n * one <= den * one && (-n) * one <= den * one)
            by (nonlinear_arith)
            requires
                -(den as int) <= n <= den,
                0 <= one,
        ;
        assert(den * one <= 10000 * 0x8000_0000) by (nonlinear_arith)
            requires
                0 <= den <= 10000,
                0 <= one <= 0x8000_0000,
        ;
        lemma_fraction(n as int, den as nat, one as nat);
    }
    if n < 0 {
        assert((-n) * one >= 0) by (nonlinear_arith)
            requires
                n < 0,
                0 <= one,
        ;
        let num: u128 = (-n) as u128 * one as u128;
        -(quotient_of(num, den as u128, 24) as i128)
    } else {
        assert(n * one >= 0) by (nonlinear_arith)
            requires
                n >= 0,
                0 <= one,
        ;
        let num: u128 = n as u128 * one as u128;
        quotient_of(num, den as u128, 24) as i128
    }
}

/// The product of two bounded numbers is bounded by the product of the bounds.
proof fn lemma_product(x: int, y: int, bound_x: int, bound_y: int)
    requires
        -bound_x <= x <= bound_x,
        -bound_y <= y <= bound_y,
    ensures
        -(bound_x * bound_y) <= x * y <= bound_x * bound_y,
{
    assert(-(bound_x * bound_y) <= x * y <= bound_x * bound_y) by (nonlinear_arith)
        requires
            -bound_x <= x <= bound_x,
            -bound_y <= y <= bound_y,
    ;
}

/// One plus a percentage.
fn factor_of(n: i16) -> (value: i128)
    requires
        -100 <= n <= 100,
    ensures
        value == factor(n as int),
        -0x8000_0400 <= value <= 0x8000_0400,
{
    round(0x4000_0000i128 + fraction_of(n as i32, 100, 0x4000_0000))
}

/// A weight of `n` ten-thousandths.
fn weight_of(n: i16) -> (value: i128)
    requires
        0 <= n <= 10000,
    ensures
        value == weight(n as int),
        0 <= value <= 0x800_0100,
{
    fraction_of(n as i32, 10000, 0x800_0000)
}

/// The byte nearest to a channel value.
fn byte_from(value: i128, one: u128) -> (byte: u8)
    requires
        1 <= one <= 0x40_0000_0000_0000_0000_0000_0000_0000,
    ensures
        byte == byte_of(value as int, one as nat),
{
    let clamped: u128 = if value < 0 {
        0
    } else if value as u128 > one {
        one
    } else {
        value as u128
    };
    let scaled: u128 = clamped * 255;
    proof {
        lemma_rounded(scaled as int);
    }
    let wide: u128 = significant_of(scaled, 24);
    let nearest: u128 = half_up_of(wide, one);
    assert(nearest <= 255) by (nonlinear_arith)
        requires
            nearest == (2 * wide + one) / (2 * one),
            wide <= scaled + scaled / 0x80_0000,
            scaled <= 255 * one,
            one >= 1,
    ;
    nearest as u8
}

impl Adjust {
    /// Brightness and contrast of one channel value, left unclamped: clamping here and
    /// again after saturation would flatten highlights twice.
    fn tone_of(self, value: u8, stretch: i128) -> (tone: i128)
        requires
            self.in_range(),
            stretch == factor(self.contrast as int),
            -0x8000_0400 <= stretch <= 0x8000_0400,
        ensures
            tone == self.tone(value),
            -0x8000_0000_0000_0000 <= tone <= 0x8000_0000_0000_0000,
    {
        reveal(Adjust::tone);
        let brightness: i128 = fraction_of(self.brightness as i32, 100, 0x4000_0000);
        let channel: i128 = round(
            fraction_of(value as i32, 255, 0x8000_0000) + 2 * brightness,
        );
        let offset: i128 = round(channel - 0x4000_0000);
        proof {
            lemma_product(offset as int, stretch as int, 0xc000_0800, 0x8000_0400);
        }
        let stretched: i128 = round(offset * stretch);
        round(stretched + 0x1000_0000_0000_0000)
    }

    /// Brightness and contrast for every possible channel value.
    fn tone_table(self) -> (table: Vec<i128>)
        requires
            self.in_range(),
        ensures
            table@.len() == 256,
            forall|v: u8| #![trigger table@[v as int]]
                table@[v as int] == self.tone(v) && -0x8000_0000_0000_0000 <= table@[v as int]
                    <= 0x8000_0000_0000_0000,
    {
        let stretch: i128 = factor_of(self.contrast);
        let mut table: Vec<i128> = Vec::new();
        let mut value: u16 = 0;
        while value < 256
            invariant
                value <= 256,
                self.in_range(),
                stretch == factor(self.contrast as int),
                -0x8000_0400 <= stretch <= 0x8000_0400,
                table@.len() == value,
                forall|v: int| 0 <= v < value ==> #[trigger] table@[v] == self.tone(v as u8)
                    && -0x8000_0000_0000_0000 <= table@[v] <= 0x8000_0000_0000_0000,
            decreases 256 - value,
        {
            table.push(self.tone_of(value as u8, stretch));
            value += 1;
        }
        table
    }

    /// The same table, already rounded to bytes, for when saturation is at rest.
    fn tone_table_u8(self) -> (table: Vec<u8>)
        requires
            self.in_range(),
        ensures
            table@.len() == 256,
            forall|v: u8| #![trigger table@[v as int]] table@[v as int] == self.toned(v),
    {
        let tones = self.tone_table();
        let mut table: Vec<u8> = Vec::new();
        let mut value: usize = 0;
        while value < 256
            invariant
                value <= 256,
                tones@.len() == 256,
                forall|v: u8| #![trigger tones@[v as int]] tones@[v as int] == self.tone(v),
                table@.len() == value,
                forall|v: int| 0 <= v < value ==> #[trigger] table@[v] == self.toned(v as u8),
            decreases 256 - value,
        {
            reveal(Adjust::toned);
            assert(tones@[(value as u8) as int] == self.tone(value as u8));
            table.push(byte_from(tones[value], 0x2000_0000_0000_0000));
            value += 1;
        }
        table
    }

    /// One channel, mixed with the luma of its pixel.
    fn mix(self, luma: i128, tone: i128, saturation: i128) -> (byte: u8)
        requires
            saturation == factor(self.saturation as int),
            -0x8000_0400 <= saturation <= 0x8000_0400,
            -0x8000_0000_0000_0000 <= tone <= 0x8000_0000_0000_0000,
            -0x1000_0000_0000_0000_0000_0000 <= luma <= 0x1000_0000_0000_0000_0000_0000,
        ensures
            byte == self.mixed(luma as int, tone as int),
    {
        reveal(Adjust::mixed);
        let offset: i128 = round(tone * 0x800_0000 - luma);
        proof {
            lemma_product(
                offset as int,
                saturation as int,
                0x1800_0000_0000_0000_0000_0000,
                0x8000_0400,
            );
        }
        let moved: i128 = round(offset * saturation);
        byte_from(
            round(luma * 0x4000_0000 + moved),
            0x40_0000_0000_0000_0000_0000_0000_0000,
        )
    }
}

/// A setting with what every pixel needs of it worked out.
struct Mixer {
    adjust: Adjust,
    table: Vec<i128>,
    saturation: i128,
    red: i128,
    green: i128,
    blue: i128,
}

impl Mixer {
    spec fn wf(&self) -> bool {
        &&& self.adjust.in_range()
        &&& self.saturation == factor(self.adjust.saturation as int)
        &&& -0x8000_0400 <= self.saturation <= 0x8000_0400
        &&& self.red == weight(2126)
        &&& self.green == weight(7152)
        &&& self.blue == weight(722)
        &&& 0 <= self.red <= 0x800_0100
        &&& 0 <= self.green <= 0x800_0100
        &&& 0 <= self.blue <= 0x800_0100
        &&& self.table@.len() == 256
        &&& forall|v: u8| #![trigger self.table@[v as int]]
            self.table@[v as int] == self.adjust.tone(v) && -0x8000_0000_0000_0000
                <= self.table@[v as int] <= 0x8000_0000_0000_0000
    }

    /// The three channels of one pixel.
    fn mix(&self, r: u8, g: u8, b: u8) -> (out: (u8, u8, u8))
        requires
            self.wf(),
        ensures
            out.0 == self.adjust.mixed(self.adjust.luma(r, g, b), self.adjust.tone(r)),
            out.1 == self.adjust.mixed(self.adjust.luma(r, g, b), self.adjust.tone(g)),
            out.2 == self.adjust.mixed(self.adjust.luma(r, g, b), self.adjust.tone(b)),
    {
        reveal(Adjust::luma);
        let red: i128 = self.table[r as usize];
        let green: i128 = self.table[g as usize];
        let blue: i128 = self.table[b as usize];
        proof {
            lemma_product(self.red as int, red as int, 0x800_0100, 0x8000_0000_0000_0000);
            lemma_product(self.green as int, green as int, 0x800_0100, 0x8000_0000_0000_0000);
            lemma_product(self.blue as int, blue as int, 0x800_0100, 0x8000_0000_0000_0000);
        }
        let luma: i128 = round(
            round(round(self.red * red) + round(self.green * green)) + round(self.blue * blue),
        );
        (
            self.adjust.mix(luma, red, self.saturation),
            self.adjust.mix(luma, green, self.saturation),
            self.adjust.mix(luma, blue, self.saturation),
        )
    }
}

/// A raster whose every pixel was put through `f`, the bytes in place.
proof fn lemma_recoloured(before: Raster, after: Raster, f: spec_fn(Rgba) -> Rgba)
    requires
        before.wf(),
        after.wf(),
        before.width == after.width,
        before.height == after.height,
        forall|n: int| 0 <= n < before.width * before.height ==> #[trigger] raster::pixel_at(
            after.pixels@,
            n,
        ) == f(raster::pixel_at(before.pixels@, n)),
    ensures
        after@ == before@.recoloured(f),
{
    let wanted = before@.recoloured(f);
    assert forall|x: int, y: int| after@.holds(x, y) implies #[trigger] after@.at(x, y)
        == wanted.at(x, y) by {
        raster::lemma_index(before.width as int, before.height as int, x, y);
        assert(raster::pixel_at(after.pixels@, y * before.width + x) == f(
            raster::pixel_at(before.pixels@, y * before.width + x),
        ));
    }
    raster::lemma_same(after@, wanted);
}

impl Adjust {
    /// Applies to every pixel. Alpha is never touched.
    ///
    /// Brightness and contrast are per-channel and depend on nothing but the channel
    /// itself, so they collapse into a table computed once. Saturation cannot: it mixes
    /// the three channels, so it is the only part that runs per pixel, and when the
    /// saturation slider is at rest it does not run at all.
    pub fn apply(self, pixels: &mut Raster)
        requires
            old(pixels).wf(),
        ensures
            final(pixels).wf(),
            final(pixels).width == old(pixels).width,
            final(pixels).height == old(pixels).height,
            final(pixels)@ == self.of(old(pixels)@),
    {
        let ghost f = |p: Rgba| self.colour(p);
        let ghost before = *pixels;
        if self.is_none() {
            proof {
                lemma_recoloured(before, before, f);
            }
            return;
        }
        let adjust = self.clamped();
        if adjust.saturation == 0 {
            adjust.apply_table(pixels);
        } else {
            adjust.apply_mix(pixels);
        }
        proof {
            lemma_recoloured(before, *pixels, f);
        }
    }

    /// The path for a saturation at rest: one table lookup a channel.
    fn apply_table(self, pixels: &mut Raster)
        requires
            old(pixels).wf(),
            self.in_range(),
            self.saturation == 0,
        ensures
            final(pixels).wf(),
            final(pixels).width == old(pixels).width,
            final(pixels).height == old(pixels).height,
            forall|n: int| 0 <= n < old(pixels).width * old(pixels).height
                ==> #[trigger] raster::pixel_at(final(pixels).pixels@, n) == ({
                let p = raster::pixel_at(old(pixels).pixels@, n);
                Rgba { r: self.toned(p.r), g: self.toned(p.g), b: self.toned(p.b), a: p.a }
            }),
    {
        let table = self.tone_table_u8();
        let ghost before = pixels.pixels@;
        let count: usize = pixels.pixels.len() / 4;
        let mut n: usize = 0;
        while n < count
            invariant
                n <= count,
                count * 4 == pixels.pixels@.len() <= usize::MAX,
                pixels.wf(),
                pixels.width == old(pixels).width,
                pixels.height == old(pixels).height,
                count == pixels.width * pixels.height,
                before == old(pixels).pixels@,
                before.len() == pixels.pixels@.len(),
                table@.len() == 256,
                forall|v: u8| #![trigger table@[v as int]] table@[v as int] == self.toned(v),
                forall|k: int| 0 <= k < n ==> #[trigger] raster::pixel_at(pixels.pixels@, k) == ({
                    let p = raster::pixel_at(before, k);
                    Rgba { r: self.toned(p.r), g: self.toned(p.g), b: self.toned(p.b), a: p.a }
                }),
                forall|i: int| 4 * n <= i < before.len() ==> #[trigger] pixels.pixels@[i]
                    == before[i],
            decreases count - n,
        {
            let ghost done = pixels.pixels@;
            let r: u8 = table[pixels.pixels[4 * n] as usize];
            let g: u8 = table[pixels.pixels[4 * n + 1] as usize];
            let b: u8 = table[pixels.pixels[4 * n + 2] as usize];
            pixels.pixels[4 * n] = r;
            pixels.pixels[4 * n + 1] = g;
            pixels.pixels[4 * n + 2] = b;
            proof {
                assert forall|k: int| 0 <= k < n implies #[trigger] raster::pixel_at(
                    pixels.pixels@,
                    k,
                ) == raster::pixel_at(done, k) by {}
            }
            n += 1;
        }
    }

    /// The path that moves saturation: the three channels of a pixel together.
    fn apply_mix(self, pixels: &mut Raster)
        requires
            old(pixels).wf(),
            self.in_range(),
        ensures
            final(pixels).wf(),
            final(pixels).width == old(pixels).width,
            final(pixels).height == old(pixels).height,
            forall|n: int| 0 <= n < old(pixels).width * old(pixels).height
                ==> #[trigger] raster::pixel_at(final(pixels).pixels@, n) == self.mixed_pixel(
                raster::pixel_at(old(pixels).pixels@, n),
            ),
    {
        let mixer = self.mixer();
        let ghost before = pixels.pixels@;
        let count: usize = pixels.pixels.len() / 4;
        let mut n: usize = 0;
        while n < count
            invariant
                n <= count,
                count * 4 == pixels.pixels@.len() <= usize::MAX,
                pixels.wf(),
                pixels.width == old(pixels).width,
                pixels.height == old(pixels).height,
                count == pixels.width * pixels.height,
                before == old(pixels).pixels@,
                before.len() == pixels.pixels@.len(),
                mixer.wf(),
                mixer.adjust == self,
                forall|k: int| 0 <= k < n ==> #[trigger] raster::pixel_at(pixels.pixels@, k)
                    == self.mixed_pixel(raster::pixel_at(before, k)),
                forall|i: int| 4 * n <= i < before.len() ==> #[trigger] pixels.pixels@[i]
                    == before[i],
            decreases count - n,
        {
            let ghost done = pixels.pixels@;
            let (r, g, b) = mixer.mix(
                pixels.pixels[4 * n],
                pixels.pixels[4 * n + 1],
                pixels.pixels[4 * n + 2],
            );
            pixels.pixels[4 * n] = r;
            pixels.pixels[4 * n + 1] = g;
            pixels.pixels[4 * n + 2] = b;
            proof {
                assert forall|k: int| 0 <= k < n implies #[trigger] raster::pixel_at(
                    pixels.pixels@,
                    k,
                ) == raster::pixel_at(done, k) by {}
                let p = raster::pixel_at(before, n as int);
                assert(r == self.mixed(self.luma(p.r, p.g, p.b), self.tone(p.r)));
                assert(raster::pixel_at(pixels.pixels@, n as int) == self.mixed_pixel(p));
            }
            n += 1;
        }
    }

    /// Everything about the setting that is the same for every pixel.
    fn mixer(self) -> (mixer: Mixer)
        requires
            self.in_range(),
        ensures
            mixer.wf(),
            mixer.adjust == self,
    {
        Mixer {
            adjust: self,
            table: self.tone_table(),
            saturation: factor_of(self.saturation),
            red: weight_of(2126),
            green: weight_of(7152),
            blue: weight_of(722),
        }
    }

    /// One pixel with its saturation moved.
    pub open spec fn mixed_pixel(self, p: Rgba) -> Rgba {
        let luma = self.luma(p.r, p.g, p.b);
        Rgba {
            r: self.mixed(luma, self.tone(p.r)),
            g: self.mixed(luma, self.tone(p.g)),
            b: self.mixed(luma, self.tone(p.b)),
            a: p.a,
        }
    }
}

/// Alpha is never touched, whatever the setting.
pub proof fn law_alpha_is_never_touched(adjust: Adjust, picture: Picture, x: int, y: int)
    requires
        picture.wf(),
        picture.holds(x, y),
    ensures
        adjust.of(picture).at(x, y).a == picture.at(x, y).a,
{
}

/// No adjustment changes nothing.
pub proof fn law_no_adjustment_changes_nothing(picture: Picture)
    requires
        picture.wf(),
    ensures
        Adjust::neutral().of(picture) == picture,
{
    raster::lemma_same(Adjust::neutral().of(picture), picture);
}

/// A value from outside the dial acts as the nearest value on it.
pub proof fn law_settings_outside_the_dial_are_clamped(adjust: Adjust, p: Rgba)
    requires
        adjust.in_limits() != Adjust::neutral(),
    ensures
        adjust.colour(p) == adjust.in_limits().colour(p),
        adjust.in_limits().in_limits() == adjust.in_limits(),
{
}

/// A grey pixel stays grey, whatever the setting: there is no colour to pull away from.
pub proof fn law_a_grey_pixel_stays_grey(adjust: Adjust, p: Rgba)
    requires
        p.r == p.g == p.b,
    ensures
        adjust.colour(p).r == adjust.colour(p).g == adjust.colour(p).b,
{
}

/// The dial at its lower end leaves nothing to multiply by.
#[verifier::spinoff_prover]
proof fn lemma_factor_of_nothing()
    ensures
        percent(-100) == -0x4000_0000,
        factor(-100) == 0,
        rounded(0) == 0,
{
    vstd::arithmetic::power2::lemma2_to64();
    reveal_with_fuel(rounding::grain, 9);
    assert(rounding::grain(0x4000_0000, 24) == 128);
    assert(0x19_0000_0000nat / 100nat == 0x4000_0000);
    assert(rounding::half_even(0x19_0000_0000, 100 * 128) == 0x80_0000);
    assert(rounding::quotient(0x19_0000_0000, 100, 24) == 0x4000_0000);
    assert(-(-100int) * 0x4000_0000 == 0x19_0000_0000);
    assert(rounding::grain(0, 24) == 1);
    assert(rounding::half_even(0, 1) == 0);
    assert(rounding::significant(0, 24) == 0);
}

/// A count of a power of two with at most 24 significant bits is left as it is.
proof fn lemma_rounded_exact(k: nat, m: nat)
    requires
        k < 0x100_0000,
    ensures
        rounded((k * vstd::arithmetic::power2::pow2(m)) as int) == k
            * vstd::arithmetic::power2::pow2(m),
{
    vstd::arithmetic::power2::lemma2_to64();
    rounding::lemma_significant_exact(k, m, 24);
    assert(k * vstd::arithmetic::power2::pow2(m) >= 0) by (nonlinear_arith);
}

/// Without saturation a channel comes out as the luma of its pixel.
proof fn lemma_mixed_without_colour(adjust: Adjust, luma: int, tone: int)
    requires
        adjust.saturation == -100,
    ensures
        adjust.mixed(luma, tone) == byte_of(
            rounded(luma * 0x4000_0000),
            0x40_0000_0000_0000_0000_0000_0000_0000,
        ),
{
    reveal(Adjust::mixed);
    lemma_factor_of_nothing();
    let offset = rounded(tone * 0x800_0000 - luma);
    assert(offset * 0 == 0);
    assert(offset * factor(-100) == 0);
}

/// A saturation of -100 leaves no colour: the three channels come out the same.
pub proof fn law_no_saturation_is_greyscale(adjust: Adjust, p: Rgba)
    requires
        adjust.saturation <= -100,
    ensures
        adjust.colour(p).r == adjust.colour(p).g == adjust.colour(p).b,
{
    let grey = adjust.in_limits();
    let luma = grey.luma(p.r, p.g, p.b);
    lemma_mixed_without_colour(grey, luma, grey.tone(p.r));
    lemma_mixed_without_colour(grey, luma, grey.tone(p.g));
    lemma_mixed_without_colour(grey, luma, grey.tone(p.b));
}

/// The powers of two that stand for one and for a half in the units used here.
proof fn lemma_units()
    ensures
        vstd::arithmetic::power2::pow2(60) == 0x1000_0000_0000_0000,
        vstd::arithmetic::power2::pow2(61) == 0x2000_0000_0000_0000,
        vstd::arithmetic::power2::pow2(87) == 0x80_0000_0000_0000_0000_0000,
        vstd::arithmetic::power2::pow2(88) == 0x100_0000_0000_0000_0000_0000,
        vstd::arithmetic::power2::pow2(117) == 0x20_0000_0000_0000_0000_0000_0000_0000,
        vstd::arithmetic::power2::pow2(118) == 0x40_0000_0000_0000_0000_0000_0000_0000,
{
    vstd::arithmetic::power2::lemma2_to64();
    vstd::arithmetic::power2::lemma2_to64_rest();
    vstd::arithmetic::power2::lemma_pow2_adds(64, 23);
    vstd::arithmetic::power2::lemma_pow2_adds(64, 24);
    vstd::arithmetic::power2::lemma_pow2_adds(64, 53);
    vstd::arithmetic::power2::lemma_pow2_adds(64, 54);
}

/// The three weights, in units of 2^-27. They make up one between them.
proof fn lemma_weights()
    ensures
        weight(2126) == 28534688,
        weight(7152) == 95992520,
        weight(722) == 9690520,
{
    vstd::arithmetic::power2::lemma2_to64();
    reveal_with_fuel(rounding::grain, 6);
    assert(2126 * 0x800_0000 == 285346889728);
    assert(7152 * 0x800_0000 == 959925190656);
    assert(722 * 0x800_0000 == 96905199616);
    assert(285346889728nat / 10000nat == 28534688);
    assert(959925190656nat / 10000nat == 95992519);
    assert(96905199616nat / 10000nat == 9690519);
    assert(rounding::grain(28534688, 24) == 2);
    assert(rounding::grain(95992519, 24) == 8);
    assert(rounding::grain(9690519, 24) == 1);
    assert(rounding::half_even(285346889728, 10000 * 2) == 14267344);
    assert(rounding::half_even(959925190656, 10000 * 8) == 11999065);
    assert(rounding::half_even(96905199616, 10000 * 1) == 9690520);
}

/// The weights of a power of two, and their sums, need no rounding.
proof fn lemma_weighted(unit: int, m: nat)
    requires
        unit == vstd::arithmetic::power2::pow2(m),
    ensures
        rounded(28534688 * unit) == 28534688 * unit,
        rounded(95992520 * unit) == 95992520 * unit,
        rounded(9690520 * unit) == 9690520 * unit,
        rounded(124527208 * unit) == 124527208 * unit,
        rounded(0x800_0000 * unit) == 0x800_0000 * unit,
{
    vstd::arithmetic::power2::lemma2_to64();
    vstd::arithmetic::power2::lemma_pow2_adds(m, 1);
    vstd::arithmetic::power2::lemma_pow2_adds(m, 3);
    vstd::arithmetic::power2::lemma_pow2_adds(m, 27);
    lemma_rounded_exact(14267344, m + 1);
    lemma_rounded_exact(11999065, m + 3);
    lemma_rounded_exact(9690520, m);
    lemma_rounded_exact(15565901, m + 3);
    lemma_rounded_exact(1, m + 27);
}

/// The luma of a pixel whose channels are all a power of two is that power.
proof fn lemma_luma_of_a_power(adjust: Adjust, r: u8, g: u8, b: u8, unit: int, m: nat)
    requires
        unit == vstd::arithmetic::power2::pow2(m),
        adjust.tone(r) == unit,
        adjust.tone(g) == unit,
        adjust.tone(b) == unit,
    ensures
        adjust.luma(r, g, b) == 0x800_0000 * unit,
{
    reveal(Adjust::luma);
    lemma_weights();
    lemma_weighted(unit, m);
}

/// Half way to white is the upper of the two bytes in the middle.
proof fn lemma_byte_of_a_half(half: nat)
    requires
        half >= 1,
        rounding::significant(255 * half, 24) == 255 * half,
    ensures
        byte_of(half as int, 2 * half) == 128,
{
    assert(half * 255 == 255 * half) by (nonlinear_arith);
    assert(rounding::half_up(255 * half, 2 * half) == 128) by (nonlinear_arith)
        requires
            half >= 1,
            rounding::half_up(255 * half, 2 * half) == (2 * (255 * half) + 2 * half) / (2 * (2
                * half)),
    ;
}

/// A contrast of -100 makes everything the same mid grey.
pub proof fn law_no_contrast_is_flat_grey(adjust: Adjust, p: Rgba)
    requires
        adjust.contrast <= -100,
    ensures
        adjust.colour(p) == (Rgba { r: 128, g: 128, b: 128, a: p.a }),
{
    let flat = adjust.in_limits();
    lemma_factor_of_nothing();
    lemma_units();
    lemma_rounded_exact(1, 60);
    lemma_rounded_exact(1, 117);
    lemma_rounded_exact(255, 60);
    lemma_rounded_exact(255, 117);
    assert forall|v: u8| #[trigger] flat.tone(v) == 0x1000_0000_0000_0000 by {
        reveal(Adjust::tone);
    }
    if flat.saturation == 0 {
        reveal(Adjust::toned);
        assert(rounding::significant(0xf_f000_0000_0000_0000, 24) == 0xf_f000_0000_0000_0000);
        lemma_byte_of_a_half(0x1000_0000_0000_0000);
    } else {
        lemma_luma_of_a_power(flat, p.r, p.g, p.b, 0x1000_0000_0000_0000, 60);
        reveal(Adjust::mixed);
        let f = factor(flat.saturation as int);
        assert(0 * f == 0) by (nonlinear_arith);
        assert(rounding::significant(0x1fe0_0000_0000_0000_0000_0000_0000_0000, 24)
            == 0x1fe0_0000_0000_0000_0000_0000_0000_0000);
        lemma_byte_of_a_half(0x20_0000_0000_0000_0000_0000_0000_0000);
        assert(flat.mixed(0x80_0000_0000_0000_0000_0000, 0x1000_0000_0000_0000) == 128);
    }
}

/// Rounding keeps numbers in order.
proof fn lemma_rounded_in_order(small: int, large: int)
    requires
        small <= large,
    ensures
        rounded(small) <= rounded(large),
{
    lemma_rounded(small);
    lemma_rounded(large);
    if small >= 0 {
        rounding::lemma_significant_in_order(small as nat, large as nat, 24);
    } else if large < 0 {
        rounding::lemma_significant_in_order((-large) as nat, (-small) as nat, 24);
    }
}

/// No channel is more than one, in units of 2^-31.
proof fn lemma_channel(value: u8)
    ensures
        0 <= fraction(value as int, 255, 0x8000_0000) <= 0x8000_0000,
{
    vstd::arithmetic::power2::lemma2_to64();
    let num = (value * 0x8000_0000) as nat;
    let whole = num / 255;
    if value == 255 {
        reveal_with_fuel(rounding::grain, 10);
        assert(num == 0x7f_8000_0000);
        assert(whole == 0x8000_0000);
        assert(rounding::grain(0x8000_0000, 24) == 256);
        assert(rounding::half_even(0x7f_8000_0000, 255 * 256) == 0x80_0000);
    } else {
        rounding::lemma_quotient_bound(num, 255, 24);
        rounding::lemma_grain(whole, 24);
    }
}

/// A percentage is at most one either way, and on the side of its sign.
proof fn lemma_percent(n: int)
    requires
        -100 <= n <= 100,
    ensures
        n >= 0 ==> 0 <= percent(n) <= 0x4000_0000,
        n <= 0 ==> -0x4000_0000 <= percent(n) <= 0,
        n >= 0 ==> factor(n) >= 0x4000_0000,
        n <= 0 ==> 0 <= factor(n) <= 0x4000_0000,
{
    vstd::arithmetic::power2::lemma2_to64();
    lemma_factor_of_nothing();
    let size = if n < 0 {
        -n
    } else {
        n
    };
    let num = (size * 0x4000_0000) as nat;
    let whole = num / 100;
    if size < 100 {
        rounding::lemma_quotient_bound(num, 100, 24);
        rounding::lemma_grain(whole, 24);
    }
    lemma_rounded_exact(1, 30);
    if n >= 0 {
        lemma_rounded_in_order(0x4000_0000, 0x4000_0000 + percent(n));
    } else {
        lemma_rounded_in_order(0, 0x4000_0000 + percent(n));
        lemma_rounded_in_order(0x4000_0000 + percent(n), 0x4000_0000);
    }
}

/// At the lower end of the brightness dial no channel is above black.
proof fn lemma_dark(adjust: Adjust, value: u8)
    requires
        adjust.in_range(),
        adjust.brightness == -100,
        adjust.contrast >= 0,
    ensures
        adjust.tone(value) <= 0,
{
    reveal(Adjust::tone);
    lemma_units();
    lemma_factor_of_nothing();
    lemma_channel(value);
    lemma_percent(adjust.contrast as int);
    vstd::arithmetic::power2::lemma2_to64();
    lemma_rounded_exact(1, 30);
    lemma_rounded_exact(1, 60);
    let channel = rounded(fraction(value as int, 255, 0x8000_0000) + 2 * percent(-100));
    lemma_rounded_in_order(fraction(value as int, 255, 0x8000_0000) + 2 * percent(-100), 0);
    let offset = rounded(channel - 0x4000_0000);
    lemma_rounded_in_order(channel - 0x4000_0000, -0x4000_0000);
    let stretch = factor(adjust.contrast as int);
    assert(offset * stretch <= -0x1000_0000_0000_0000) by (nonlinear_arith)
        requires
            offset <= -0x4000_0000,
            stretch >= 0x4000_0000,
    ;
    lemma_rounded_in_order(offset * stretch, -0x1000_0000_0000_0000);
    lemma_rounded_in_order(rounded(offset * stretch) + 0x1000_0000_0000_0000, 0);
}

/// What is not above black comes out black.
proof fn lemma_black(value: int, one: nat)
    requires
        value <= 0,
        one >= 1,
    ensures
        byte_of(value, one) == 0,
{
    lemma_factor_of_nothing();
    assert(rounding::significant(0, 24) == 0);
    assert(rounding::half_up(0, one) == 0) by (nonlinear_arith)
        requires
            one >= 1,
            rounding::half_up(0, one) == (2 * 0 + one) / (2 * one),
    ;
}

/// Of channels that are not above black, none is lifted above it by moving it towards their
/// luma.
proof fn lemma_mixed_dark(adjust: Adjust, r: u8, g: u8, b: u8, tone: int)
    requires
        adjust.in_range(),
        adjust.saturation <= 0,
        adjust.tone(r) <= 0,
        adjust.tone(g) <= 0,
        adjust.tone(b) <= 0,
        tone <= 0,
    ensures
        adjust.mixed(adjust.luma(r, g, b), tone) == 0,
{
    reveal(Adjust::luma);
    reveal(Adjust::mixed);
    lemma_weights();
    lemma_factor_of_nothing();
    lemma_percent(adjust.saturation as int);
    lemma_rounded_in_order(28534688 * adjust.tone(r), 0);
    lemma_rounded_in_order(95992520 * adjust.tone(g), 0);
    lemma_rounded_in_order(9690520 * adjust.tone(b), 0);
    let first = rounded(28534688 * adjust.tone(r)) + rounded(95992520 * adjust.tone(g));
    lemma_rounded_in_order(first, 0);
    let sum = rounded(first) + rounded(9690520 * adjust.tone(b));
    lemma_rounded_in_order(sum, 0);
    let luma = adjust.luma(r, g, b);
    let f = factor(adjust.saturation as int);
    let way = tone * 0x800_0000 - luma;
    let step = rounded(way);
    if way <= 0 {
        lemma_rounded_in_order(way, 0);
        assert(step * f <= 0) by (nonlinear_arith)
            requires
                step <= 0,
                f >= 0,
        ;
        lemma_rounded_in_order(step * f, 0);
    } else {
        let depth = rounding::significant((-sum) as nat, 24);
        assert(luma == -depth);
        vstd::arithmetic::power2::lemma2_to64();
        rounding::lemma_significant_again((-sum) as nat, 0, 24);
        rounding::lemma_significant_again((-sum) as nat, 30, 24);
        lemma_rounded_in_order(way, depth as int);
        assert(depth * 1 == depth);
        assert(step * f <= depth * 0x4000_0000) by (nonlinear_arith)
            requires
                step <= depth,
                0 <= f <= 0x4000_0000,
                0 <= depth,
        ;
        lemma_rounded_in_order(step * f, (depth * 0x4000_0000) as int);
    }
    let moved = rounded(step * f);
    lemma_rounded_in_order(luma * 0x4000_0000 + moved, 0);
    lemma_black(
        rounded(luma * 0x4000_0000 + moved),
        0x40_0000_0000_0000_0000_0000_0000_0000,
    );
}

/// A brightness of -100 is black. Where contrast is taken away as well it draws towards
/// grey, and where saturation is raised it spreads the channels apart, so neither is meant.
pub proof fn law_no_brightness_is_black(adjust: Adjust, p: Rgba)
    requires
        adjust.brightness <= -100,
        adjust.contrast >= 0,
        adjust.saturation <= 0,
    ensures
        adjust.colour(p) == (Rgba { r: 0, g: 0, b: 0, a: p.a }),
{
    let dark = adjust.in_limits();
    lemma_dark(dark, p.r);
    lemma_dark(dark, p.g);
    lemma_dark(dark, p.b);
    if dark.saturation == 0 {
        reveal(Adjust::toned);
        lemma_black(dark.tone(p.r), 0x2000_0000_0000_0000);
        lemma_black(dark.tone(p.g), 0x2000_0000_0000_0000);
        lemma_black(dark.tone(p.b), 0x2000_0000_0000_0000);
    } else {
        lemma_mixed_dark(dark, p.r, p.g, p.b, dark.tone(p.r));
        lemma_mixed_dark(dark, p.r, p.g, p.b, dark.tone(p.g));
        lemma_mixed_dark(dark, p.r, p.g, p.b, dark.tone(p.b));
    }
}

/// At the upper end of the brightness dial no channel is below white.
proof fn lemma_bright(adjust: Adjust, value: u8)
    requires
        adjust.in_range(),
        adjust.brightness == 100,
        adjust.contrast >= 0,
    ensures
        adjust.toned(value) == 255,
{
    reveal(Adjust::tone);
    reveal(Adjust::toned);
    lemma_units();
    lemma_factor_of_nothing();
    lemma_channel(value);
    lemma_percent(adjust.contrast as int);
    vstd::arithmetic::power2::lemma2_to64();
    lemma_rounded_exact(1, 30);
    lemma_rounded_exact(1, 31);
    lemma_rounded_exact(1, 60);
    lemma_rounded_exact(1, 61);
    lemma_rounded_exact(255, 61);
    assert(percent(100) == 0x4000_0000);
    let channel = rounded(fraction(value as int, 255, 0x8000_0000) + 2 * percent(100));
    lemma_rounded_in_order(0x8000_0000, fraction(value as int, 255, 0x8000_0000) + 2 * percent(100));
    let offset = rounded(channel - 0x4000_0000);
    lemma_rounded_in_order(0x4000_0000, channel - 0x4000_0000);
    let stretch = factor(adjust.contrast as int);
    assert(offset * stretch >= 0x1000_0000_0000_0000) by (nonlinear_arith)
        requires
            offset >= 0x4000_0000,
            stretch >= 0x4000_0000,
    ;
    lemma_rounded_in_order(0x1000_0000_0000_0000, offset * stretch);
    lemma_rounded_in_order(
        0x2000_0000_0000_0000,
        rounded(offset * stretch) + 0x1000_0000_0000_0000,
    );
    let white: nat = 0x2000_0000_0000_0000;
    assert(rounding::significant(0x1f_e000_0000_0000_0000, 24) == 0x1f_e000_0000_0000_0000);
    assert(rounding::half_up(255 * white, white) == 255) by (nonlinear_arith)
        requires
            white >= 1,
            rounding::half_up(255 * white, white) == (2 * (255 * white) + white) / (2 * white),
    ;
}

/// A brightness of 100 is white, as long as contrast is not taken away and saturation is at
/// rest.
pub proof fn law_full_brightness_is_white(adjust: Adjust, p: Rgba)
    requires
        adjust.brightness >= 100,
        adjust.contrast >= 0,
        adjust.saturation == 0,
    ensures
        adjust.colour(p) == (Rgba { r: 255, g: 255, b: 255, a: p.a }),
{
    let bright = adjust.in_limits();
    lemma_bright(bright, p.r);
    lemma_bright(bright, p.g);
    lemma_bright(bright, p.b);
}

/// Rounding moves a number by less than a sixteen-millionth of itself.
proof fn lemma_near(x: int)
    ensures
        x >= 0 ==> -x <= 0x100_0000 * (rounded(x) - x) <= x,
        x <= 0 ==> x <= 0x100_0000 * (rounded(x) - x) <= -x,
{
    let n = if x < 0 {
        (-x) as nat
    } else {
        x as nat
    };
    let step = rounding::grain(n, 24);
    rounding::lemma_grain(n, 24);
    rounding::lemma_half_even_fits(n, step);
    vstd::arithmetic::power2::lemma2_to64();
    assert(vstd::arithmetic::power2::pow2(24) == 0x100_0000);
    if step == 1 {
        assert(rounding::half_even(n, 1) == n);
        assert(n * 1 == n);
    }
}

/// A fraction is off by half its spacing at most.
proof fn lemma_fraction_near(n: int, den: nat, one: nat) -> (step: nat)
    requires
        den >= 1,
        -den <= n <= den,
        one >= 1,
    ensures
        1 <= step,
        step == 1 || 0x100_0000 * step <= 2 * one,
        -(den * step) <= 2 * (fraction(n, den, one) * den - n * one) <= den * step,
{
    let size = if n < 0 {
        -n
    } else {
        n
    };
    assert(0 <= size * one <= den * one && (-n) * one == -(n * one)) by (nonlinear_arith)
        requires
            0 <= size <= den,
            one >= 1,
    ;
    let num = (size * one) as nat;
    let whole = num / den;
    assert(whole <= one) by (nonlinear_arith)
        requires
            whole == num / den,
            num <= den * one,
            den >= 1,
    ;
    rounding::lemma_grain(whole, 24);
    vstd::arithmetic::power2::lemma2_to64();
    assert(vstd::arithmetic::power2::pow2(24) == 0x100_0000);
    let step = rounding::grain(whole, 24);
    let scaled = (den * step) as nat;
    assert(scaled >= 1) by (nonlinear_arith)
        requires
            scaled == den * step,
            den >= 1,
            step >= 1,
    ;
    rounding::lemma_half_even_fits(num, scaled);
    let h = rounding::half_even(num, scaled);
    assert(h * scaled == (h * step) * den && (-(h * step)) * den == -((h * step) * den))
        by (nonlinear_arith)
        requires
            scaled == den * step,
    ;
    step
}

/// What brightness and contrast make of a channel, at five million one hundred thousand for
/// white: brightness moves it, and contrast stretches what it is away from mid grey.
spec fn aimed(value: int, brightness: int, contrast: int) -> int {
    (200 * value + 510 * brightness - 25500) * (100 + contrast) + 2550000
}

/// The tone of a channel is where it is aimed, but for the rounding.
proof fn lemma_tone_near(adjust: Adjust, value: u8)
    requires
        adjust.in_range(),
    ensures
        -0x1_0000_0000_0000_0000 <= 2550000 * adjust.tone(value) - 0x1000_0000_0000_0000 * aimed(
            value as int,
            adjust.brightness as int,
            adjust.contrast as int,
        ) <= 0x1_0000_0000_0000_0000,
        -0x8000_0000_0000_0000 <= adjust.tone(value) <= 0x8000_0000_0000_0000,
{
    reveal(Adjust::tone);
    let (v, b, c) = (value as int, adjust.brightness as int, adjust.contrast as int);
    let f = fraction(v, 255, 0x8000_0000);
    let p = percent(b);
    let q = percent(c);
    let s1 = lemma_fraction_near(v, 255, 0x8000_0000);
    let s2 = lemma_fraction_near(b, 100, 0x4000_0000);
    let s3 = lemma_fraction_near(c, 100, 0x4000_0000);
    let sum = f + 2 * p;
    assert(-25500 * 256 <= 25500 * sum - (100 * v + 255 * b) * 0x8000_0000 <= 25500 * 256);
    lemma_near(sum);
    let channel = rounded(sum);
    assert(-25500 * 513 <= 25500 * channel - (100 * v + 255 * b) * 0x8000_0000 <= 25500 * 513);
    lemma_near(channel - 0x4000_0000);
    let offset = rounded(channel - 0x4000_0000);
    let x = 200 * v + 510 * b - 25500;
    assert(-25500 * 1025 <= 25500 * offset - x * 0x4000_0000 <= 25500 * 1025);
    lemma_near(0x4000_0000 + q);
    let stretch = factor(c);
    let y = 100 + c;
    assert(-19300 <= 100 * stretch - y * 0x4000_0000 <= 19300);
    let e = 25500 * offset - x * 0x4000_0000;
    let d = 100 * stretch - y * 0x4000_0000;
    assert(2550000 * (offset * stretch) == (x * 0x4000_0000 + e) * (y * 0x4000_0000 + d))
        by (nonlinear_arith)
        requires
            25500 * offset == x * 0x4000_0000 + e,
            100 * stretch == y * 0x4000_0000 + d,
    ;
    assert((x * 0x4000_0000 + e) * (y * 0x4000_0000 + d) == (x * y) * 0x1000_0000_0000_0000
        + 0x4000_0000 * (x * d) + 0x4000_0000 * (y * e) + e * d) by (nonlinear_arith);
    lemma_product(x, d, 76500, 19300);
    lemma_product(y, e, 200, 26137500);
    lemma_product(e, d, 26137500, 19300);
    lemma_product(x, y, 76500, 200);
    let product = offset * stretch;
    lemma_near(product);
    let stretched = rounded(product);
    lemma_near(stretched + 0x1000_0000_0000_0000);
}

/// The byte of a value is the one nearest to it.
proof fn lemma_byte_near(value: int, one: nat)
    requires
        one >= 1,
    ensures
        ({
            let clamped = if value < 0 {
                0int
            } else if value > one {
                one as int
            } else {
                value
            };
            -(0x100_01fe * one) <= 0x200_0000 * (byte_of(value, one) * one - 255 * clamped)
                <= 0x100_01fe * one
        }),
{
    let clamped = if value < 0 {
        0int
    } else if value > one {
        one as int
    } else {
        value
    };
    let scaled = clamped * 255;
    lemma_near(scaled);
    lemma_rounded(scaled);
    let wide = rounding::significant(scaled as nat, 24);
    let nearest = rounding::half_up(wide, one);
    assert(nearest <= 255 && -one <= 2 * (nearest * one - wide) <= one) by (nonlinear_arith)
        requires
            nearest == (2 * wide + one) / (2 * one),
            wide <= scaled + scaled / 0x80_0000,
            0 <= scaled <= 255 * one,
            one >= 1,
    ;
}

/// One channel with saturation at rest.
proof fn lemma_toned_near(adjust: Adjust, value: u8)
    requires
        adjust.in_range(),
    ensures
        ({
            let target = aimed(value as int, adjust.brightness as int, adjust.contrast as int);
            let held = if target < 0 {
                0
            } else if target > 5100000 {
                5100000
            } else {
                target
            };
            -10020 <= 20000 * adjust.toned(value) - held <= 10020
        }),
{
    reveal(Adjust::toned);
    lemma_tone_near(adjust, value);
    lemma_byte_near(adjust.tone(value), 0x2000_0000_0000_0000);
}

/// With contrast and saturation at rest, brightness moves every channel by that percentage of
/// white and no further than black and white: what comes out is a byte nearest to it.
pub proof fn law_brightness_moves_every_channel_alike(adjust: Adjust, p: Rgba)
    requires
        -100 <= adjust.brightness <= 100,
        adjust.contrast == 0,
        adjust.saturation == 0,
    ensures
        ({
            let near = |out: u8, value: u8|
                {
                    let aim = 100 * value + 255 * adjust.brightness;
                    let held = if aim < 0 {
                        0
                    } else if aim > 25500 {
                        25500
                    } else {
                        aim
                    };
                    -50 <= 100 * out - held <= 50
                };
            let out = adjust.colour(p);
            near(out.r, p.r) && near(out.g, p.g) && near(out.b, p.b)
        }),
{
    lemma_toned_near(adjust, p.r);
    lemma_toned_near(adjust, p.g);
    lemma_toned_near(adjust, p.b);
}

/// With saturation at rest, contrast multiplies how far a channel is from mid grey, once
/// brightness has moved it, by one and that percentage: what comes out is that to within half
/// a byte and a thousandth.
pub proof fn law_contrast_stretches_about_mid_grey(adjust: Adjust, p: Rgba)
    requires
        adjust.in_range(),
        adjust.saturation == 0,
    ensures
        ({
            let near = |out: u8, value: u8|
                {
                    // In twenty-thousandths of a byte, of which mid grey is 127.5.
                    let away = 200 * value + 510 * adjust.brightness - 25500;
                    let aim = 2550000 + away * (100 + adjust.contrast);
                    let held = if aim < 0 {
                        0
                    } else if aim > 5100000 {
                        5100000
                    } else {
                        aim
                    };
                    -10020 <= 20000 * out - held <= 10020
                };
            let out = adjust.colour(p);
            near(out.r, p.r) && near(out.g, p.g) && near(out.b, p.b)
        }),
{
    if adjust == Adjust::neutral() {
        assert(aimed(p.r as int, 0, 0) == 20000 * p.r);
        assert(aimed(p.g as int, 0, 0) == 20000 * p.g);
        assert(aimed(p.b as int, 0, 0) == 20000 * p.b);
    } else {
        lemma_toned_near(adjust, p.r);
        lemma_toned_near(adjust, p.g);
        lemma_toned_near(adjust, p.b);
    }
}

/// No channel is aimed further than three and a half times white away from black.
proof fn lemma_aim_bound(value: u8, brightness: int, contrast: int)
    requires
        -100 <= brightness <= 100,
        -100 <= contrast <= 100,
    ensures
        -17850000 <= aimed(value as int, brightness, contrast) <= 17850000,
{
    lemma_product(200 * value + 510 * brightness - 25500, 100 + contrast, 76500, 200);
}

/// The luma of a pixel is the weighted sum of where its channels are aimed, but for the
/// rounding.
proof fn lemma_luma_near(adjust: Adjust, p: Rgba)
    requires
        adjust.in_range(),
    ensures
        ({
            let (b, c) = (adjust.brightness as int, adjust.contrast as int);
            let sum = 2126 * aimed(p.r as int, b, c) + 7152 * aimed(p.g as int, b, c) + 722 * aimed(
                p.b as int,
                b,
                c,
            );
            -100_0000_0000 * 0x100_0000_0000_0000_0000 <= 255_0000_0000 * adjust.luma(p.r, p.g, p.b)
                - 0x80_0000_0000_0000_0000_0000 * sum <= 100_0000_0000 * 0x100_0000_0000_0000_0000
        }),
        -0x800_0000_0000_0000_0000_0000 <= adjust.luma(p.r, p.g, p.b)
            <= 0x800_0000_0000_0000_0000_0000,
{
    reveal(Adjust::luma);
    lemma_weights();
    lemma_tone_near(adjust, p.r);
    lemma_tone_near(adjust, p.g);
    lemma_tone_near(adjust, p.b);
    let (b, c) = (adjust.brightness as int, adjust.contrast as int);
    lemma_aim_bound(p.r, b, c);
    lemma_aim_bound(p.g, b, c);
    lemma_aim_bound(p.b, b, c);
    let (red, green, blue) = (adjust.tone(p.r), adjust.tone(p.g), adjust.tone(p.b));
    lemma_near(28534688 * red);
    lemma_near(95992520 * green);
    lemma_near(9690520 * blue);
    let first = rounded(28534688 * red) + rounded(95992520 * green);
    lemma_near(first);
    lemma_near(rounded(first) + rounded(9690520 * blue));
}

/// One channel with its saturation moved.
proof fn lemma_mixed_near(adjust: Adjust, p: Rgba, value: u8)
    requires
        adjust.in_range(),
    ensures
        ({
            let (b, c) = (adjust.brightness as int, adjust.contrast as int);
            let sum = 2126 * aimed(p.r as int, b, c) + 7152 * aimed(p.g as int, b, c) + 722 * aimed(
                p.b as int,
                b,
                c,
            );
            let away = 10000 * aimed(value as int, b, c) - sum;
            let target = 100 * sum + away * (100 + adjust.saturation);
            let held = if target < 0 {
                0
            } else if target > 5_100_000_000_000 {
                5_100_000_000_000
            } else {
                target
            };
            let out = adjust.mixed(adjust.luma(p.r, p.g, p.b), adjust.tone(value));
            -10_200_000_000 <= 20_000_000_000 * out - held <= 10_200_000_000
        }),
{
    reveal(Adjust::mixed);
    lemma_luma_near(adjust, p);
    lemma_tone_near(adjust, value);
    let (b, c, s) = (
        adjust.brightness as int,
        adjust.contrast as int,
        adjust.saturation as int,
    );
    lemma_aim_bound(p.r, b, c);
    lemma_aim_bound(p.g, b, c);
    lemma_aim_bound(p.b, b, c);
    lemma_aim_bound(value, b, c);
    let sum = 2126 * aimed(p.r as int, b, c) + 7152 * aimed(p.g as int, b, c) + 722 * aimed(
        p.b as int,
        b,
        c,
    );
    let luma = adjust.luma(p.r, p.g, p.b);
    let tone = adjust.tone(value);
    let away = 10000 * aimed(value as int, b, c) - sum;
    lemma_near(tone * 0x800_0000 - luma);
    let offset = rounded(tone * 0x800_0000 - luma);
    let unit: int = 0x80_0000_0000_0000_0000_0000;
    let e = 255_0000_0000 * offset - unit * away;
    assert(-200_0000_0000 * 0x100_0000_0000_0000_0000 <= e <= 200_0000_0000
        * 0x100_0000_0000_0000_0000);
    lemma_fraction_near(s, 100, 0x4000_0000);
    lemma_near(0x4000_0000 + percent(s));
    let f = factor(s);
    let y = 100 + s;
    let d = 100 * f - y * 0x4000_0000;
    assert(-19300 <= d <= 19300);
    let product = offset * f;
    assert(255_0000_0000_00 * product == (unit * away + e) * (y * 0x4000_0000 + d))
        by (nonlinear_arith)
        requires
            255_0000_0000 * offset == unit * away + e,
            100 * f == y * 0x4000_0000 + d,
            product == offset * f,
    ;
    assert((unit * away + e) * (y * 0x4000_0000 + d) == 0x4000_0000 * (unit * (away * y)) + unit
        * (away * d) + 0x4000_0000 * (e * y) + e * d) by (nonlinear_arith);
    lemma_product(away, d, 357_000_000_000, 19300);
    let most: int = 20000000000int * 0x100_0000_0000_0000_0000int;
    lemma_product(e, y, most, 200);
    lemma_product(e, d, most, 19300);
    lemma_product(away, y, 357_000_000_000, 200);
    lemma_near(product);
    let moved = rounded(product);
    lemma_near(luma * 0x4000_0000 + moved);
    let value = rounded(luma * 0x4000_0000 + moved);
    lemma_byte_near(value, 0x40_0000_0000_0000_0000_0000_0000_0000);
}

/// Saturation multiplies how far a channel is from the luma of its pixel by one and that
/// percentage. The luma is 21.26 % of the red, 71.52 % of the green and 7.22 % of the blue that
/// brightness and contrast leave. What comes out is that to within half a byte and a
/// hundredth, and alpha as it was.
pub proof fn law_saturation_spreads_about_the_luma(adjust: Adjust, p: Rgba)
    requires
        adjust.in_range(),
    ensures
        ({
            // In twenty-thousandths of a byte.
            let toned = |value: u8|
                2550000 + (200 * value + 510 * adjust.brightness - 25500) * (100
                    + adjust.contrast);
            // In ten-thousandths of those.
            let luma = 2126 * toned(p.r) + 7152 * toned(p.g) + 722 * toned(p.b);
            let near = |out: u8, value: u8|
                {
                    let aim = 100 * luma + (10000 * toned(value) - luma) * (100
                        + adjust.saturation);
                    let held = if aim < 0 {
                        0
                    } else if aim > 5_100_000_000_000 {
                        5_100_000_000_000
                    } else {
                        aim
                    };
                    -10_200_000_000 <= 20_000_000_000 * out - held <= 10_200_000_000
                };
            let out = adjust.colour(p);
            near(out.r, p.r) && near(out.g, p.g) && near(out.b, p.b) && out.a == p.a
        }),
{
    let (b, c) = (adjust.brightness as int, adjust.contrast as int);
    let sum = 2126 * aimed(p.r as int, b, c) + 7152 * aimed(p.g as int, b, c) + 722 * aimed(
        p.b as int,
        b,
        c,
    );
    if adjust.saturation == 0 {
        law_contrast_stretches_about_mid_grey(adjust, p);
        assert(100 * sum + (10000 * aimed(p.r as int, b, c) - sum) * 100 == 1000000 * aimed(
            p.r as int,
            b,
            c,
        ));
    } else {
        lemma_mixed_near(adjust, p, p.r);
        lemma_mixed_near(adjust, p, p.g);
        lemma_mixed_near(adjust, p, p.b);
    }
}

} // verus!
