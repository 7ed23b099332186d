//! What is drawn behind see-through pixels, and when.

use vstd::prelude::*;
use crate::raster::Raster;

verus! {

/// The lighter of the two tones behind a picture.
pub const LIGHT: u8 = 0x3c;

/// The darker one.
pub const DARK: u8 = 0x2c;

/// The tone of the diagonal bands at a place: half a side of the one, half of the other,
/// the same along each diagonal that rises to the right.
pub open spec fn band_tone(side: int, x: int, y: int) -> u8 {
    if (x + y) % side < side / 2 {
        LIGHT
    } else {
        DARK
    }
}

/// The bytes of one tile of diagonal bands, as opaque RGBA.
pub open spec fn band_tile(side: int) -> Seq<u8> {
    Seq::new(
        (side * side * 4) as nat,
        |n: int|
            if n % 4 == 3 {
                255
            } else {
                band_tone(side, (n / 4) % side, (n / 4) / side)
            },
    )
}

/// One tile of diagonal bands, pixel for pixel.
pub fn diagonal_pixels(side: usize) -> (pixels: Vec<u8>)
    requires
        side * side * 4 <= usize::MAX,
    ensures
        pixels@ == band_tile(side as int),
{
    let mut pixels: Vec<u8> = Vec::new();
    let ghost tile = band_tile(side as int);
    let mut y: usize = 0;
    assert(tile.take(0) =~= pixels@);
    while y < side
        invariant
            y <= side,
            side * side * 4 <= usize::MAX,
            tile == band_tile(side as int),
            pixels@ == tile.take(y * side * 4),
        decreases side - y,
    {
        let mut x: usize = 0;
        while x < side
            invariant
                x <= side,
                y < side,
                side * side * 4 <= usize::MAX,
                tile == band_tile(side as int),
                pixels@ == tile.take((y * side + x) * 4),
            decreases side - x,
        {
            proof {
                assert(side >= 1 && side * 1 <= side * side) by (nonlinear_arith)
                    requires
                        x < side,
                        x >= 0,
                ;
                assert(y * side + x + 1 <= side * side) by (nonlinear_arith)
                    requires
                        0 <= y < side,
                        0 <= x < side,
                ;
            }
            let tone: u8 = if (x + y) % side < side / 2 {
                LIGHT
            } else {
                DARK
            };
            let ghost at = y * side + x;
            proof {
                assert((y * side + x) / side as int == y && (y * side + x) % side as int == x) by {
                    vstd::arithmetic::div_mod::lemma_fundamental_div_mod_converse(
                        at,
                        side as int,
                        y as int,
                        x as int,
                    );
                }
            }
            pixels.push(tone);
            pixels.push(tone);
            pixels.push(tone);
            pixels.push(255);
            x += 1;
            proof {
                let now = tile.take((at + 1) * 4);
                assert((at + 1) * 4 <= tile.len());
                assert forall|n: int| 0 <= n < now.len() implies pixels@[n] == now[n] by {
                    if n >= at * 4 {
                        assert(n / 4 == at);
                    }
                }
                assert(pixels@ =~= now);
            }
        }
        y += 1;
        assert((y - 1) * side + side == y * side) by (nonlinear_arith);
    }
    assert(tile.take(side * side * 4) =~= tile);
    pixels
}

/// Each row of the bands is the one above moved by one: that is what makes them diagonal,
/// and going round the side is what joins a tile to its neighbour without a seam.
pub proof fn law_the_bands_are_diagonal_and_seamless(side: int, x: int, y: int)
    requires
        0 <= x < side,
        0 <= y < side,
    ensures
        band_tone(side, x, y) == band_tone(side, (x + 1) % side, (y + side - 1) % side),
{
    let a = (x + 1) % side;
    let b = (y + side - 1) % side;
    vstd::arithmetic::div_mod::lemma_add_mod_noop(x + 1, y + side - 1, side);
    vstd::arithmetic::div_mod::lemma_mod_add_multiples_vanish(x + y, side);
    assert((x + 1) + (y + side - 1) == side + (x + y));
}

/// The two tones are evenly split: whatever stands half a side away is the other one.
pub proof fn law_the_tones_are_evenly_split(side: int, x: int, y: int)
    requires
        side >= 2,
        side % 2 == 0,
        0 <= x < side,
        0 <= y < side,
    ensures
        band_tone(side, x, y) != band_tone(side, (x + side / 2) % side, y),
{
    let half = side / 2;
    vstd::arithmetic::div_mod::lemma_add_mod_noop((x + half) % side, y, side);
    vstd::arithmetic::div_mod::lemma_add_mod_noop(x + half, y, side);
    vstd::arithmetic::div_mod::lemma_mod_twice(x + half, side);
    vstd::arithmetic::div_mod::lemma_add_mod_noop(x + y, half, side);
    vstd::arithmetic::div_mod::lemma_small_mod(half as nat, side as nat);
    let at = (x + y) % side;
    vstd::arithmetic::div_mod::lemma_mod_bound(x + y, side);
    assert((x + half + y) % side == (at + half) % side);
    if at < half {
        vstd::arithmetic::div_mod::lemma_small_mod((at + half) as nat, side as nat);
    } else {
        vstd::arithmetic::div_mod::lemma_mod_add_multiples_vanish(at + half - side, side);
        vstd::arithmetic::div_mod::lemma_small_mod((at + half - side) as nat, side as nat);
    }
}

/// One tile of the checker: two squares by two, as opaque RGBA.
pub fn checker_pixels() -> (pixels: Vec<u8>)
    ensures
        pixels@ == seq![
            LIGHT, LIGHT, LIGHT, 255,
            DARK, DARK, DARK, 255,
            DARK, DARK, DARK, 255,
            LIGHT, LIGHT, LIGHT, 255,
        ],
{
    vec![
        LIGHT, LIGHT, LIGHT, 255, DARK, DARK, DARK, 255, DARK, DARK, DARK, 255, LIGHT, LIGHT,
        LIGHT, 255,
    ]
}

/// What is drawn behind a picture.
#[derive(Debug, Clone, Copy, PartialEq, Eq, Structural)]
pub enum Ground {
    /// Squares, behind pixels.
    Checker,
    /// Diagonal bands, behind artwork that is drawn rather than sampled.
    Diagonals,
}

/// What shows through a picture: nothing, unless it has transparency.
pub fn ground(has_transparency: bool, is_artwork: bool) -> (ground: Option<Ground>)
    ensures
        ground == (if !has_transparency {
            None
        } else if is_artwork {
            Some(Ground::Diagonals)
        } else {
            Some(Ground::Checker)
        }),
{
    if !has_transparency {
        None
    } else if is_artwork {
        Some(Ground::Diagonals)
    } else {
        Some(Ground::Checker)
    }
}

/// Whether one of every fourth pixel of edited output is less than fully opaque.
pub open spec fn sampled_through(bytes: Seq<u8>) -> bool {
    exists|n: int| 0 <= n && 16 * n + 3 < bytes.len() && #[trigger] bytes[16 * n + 3] != 255
}

/// Looks at every fourth pixel for transparency, which is cheap enough to do while
/// drawing. Sparse transparency can be missed.
pub fn samples_transparency(pixels: &Raster) -> (found: bool)
    requires
        pixels.wf(),
    ensures
        found == sampled_through(pixels.pixels@),
{
    let bytes = &pixels.pixels;
    let count: usize = bytes.len();
    let mut at: usize = 3;
    let ghost mut n: int = 0;
    while at < count
        invariant
            count == bytes@.len(),
            *bytes == pixels.pixels,
            n >= 0,
            at == 16 * n + 3,
            forall|k: int| 0 <= k < n ==> #[trigger] bytes@[16 * k + 3] == 255,
        decreases count - at,
    {
        if bytes[at] != 255 {
            assert(bytes@[16 * n + 3] != 255);
            return true;
        }
        proof {
            n = n + 1;
        }
        if count - at <= 16 {
            return false;
        }
        at += 16;
    }
    false
}

/// What reached the graphics card, and whether it had to be smaller than the picture.
#[derive(Debug, Clone, Copy, PartialEq, Eq)]
pub struct Uploaded {
    pub uploaded_size: (u32, u32),
    /// Native size of the source image.
    pub source_size: (u32, u32),
    pub downscaled: bool,
    pub has_transparency: bool,
}

/// What an upload comes to: a preview is laid out at the size of what it stands for.
pub fn uploaded(
    pixels: (u32, u32),
    sent: (u32, u32),
    source_size: (u32, u32),
    has_transparency: bool,
) -> (upload: Uploaded)
    ensures
        upload == (Uploaded {
            uploaded_size: sent,
            source_size,
            downscaled: sent != pixels,
            has_transparency,
        }),
{
    Uploaded {
        uploaded_size: sent,
        source_size,
        downscaled: sent.0 != pixels.0 || sent.1 != pixels.1,
        has_transparency,
    }
}

/// A tile is a square of opaque greys, row by row: each pixel has one tone in its three colours
/// and shows nothing through.
pub proof fn law_a_tile_is_opaque_and_grey(side: int, x: int, y: int)
    requires
        0 <= x < side,
        0 <= y < side,
    ensures
        ({
            let tile = band_tile(side);
            let at = 4 * (y * side + x);
            &&& tile.len() == 4 * side * side
            &&& 0 <= at && at + 3 < tile.len()
            &&& tile[at] == tile[at + 1] && tile[at + 1] == tile[at + 2]
            &&& tile[at] == (if (x + y) % side < side / 2 { 0x3cu8 } else { 0x2cu8 })
            &&& tile[at + 3] == 255
        }),
{
    let tile = band_tile(side);
    let n = y * side + x;
    assert(0 <= n < side * side) by (nonlinear_arith)
        requires
            0 <= x < side,
            0 <= y < side,
            n == y * side + x,
    ;
    assert(side * side * 4 == 4 * side * side) by (nonlinear_arith);
    assert(4 * (side * side) == side * side * 4) by (nonlinear_arith);
    vstd::arithmetic::div_mod::lemma_fundamental_div_mod_converse(n, side, y, x);
    assert forall|k: int| 0 <= k < 4 implies #[trigger] ((4 * n + k) / 4) == n && (4 * n + k) % 4
        == k by {}
    let at = 4 * n;
    assert((at + 0) / 4 == n && (at + 1) / 4 == n && (at + 2) / 4 == n && (at + 3) / 4 == n);
    assert((at + 0) % 4 == 0 && (at + 1) % 4 == 1 && (at + 2) % 4 == 2 && (at + 3) % 4 == 3);
}

/// An image whose alpha is full throughout never looks transparent, and one that can be seen
/// through at a pixel that is sampled always does. One pixel in four is sampled, from the first.
pub proof fn law_full_alpha_is_never_transparent(bytes: Seq<u8>, pixel: int)
    ensures
        (forall|k: int| 0 <= k && 4 * k + 3 < bytes.len() ==> #[trigger] bytes[4 * k + 3] == 255)
            ==> !sampled_through(bytes),
        0 <= pixel && pixel % 4 == 0 && 4 * pixel + 3 < bytes.len() && bytes[4 * pixel + 3] != 255
            ==> sampled_through(bytes),
{
    if forall|k: int| 0 <= k && 4 * k + 3 < bytes.len() ==> #[trigger] bytes[4 * k + 3] == 255 {
        assert forall|n: int| 0 <= n && 16 * n + 3 < bytes.len() implies #[trigger] bytes[16 * n
            + 3] == 255 by {
            assert(bytes[4 * (4 * n) + 3] == 255);
        }
    }
    if 0 <= pixel && pixel % 4 == 0 && 4 * pixel + 3 < bytes.len() && bytes[4 * pixel + 3] != 255 {
        let n = pixel / 4;
        assert(16 * n + 3 == 4 * pixel + 3);
        assert(bytes[16 * n + 3] != 255);
    }
}

} // verus!
