//! The picture operations of the `image` crate, on this library's rasters.
//!
//! Each function hands the bytes of a raster to one function of `image::imageops` and
//! wraps what comes back. Their contracts are taken from that crate and not proved.

use vstd::prelude::*;
use crate::raster;
use crate::raster::Picture;
use crate::raster::Raster;

verus! {

/// `image::imageops::flip_horizontal`: every row runs backwards.
#[verifier::external_body]
pub(crate) fn flip_horizontal(src: &Raster) -> (out: Raster)
    requires
        src.wf(),
    ensures
        out.wf(),
        out.width == src.width,
        out.height == src.height,
        out@ == src@.flipped_horizontally(),
{
    let view = image::ImageBuffer::<image::Rgba<u8>, &[u8]>::from_raw(
        src.width,
        src.height,
        &src.pixels,
    ).expect("the bytes of a raster match its size");
    let out = image::imageops::flip_horizontal(&view);
    Raster { width: out.width(), height: out.height(), pixels: out.into_raw() }
}

/// `image::imageops::flip_vertical`: the rows come in reverse order.
#[verifier::external_body]
pub(crate) fn flip_vertical(src: &Raster) -> (out: Raster)
    requires
        src.wf(),
    ensures
        out.wf(),
        out.width == src.width,
        out.height == src.height,
        out@ == src@.flipped_vertically(),
{
    let view = image::ImageBuffer::<image::Rgba<u8>, &[u8]>::from_raw(
        src.width,
        src.height,
        &src.pixels,
    ).expect("the bytes of a raster match its size");
    let out = image::imageops::flip_vertical(&view);
    Raster { width: out.width(), height: out.height(), pixels: out.into_raw() }
}

/// `image::imageops::rotate90`: the pixel at `(x, y)` moves to `(height - 1 - y, x)`.
#[verifier::external_body]
pub(crate) fn rotate90(src: &Raster) -> (out: Raster)
    requires
        src.wf(),
    ensures
        out.wf(),
        out.width == src.height,
        out.height == src.width,
        out@ == src@.turned_clockwise(),
{
    let view = image::ImageBuffer::<image::Rgba<u8>, &[u8]>::from_raw(
        src.width,
        src.height,
        &src.pixels,
    ).expect("the bytes of a raster match its size");
    let out = image::imageops::rotate90(&view);
    Raster { width: out.width(), height: out.height(), pixels: out.into_raw() }
}

/// `image::imageops::rotate270`: the pixel at `(x, y)` moves to `(y, width - 1 - x)`.
#[verifier::external_body]
pub(crate) fn rotate270(src: &Raster) -> (out: Raster)
    requires
        src.wf(),
    ensures
        out.wf(),
        out.width == src.height,
        out.height == src.width,
        out@ == src@.turned_anticlockwise(),
{
    let view = image::ImageBuffer::<image::Rgba<u8>, &[u8]>::from_raw(
        src.width,
        src.height,
        &src.pixels,
    ).expect("the bytes of a raster match its size");
    let out = image::imageops::rotate270(&view);
    Raster { width: out.width(), height: out.height(), pixels: out.into_raw() }
}

/// `image::imageops::rotate180`: the pixel at `(x, y)` moves to
/// `(width - 1 - x, height - 1 - y)`.
#[verifier::external_body]
pub(crate) fn rotate180(src: &Raster) -> (out: Raster)
    requires
        src.wf(),
    ensures
        out.wf(),
        out.width == src.width,
        out.height == src.height,
        out@ == src@.flipped_horizontally().flipped_vertically(),
{
    let view = image::ImageBuffer::<image::Rgba<u8>, &[u8]>::from_raw(
        src.width,
        src.height,
        &src.pixels,
    ).expect("the bytes of a raster match its size");
    let out = image::imageops::rotate180(&view);
    Raster { width: out.width(), height: out.height(), pixels: out.into_raw() }
}

/// `image::imageops::crop_imm` and `to_image` of what it returns: a copy of the
/// rectangle, for one that lies inside the picture.
#[verifier::external_body]
pub(crate) fn crop(src: &Raster, x: u32, y: u32, width: u32, height: u32) -> (out: Raster)
    requires
        src.wf(),
        x + width <= src.width,
        y + height <= src.height,
    ensures
        out.wf(),
        out.width == width,
        out.height == height,
        out@ == src@.cropped(x as nat, y as nat, width as nat, height as nat),
{
    let whole = image::RgbaImage::from_raw(src.width, src.height, src.pixels.clone()).expect(
        "the bytes of a raster match its size",
    );
    let out = image::imageops::crop_imm(&whole, x, y, width, height).to_image();
    Raster { width: out.width(), height: out.height(), pixels: out.into_raw() }
}

/// `image::imageops::replace`: `top` overwrites `bottom` from `(x, y)` on, alpha and
/// all, as far as it lies inside.
#[verifier::external_body]
pub(crate) fn replace(bottom: &mut Raster, top: &Raster, x: u32, y: u32)
    requires
        old(bottom).wf(),
        top.wf(),
    ensures
        final(bottom).wf(),
        final(bottom).width == old(bottom).width,
        final(bottom).height == old(bottom).height,
        final(bottom)@ == old(bottom)@.with(top@, x as int, y as int),
{
    let mut under = image::ImageBuffer::<image::Rgba<u8>, &mut [u8]>::from_raw(
        bottom.width,
        bottom.height,
        &mut bottom.pixels,
    ).expect("the bytes of a raster match its size");
    let over = image::ImageBuffer::<image::Rgba<u8>, &[u8]>::from_raw(
        top.width,
        top.height,
        &top.pixels,
    ).expect("the bytes of a raster match its size");
    image::imageops::replace(&mut under, &over, i64::from(x), i64::from(y));
}

/// How pixels are weighed when a picture changes size.
#[derive(Debug, Clone, Copy, PartialEq, Eq, Structural)]
pub enum Filter {
    /// Quick, for what has to fit somewhere.
    Triangle,
    /// Slower and sharper, for what is kept.
    Lanczos3,
}

/// The bytes that `image::imageops::resize` makes of a picture with its triangle filter.
pub uninterp spec fn triangle_resized(
    width: nat,
    height: nat,
    bytes: Seq<u8>,
    new_width: nat,
    new_height: nat,
) -> Seq<u8>;

/// Whether `image::imageops::resize` can make one picture of another with its Lanczos
/// filter. Its kernel rests on the sine of the platform, whose last bits are not fixed, so
/// more than one picture of a size can be right.
pub uninterp spec fn lanczos_resizes(from: Picture, to: Picture) -> bool;

/// The longest side that single precision can sample from and to. Past it the middle of one
/// pixel is no longer told from the middle of the next.
pub const SAMPLED_SIDE: u32 = 0x80_0000;

/// The longest side that the triangle filter can bring any other down to. The places of the
/// pixels are then off by less than the filter is wide.
pub const GATHERED_SIDE: u32 = 0x10_0000;

/// Whether single precision finds, for every pixel of a side, one in the other that weighs
/// something in it.
pub open spec fn can_sample(filter: Filter, from: int, to: int) -> bool {
    ||| from <= SAMPLED_SIDE && to <= SAMPLED_SIDE
    ||| filter is Triangle && to <= GATHERED_SIDE
}

/// Whether a picture can be brought to a size. What comes out has to be held. Where there is
/// something to sample and the size differs, both sides have to be sampled, height first, and
/// the picture in between has to be held too, at four bytes a sample.
pub open spec fn can_resize(filter: Filter, from: (int, int), to: (int, int)) -> bool {
    &&& raster::addressable(to.0, to.1)
    &&& {
        ||| from.0 == 0 || from.1 == 0
        ||| from == to
        ||| {
            &&& from.0 * to.1 * 16 <= isize::MAX
            &&& can_sample(filter, from.0, to.0)
            &&& can_sample(filter, from.1, to.1)
        }
    }
}

/// Whether a picture of one size can be brought to another.
pub fn resizable(filter: Filter, from: (u32, u32), to: (u32, u32)) -> (can: bool)
    ensures
        can == can_resize(
            filter,
            (from.0 as int, from.1 as int),
            (to.0 as int, to.1 as int),
        ),
{
    proof {
        raster::lemma_area(to.0 as int, to.1 as int);
        raster::lemma_area(from.0 as int, to.1 as int);
    }
    let limit: u128 = isize::MAX as u128;
    if to.0 as u128 * to.1 as u128 * 4 > limit {
        return false;
    }
    if from.0 == 0 || from.1 == 0 || (from.0 == to.0 && from.1 == to.1) {
        return true;
    }
    from.0 as u128 * to.1 as u128 * 16 <= limit && samplable(filter, from.0, to.0) && samplable(
        filter,
        from.1,
        to.1,
    )
}

fn samplable(filter: Filter, from: u32, to: u32) -> (can: bool)
    ensures
        can == can_sample(filter, from as int, to as int),
{
    (from <= SAMPLED_SIDE && to <= SAMPLED_SIDE) || (filter == Filter::Triangle && to
        <= GATHERED_SIDE)
}

/// `image::imageops::resize`: a picture of the size asked for. One of its own size is
/// a copy, and one of nothing is blank. Where that crate's single precision finds no pixel
/// that weighs anything, it panics, and sizes at which it could are left out. With the
/// triangle filter the pixels are a function of the source and the two sizes. With the
/// Lanczos filter they are one of the answers that the platforms give for the source; which
/// one is left unsaid.
#[verifier::external_body]
pub(crate) fn resize(src: &Raster, width: u32, height: u32, filter: Filter) -> (out: Raster)
    requires
        src.wf(),
        width >= 1,
        height >= 1,
        can_resize(
            filter,
            (src.width as int, src.height as int),
            (width as int, height as int),
        ),
    ensures
        out.wf(),
        out.width == width,
        out.height == height,
        width == src.width && height == src.height ==> out.pixels@ == src.pixels@,
        src.width == 0 || src.height == 0 ==> out@ == Picture::blank(width as nat, height as nat),
        filter is Triangle ==> out.pixels@ == triangle_resized(
            src.width as nat,
            src.height as nat,
            src.pixels@,
            width as nat,
            height as nat,
        ),
        filter is Lanczos3 ==> lanczos_resizes(src@, out@),
{
    let view = image::ImageBuffer::<image::Rgba<u8>, &[u8]>::from_raw(
        src.width,
        src.height,
        &src.pixels,
    ).expect("the bytes of a raster match its size");
    let kernel = match filter {
        Filter::Triangle => image::imageops::FilterType::Triangle,
        Filter::Lanczos3 => image::imageops::FilterType::Lanczos3,
    };
    let out = image::imageops::resize(&view, width, height, kernel);
    Raster { width: out.width(), height: out.height(), pixels: out.into_raw() }
}

} // verus!
