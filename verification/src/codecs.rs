//! The encoders of the `image` and `webp` crates, on this library's rasters.
//!
//! Each function hands pixels to one encoder and returns the bytes of the file. Where what
//! an encoder returns is a function of what it is given, it has a name here; the contracts
//! are taken from those crates and not proved.

use vstd::prelude::*;
use crate::decoders;
use crate::decoders::Bitmap;
use crate::raster::Picture;
use crate::raster::Raster;

verus! {

/// What an encoder came to: the bytes of a file, or the reason there are none.
pub open spec fn outcome(result: Result<Vec<u8>, String>) -> Result<Seq<u8>, Seq<char>> {
    match result {
        Ok(bytes) => Ok(bytes@),
        Err(reason) => Err(reason@),
    }
}

/// The PNG file that the `image` crate writes for RGBA pixels.
pub uninterp spec fn png_of(width: nat, height: nat, pixels: Seq<u8>) -> Result<
    Seq<u8>,
    Seq<char>,
>;

/// The BMP file that the `image` crate writes for RGBA pixels.
pub uninterp spec fn bmp_of(width: nat, height: nat, pixels: Seq<u8>) -> Result<
    Seq<u8>,
    Seq<char>,
>;

/// The JPEG file that the `image` crate writes for RGB pixels at a quality.
pub uninterp spec fn jpeg_of(width: nat, height: nat, rgb: Seq<u8>, quality: u8) -> Result<
    Seq<u8>,
    Seq<char>,
>;

/// Whether a file starts as a PNG does.
pub open spec fn is_png(file: Seq<u8>) -> bool {
    decoders::starts(file, seq![0x89u8, 80, 78, 71, 13, 10, 26, 10])
}

/// How many bytes of pixels the decoders of the `image` crate fill at most: half a gibibyte.
pub const DECODED_BYTES: u32 = 0x2000_0000;

/// Whether a picture is one that the decoders open, at so many bytes a pixel.
pub open spec fn opens_again(width: u32, height: u32, depth: int) -> bool {
    1 <= width && 1 <= height && width * height * depth <= DECODED_BYTES
}

/// Whether a file decodes to the very pixels of a picture.
pub open spec fn decodes_to(file: Seq<u8>, pixels: Raster) -> bool {
    decoders::still_of(file) == Ok::<Bitmap, Seq<char>>(
        Bitmap { width: pixels.width, height: pixels.height, pixels: pixels.pixels@ },
    )
}

/// `image::ImageBuffer::write_to` with the PNG format: the file its PNG encoder writes at
/// default settings, or its error in words. A picture of nothing is refused. What is written
/// starts as a PNG does. One that the decoders open is written, and decodes to the same
/// pixels: the format loses nothing.
#[verifier::external_body]
pub(crate) fn encode_png(src: &Raster) -> (out: Result<Vec<u8>, String>)
    requires
        src.wf(),
    ensures
        outcome(out) == png_of(src.width as nat, src.height as nat, src.pixels@),
        src.width == 0 || src.height == 0 ==> out is Err,
        out matches Ok(file) ==> is_png(file@),
        opens_again(src.width, src.height, 4) ==> out is Ok,
        opens_again(src.width, src.height, 4) ==> decodes_to(out->Ok_0@, *src),
{
    let view = image::ImageBuffer::<image::Rgba<u8>, &[u8]>::from_raw(
        src.width,
        src.height,
        &src.pixels,
    ).expect("the bytes of a raster match its size");
    let mut file = std::io::Cursor::new(Vec::new());
    view.write_to(&mut file, image::ImageFormat::Png).map_err(|error| error.to_string())?;
    Ok(file.into_inner())
}

/// `image::ImageBuffer::write_to` with the BMP format: the file its BMP encoder writes,
/// or its error in words.
#[verifier::external_body]
pub(crate) fn encode_bmp(src: &Raster) -> (out: Result<Vec<u8>, String>)
    requires
        src.wf(),
    ensures
        outcome(out) == bmp_of(src.width as nat, src.height as nat, src.pixels@),
{
    let view = image::ImageBuffer::<image::Rgba<u8>, &[u8]>::from_raw(
        src.width,
        src.height,
        &src.pixels,
    ).expect("the bytes of a raster match its size");
    let mut file = std::io::Cursor::new(Vec::new());
    view.write_to(&mut file, image::ImageFormat::Bmp).map_err(|error| error.to_string())?;
    Ok(file.into_inner())
}

/// `image::codecs::jpeg::JpegEncoder::new_with_quality` and `encode_image`: the file, or
/// the error in words. A JPEG has sides of 1 to 65535 pixels, and any other size is
/// refused.
#[verifier::external_body]
pub(crate) fn encode_jpeg(width: u32, height: u32, rgb: &Vec<u8>, quality: u8) -> (out: Result<
    Vec<u8>,
    String,
>)
    requires
        rgb@.len() == width * height * 3,
        1 <= quality <= 100,
    ensures
        outcome(out) == jpeg_of(width as nat, height as nat, rgb@, quality),
        out is Ok == (1 <= width <= 65535 && 1 <= height <= 65535),
{
    let view = image::ImageBuffer::<image::Rgb<u8>, &[u8]>::from_raw(width, height, rgb).expect(
        "three bytes for each pixel",
    );
    let mut file: Vec<u8> = Vec::new();
    image::codecs::jpeg::JpegEncoder::new_with_quality(&mut file, quality).encode_image(
        &view,
    ).map_err(|error| error.to_string())?;
    Ok(file)
}

/// Whether a WebP can have these sides: 1 to 16383 pixels each.
pub open spec fn fits_webp(width: u32, height: u32) -> bool {
    1 <= width <= 16383 && 1 <= height <= 16383
}

/// Whether libwebp can come to this for a picture, without loss or at a quality: a file, or an
/// error in words. It works its quality scale out with the mathematics of the platform, so
/// more than one file can be right, and it asks for memory that it may not get.
pub uninterp spec fn webp_answers(
    from: Picture,
    lossless: bool,
    quality: u8,
    outcome: Result<Seq<u8>, Seq<char>>,
) -> bool;

/// `webp::Encoder::encode_simple`: the file libwebp writes, without loss or at a quality,
/// or its error in words. What is written starts as a WebP does. Written without loss, a
/// picture without transparency decodes to the same pixels, three bytes each; of transparent
/// pixels libwebp keeps no colour. Which of the answers that the platforms give it is, is
/// left unsaid, and that it is a file: libwebp asks for memory and may not get it.
#[verifier::external_body]
pub(crate) fn encode_webp(src: &Raster, lossless: bool, quality: u8) -> (out: Result<
    Vec<u8>,
    String,
>)
    requires
        src.wf(),
        fits_webp(src.width, src.height),
        1 <= quality <= 100,
    ensures
        webp_answers(src@, lossless, quality, outcome(out)),
        out matches Ok(file) ==> decoders::is_webp(file@),
        lossless && opens_again(src.width, src.height, 3) && !src@.sees_through() && out is Ok
            ==> decodes_to(out->Ok_0@, *src),
{
    webp::Encoder::from_rgba(&src.pixels, src.width, src.height).encode_simple(
        lossless,
        quality.into(),
    ).map(|file| file.to_vec()).map_err(|error| format!("{error:?}"))
}

/// One picture of an icon: its side, and its bytes as PNG or BMP.
pub struct IconEntry {
    pub size: u32,
    pub data: Vec<u8>,
}

/// A picture of an icon as mathematics.
#[verifier::ext_equal]
pub struct Entry {
    pub size: nat,
    pub data: Seq<u8>,
}

impl View for IconEntry {
    type V = Entry;

    open spec fn view(&self) -> Entry {
        Entry { size: self.size as nat, data: self.data@ }
    }
}

/// The pictures of an icon as mathematics.
pub open spec fn entries_of(entries: Seq<IconEntry>) -> Seq<Entry> {
    Seq::new(entries.len(), |i: int| entries[i]@)
}

/// The low 16 bits of a number, least significant byte first.
pub open spec fn le16(n: nat) -> Seq<u8> {
    seq![(n % 256) as u8, (n / 256 % 256) as u8]
}

/// The low 32 bits of a number, least significant byte first.
pub open spec fn le32(n: nat) -> Seq<u8> {
    le16(n) + le16(n / 65536)
}

/// The bytes of the first `n` pictures, one behind the other.
pub open spec fn payload(entries: Seq<Entry>, n: int) -> Seq<u8>
    decreases n,
{
    if n <= 0 {
        Seq::empty()
    } else {
        payload(entries, n - 1) + entries[n - 1].data
    }
}

/// The directory of an icon as far as its first `n` pictures: for each its side, twice,
/// with 0 for 256, no palette, 32 bits a pixel, how many bytes it has and where they
/// start.
pub open spec fn directory(entries: Seq<Entry>, n: int) -> Seq<u8>
    decreases n,
{
    if n <= 0 {
        Seq::empty()
    } else {
        let entry = entries[n - 1];
        let side = (entry.size % 256) as u8;
        directory(entries, n - 1) + seq![side, side, 0u8, 0u8, 0u8, 0u8, 32u8, 0u8] + le32(
            entry.data.len(),
        ) + le32((6 + 16 * entries.len() + payload(entries, n - 1).len()) as nat)
    }
}

/// The icon file that holds the given pictures: a header with their number, the
/// directory, and their bytes.
pub open spec fn icon_file(entries: Seq<Entry>) -> Seq<u8> {
    seq![0u8, 0u8, 1u8, 0u8] + le16(entries.len()) + directory(entries, entries.len() as int)
        + payload(entries, entries.len() as int)
}

/// `image::codecs::ico::IcoFrame::with_encoded` for each picture and
/// `IcoEncoder::encode_images` for all of them: the icon file, byte for byte.
#[verifier::external_body]
pub(crate) fn encode_ico(entries: &Vec<IconEntry>) -> (file: Vec<u8>)
    requires
        1 <= entries@.len() <= u16::MAX,
        forall|i: int| 0 <= i < entries@.len() ==> 1 <= (#[trigger] entries@[i]).size <= 256,
        6 + 16 * entries@.len() + payload(entries_of(entries@), entries@.len() as int).len()
            <= u32::MAX,
    ensures
        file@ == icon_file(entries_of(entries@)),
{
    let rgba = image::ExtendedColorType::Rgba8;
    let frames: Vec<image::codecs::ico::IcoFrame<'_>> = entries.iter().map(
        |entry|
            image::codecs::ico::IcoFrame::with_encoded(
                &entry.data[..],
                entry.size,
                entry.size,
                rgba,
            ).expect("sides of 1 to 256"),
    ).collect();
    let mut file: Vec<u8> = Vec::new();
    image::codecs::ico::IcoEncoder::new(&mut file).encode_images(&frames).expect(
        "memory takes every write",
    );
    file
}

} // verus!
