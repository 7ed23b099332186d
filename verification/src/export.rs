//! Encoding edited pixels.
//!
//! Export is where a session of non-destructive edits finally becomes bytes. The caller
//! hands over pixels that have already been through the edit pipeline, so what is saved
//! is what was on screen.

use vstd::prelude::*;
use crate::codecs;
use crate::codecs::IconEntry;
use crate::decoders;
use crate::edit::Applied;
use crate::imageops;
use crate::imageops::Filter;
use crate::path;
use crate::raster;
use crate::raster::Picture;
use crate::raster::Raster;
use crate::raster::Rgba;
use crate::rounding;
use crate::rounding::half_up_of;
use crate::rounding::quotient_of;
use crate::rounding::significant_of;
use crate::text;
use crate::text::chars_of;
use crate::text::same_ignoring_case;

verus! {

/// The formats this build can write.
///
/// Shorter than the list it can read: offering a format that then fails at save time is
/// worse than not offering it.
#[derive(Debug, Clone, Copy, PartialEq, Eq, Structural)]
pub enum Format {
    Png,
    Jpeg,
    WebP,
    Bmp,
    Ico,
}

impl Format {
    /// The extension a format is written with.
    pub open spec fn written_as(self) -> Seq<char> {
        match self {
            Format::Png => "png"@,
            Format::Jpeg => "jpg"@,
            Format::WebP => "webp"@,
            Format::Bmp => "bmp"@,
            Format::Ico => "ico"@,
        }
    }

    /// The format that an extension in lower case names.
    pub open spec fn of_extension(ext: Seq<char>) -> Option<Format> {
        if ext == "png"@ {
            Some(Format::Png)
        } else if ext == "jpg"@ || ext == "jpeg"@ {
            Some(Format::Jpeg)
        } else if ext == "webp"@ {
            Some(Format::WebP)
        } else if ext == "bmp"@ {
            Some(Format::Bmp)
        } else if ext == "ico"@ {
            Some(Format::Ico)
        } else {
            None
        }
    }

    /// The format that a name refers to, with or without one dot in front and in any
    /// case.
    pub open spec fn named(name: Seq<char>) -> Option<Format> {
        if name.len() > 0 && name[0] == '.' {
            Format::of_extension(text::lowered(name.skip(1)))
        } else {
            Format::of_extension(text::lowered(name))
        }
    }

    /// Every format, in the order they are offered.
    pub fn all() -> (all: [Format; 5])
        ensures
            all@ == seq![Format::Png, Format::Jpeg, Format::WebP, Format::Bmp, Format::Ico],
    {
        [Format::Png, Format::Jpeg, Format::WebP, Format::Bmp, Format::Ico]
    }

    /// Extension to write, without the dot.
    pub fn extension(self) -> (ext: &'static str)
        ensures
            ext@ == self.written_as(),
    {
        match self {
            Format::Png => "png",
            Format::Jpeg => "jpg",
            Format::WebP => "webp",
            Format::Bmp => "bmp",
            Format::Ico => "ico",
        }
    }

    /// The name that the user sees.
    pub open spec fn shown_as(self) -> Seq<char> {
        match self {
            Format::Png => "PNG"@,
            Format::Jpeg => "JPEG"@,
            Format::WebP => "WebP"@,
            Format::Bmp => "BMP"@,
            Format::Ico => "ICO"@,
        }
    }

    pub fn label(self) -> (label: &'static str)
        ensures
            label@ == self.shown_as(),
    {
        match self {
            Format::Png => "PNG",
            Format::Jpeg => "JPEG",
            Format::WebP => "WebP",
            Format::Bmp => "BMP",
            Format::Ico => "ICO",
        }
    }

    /// Whether the encoder takes a quality setting, which is what decides if the quality
    /// slider is worth showing.
    pub fn is_lossy(self) -> (lossy: bool)
        ensures
            lossy == (self is Jpeg || self is WebP),
    {
        match self {
            Format::Jpeg | Format::WebP => true,
            _ => false,
        }
    }

    /// Whether the encoder keeps an alpha channel. JPEG does not, so transparency has to
    /// be flattened before it is handed over.
    pub fn keeps_alpha(self) -> (keeps: bool)
        ensures
            keeps == !(self is Jpeg),
    {
        self != Format::Jpeg
    }

    /// Whether the output size is decided by the format rather than by the export
    /// settings. An `.ico` holds a fixed ladder of icon sizes.
    pub fn has_fixed_sizes(self) -> (fixed: bool)
        ensures
            fixed == (self is Ico),
    {
        self == Format::Ico
    }

    /// The format a path's extension names, if this build can write it.
    pub fn from_path(path: &str) -> (format: Option<Self>)
        ensures
            format == (match path::extension_of(path@) {
                Some(ext) => Format::named(ext),
                None => None,
            }),
    {
        match path::extension(path) {
            Some(ext) => Format::from_name(ext.as_str()),
            None => None,
        }
    }

    /// The format an extension-like name refers to, if this build can write it.
    ///
    /// Takes a leading dot as well, so `.webp` and `webp` mean the same thing.
    pub fn from_name(name: &str) -> (format: Option<Self>)
        ensures
            format == Format::named(name@),
    {
        let chars = chars_of(name);
        let from: usize = if chars.len() > 0 && chars[0] == '.' {
            1
        } else {
            0
        };
        let bare = vstd::slice::slice_subrange(chars.as_slice(), from, chars.len());
        proof {
            if from == 0 {
                assert(bare@ =~= name@);
            } else {
                assert(bare@ =~= name@.skip(1));
            }
            lemma_extensions_are_lower();
        }
        if same_ignoring_case(bare, "png") {
            Some(Format::Png)
        } else if same_ignoring_case(bare, "jpg") || same_ignoring_case(bare, "jpeg") {
            Some(Format::Jpeg)
        } else if same_ignoring_case(bare, "webp") {
            Some(Format::WebP)
        } else if same_ignoring_case(bare, "bmp") {
            Some(Format::Bmp)
        } else if same_ignoring_case(bare, "ico") {
            Some(Format::Ico)
        } else {
            None
        }
    }
}

/// The extensions are spelled in lower case.
proof fn lemma_extensions_are_lower()
    ensures
        text::lowered("png"@) == "png"@,
        text::lowered("jpg"@) == "jpg"@,
        text::lowered("jpeg"@) == "jpeg"@,
        text::lowered("webp"@) == "webp"@,
        text::lowered("bmp"@) == "bmp"@,
        text::lowered("ico"@) == "ico"@,
{
    reveal_strlit("png");
    reveal_strlit("jpg");
    reveal_strlit("jpeg");
    reveal_strlit("webp");
    reveal_strlit("bmp");
    reveal_strlit("ico");
    assert(text::lowered("png"@) =~= "png"@);
    assert(text::lowered("jpg"@) =~= "jpg"@);
    assert(text::lowered("jpeg"@) =~= "jpeg"@);
    assert(text::lowered("webp"@) =~= "webp"@);
    assert(text::lowered("bmp"@) =~= "bmp"@);
    assert(text::lowered("ico"@) =~= "ico"@);
}

/// The extension a format is written with names that format, with or without a dot.
pub proof fn law_a_format_is_named_by_its_extension(format: Format)
    ensures
        Format::named(format.written_as()) == Some(format),
        Format::named(seq!['.'] + format.written_as()) == Some(format),
{
    lemma_extensions_are_lower();
    reveal_strlit("png");
    reveal_strlit("jpg");
    reveal_strlit("jpeg");
    reveal_strlit("webp");
    reveal_strlit("bmp");
    reveal_strlit("ico");
    assert("webp"@[0] != "jpeg"@[0]);
    assert("png"@[0] != "jpg"@[0] && "bmp"@[0] != "png"@[0] && "bmp"@[0] != "jpg"@[0]);
    assert("ico"@[0] != "png"@[0] && "ico"@[0] != "jpg"@[0] && "ico"@[0] != "bmp"@[0]);
    assert((seq!['.'] + format.written_as()).skip(1) =~= format.written_as());
}

/// Icon sizes written into an `.ico`, largest first.
///
/// The ladder Windows uses for its own icons: 16 in a menu, 32 on the desktop, 48 in the
/// shell, 64 for large views, 256 in the preview pane, and 20 and 40 for high-DPI
/// displays. Sizes above the source are skipped rather than upscaled.
pub const ICON_SIZES: [u32; 8] = [256, 64, 48, 40, 32, 24, 20, 16];

/// The largest entry stored as an uncompressed BMP. Anything above it is PNG: older tools
/// cannot read a PNG entry below 256.
pub const LARGEST_BMP_ENTRY: u32 = 64;

/// How the file should be written.
#[derive(Debug, Clone, Copy, PartialEq, Eq, Structural)]
pub struct Settings {
    pub format: Format,
    /// Quality of the lossy formats, 1 to 100. Ignored by the lossless ones.
    pub quality: u8,
    /// Output size as a percentage of the edited image. 100 writes it as it is.
    pub scale_percent: u32,
}

impl Default for Settings {
    fn default() -> (settings: Self)
        ensures
            settings == (Settings { format: Format::Png, quality: 90, scale_percent: 100 }),
    {
        Settings { format: Format::Png, quality: 90, scale_percent: 100 }
    }
}

/// One side of a picture scaled by a percentage, in binary arithmetic with 53
/// significant bits: the factor is a count of 2^-60, so is the product, and the nearest
/// whole number is what is left, at least 1 and at most what a side can be.
pub open spec fn scaled_side(side: u32, percent: u32) -> u32 {
    let factor = rounding::quotient((percent * 0x1000_0000_0000_0000) as nat, 100, 53);
    let product = rounding::significant((side * factor) as nat, 53);
    let nearest = rounding::half_up(product, 0x1000_0000_0000_0000);
    if nearest < 1 {
        1
    } else if nearest > u32::MAX {
        u32::MAX
    } else {
        nearest as u32
    }
}

fn scale_side(side: u32, percent: u32) -> (scaled: u32)
    ensures
        scaled == scaled_side(side, percent),
{
    let num: u128 = percent as u128 * 0x1000_0000_0000_0000;
    proof {
        rounding::lemma_quotient_bound(num as nat, 100, 53);
        rounding::lemma_grain((num / 100) as nat, 53);
    }
    let factor: u128 = quotient_of(num, 100, 53);
    proof {
        assert(factor <= 0x80_0000_0000_0000_0000_0000);
        assert(side * factor <= 0xffff_ffff * 0x80_0000_0000_0000_0000_0000) by (nonlinear_arith)
            requires
                0 <= side <= 0xffff_ffff,
                0 <= factor <= 0x80_0000_0000_0000_0000_0000,
        ;
        assert(side * factor >= 0) by (nonlinear_arith)
            requires
                0 <= side,
                0 <= factor,
        ;
        let n = (side * factor) as nat;
        rounding::lemma_grain(n, 53);
        rounding::lemma_half_even_fits(n, rounding::grain(n, 53));
    }
    let product: u128 = significant_of(side as u128 * factor, 53);
    let nearest: u128 = half_up_of(product, 0x1000_0000_0000_0000);
    if nearest < 1 {
        1
    } else if nearest > u32::MAX as u128 {
        u32::MAX
    } else {
        nearest as u32
    }
}

impl Settings {
    /// The size that these settings make of an image of the given size.
    pub open spec fn scaled(&self, size: (u32, u32)) -> (u32, u32) {
        if self.scale_percent == 100 || self.format is Ico {
            size
        } else {
            (
                scaled_side(size.0, self.scale_percent),
                scaled_side(size.1, self.scale_percent),
            )
        }
    }

    /// Dimensions this would produce from `size`.
    pub fn size_after(&self, size: (u32, u32)) -> (after: (u32, u32))
        ensures
            after == self.scaled(size),
    {
        if self.scale_percent == 100 || self.format.has_fixed_sizes() {
            return size;
        }
        (scale_side(size.0, self.scale_percent), scale_side(size.1, self.scale_percent))
    }
}

/// Scaling never rounds a side away.
pub proof fn law_scaling_never_rounds_a_side_away(settings: Settings, size: (u32, u32))
    requires
        size.0 >= 1,
        size.1 >= 1,
    ensures
        settings.scaled(size).0 >= 1,
        settings.scaled(size).1 >= 1,
{
}

/// A scale of one hundred percent changes nothing, and an icon ignores the scale.
pub proof fn law_full_scale_and_icons_keep_their_size(settings: Settings, size: (u32, u32))
    requires
        settings.scale_percent == 100 || settings.format is Ico,
    ensures
        settings.scaled(size) == size,
{
}

/// Why a file could not be written.
#[derive(Debug)]
pub struct ExportError {
    pub path: String,
    pub reason: String,
}

impl ExportError {
    pub fn at(path: &str, reason: &str) -> (error: Self)
        ensures
            error.path@ == path@,
            error.reason@ == reason@,
    {
        ExportError { path: path.to_owned(), reason: reason.to_owned() }
    }

    /// The error in words.
    pub fn message(&self) -> (message: String)
        ensures
            message@ == "could not write "@ + self.path@ + ": "@ + self.reason@,
    {
        let mut message = "could not write ".to_owned();
        message.append(self.path.as_str());
        message.append(": ");
        message.append(self.reason.as_str());
        message
    }
}

/// Appends the low 16 bits of a number, least significant byte first.
fn push_le16(out: &mut Vec<u8>, n: u64)
    ensures
        final(out)@ == old(out)@ + codecs::le16(n as nat),
{
    out.push((n % 256) as u8);
    out.push((n / 256 % 256) as u8);
}

/// Appends the low 32 bits of a number, least significant byte first.
fn push_le32(out: &mut Vec<u8>, n: u64)
    ensures
        final(out)@ == old(out)@ + codecs::le32(n as nat),
{
    push_le16(out, n);
    push_le16(out, n / 65536);
}

/// How many bytes a row of the mask has: a bit for each pixel, filled up to four bytes.
pub open spec fn mask_stride(width: nat) -> nat {
    (width + 31) / 32 * 4
}

/// The header of an icon's BMP: its own size, the width, twice the height, one colour
/// plane, 32 bits a pixel, no compression, how many bytes follow, and zeros.
pub open spec fn bmp_header(width: nat, height: nat) -> Seq<u8> {
    codecs::le32(40) + codecs::le32(width) + codecs::le32(2 * height) + codecs::le16(1)
        + codecs::le16(32) + codecs::le32(0) + codecs::le32(
        (width * height * 4 + mask_stride(width) * height) as nat,
    ) + Seq::new(16, |i: int| 0u8)
}

/// One byte of a pixel in the order blue, green, red, alpha.
pub open spec fn bgra(p: Rgba, part: int) -> u8 {
    if part == 0 {
        p.b
    } else if part == 1 {
        p.g
    } else if part == 2 {
        p.r
    } else {
        p.a
    }
}

/// The bytes of one row of pixels.
pub open spec fn bgra_row(row: Seq<Rgba>) -> Seq<u8> {
    Seq::new(4 * row.len(), |i: int| bgra(row[i / 4], i % 4))
}

/// The mask bit of one pixel, as the number it stands for in its byte: set where the
/// pixel is fully transparent.
pub open spec fn mask_bit(row: Seq<Rgba>, x: int) -> int {
    if 0 <= x < row.len() && row[x].a == 0 {
        bit_value(x % 8)
    } else {
        0
    }
}

/// What the `n`th bit of a byte stands for, counted from the top.
pub open spec fn bit_value(n: int) -> int {
    if n <= 0 {
        128
    } else if n == 1 {
        64
    } else if n == 2 {
        32
    } else if n == 3 {
        16
    } else if n == 4 {
        8
    } else if n == 5 {
        4
    } else if n == 6 {
        2
    } else {
        1
    }
}

/// The mask of the first `x` pixels of a row in the byte that holds pixel `8 * k`.
pub open spec fn mask_byte(row: Seq<Rgba>, k: int, x: int) -> int
    decreases x,
{
    if x <= 0 {
        0
    } else if (x - 1) / 8 == k {
        mask_byte(row, k, x - 1) + mask_bit(row, x - 1)
    } else {
        mask_byte(row, k, x - 1)
    }
}

/// The bytes of one row of the mask.
pub open spec fn mask_row(row: Seq<Rgba>) -> Seq<u8> {
    Seq::new(mask_stride(row.len()), |k: int| mask_byte(row, k, row.len() as int) as u8)
}

/// The bytes of the lowest `n` rows, from the bottom up.
pub open spec fn colour_rows(p: Picture, n: int) -> Seq<u8>
    decreases n,
{
    if n <= 0 {
        Seq::empty()
    } else {
        colour_rows(p, n - 1) + bgra_row(p.rows[p.height - n])
    }
}

/// The mask of the lowest `n` rows, from the bottom up.
pub open spec fn mask_rows(p: Picture, n: int) -> Seq<u8>
    decreases n,
{
    if n <= 0 {
        Seq::empty()
    } else {
        mask_rows(p, n - 1) + mask_row(p.rows[p.height - n])
    }
}

/// One icon entry as an uncompressed 32-bit BMP.
pub open spec fn bmp_entry_of(p: Picture) -> Seq<u8> {
    bmp_header(p.width, p.height) + colour_rows(p, p.height as int) + mask_rows(p, p.height as int)
}

/// The mask of the pixels so far leaves room for those to come.
proof fn lemma_mask_byte(row: Seq<Rgba>, k: int, x: int)
    requires
        0 <= x <= row.len(),
        0 <= k,
    ensures
        0 <= mask_byte(row, k, x),
        x <= 8 * k ==> mask_byte(row, k, x) == 0,
        x >= 8 * k + 8 ==> mask_byte(row, k, x) <= 255,
        8 * k < x <= 8 * k + 8 ==> mask_byte(row, k, x) <= 256 - bit_value(x - 8 * k - 1),
    decreases x,
{
    if x > 0 {
        lemma_mask_byte(row, k, x - 1);
        if (x - 1) / 8 == k {
            assert(8 * k <= x - 1 < 8 * k + 8);
            assert((x - 1) % 8 == x - 1 - 8 * k);
        }
    }
}

/// Appends one row of pixels in the order blue, green, red, alpha.
fn push_colour_row(out: &mut Vec<u8>, pixels: &Raster, y: u32)
    requires
        pixels.wf(),
        y < pixels.height,
    ensures
        final(out)@ == old(out)@ + bgra_row(pixels@.rows[y as int]),
{
    let ghost row = pixels@.rows[y as int];
    let ghost before = out@;
    let mut x: u32 = 0;
    while x < pixels.width
        invariant
            x <= pixels.width,
            y < pixels.height,
            pixels.wf(),
            row == pixels@.rows[y as int],
            row.len() == pixels.width,
            out@.len() == before.len() + 4 * x,
            forall|i: int| 0 <= i < before.len() ==> out@[i] == before[i],
            forall|i: int|
                0 <= i < 4 * x ==> #[trigger] out@[before.len() + i] == bgra(row[i / 4], i % 4),
        decreases pixels.width - x,
    {
        let pixel = pixels.get_pixel(x, y);
        let ghost done = out@;
        assert(row[x as int] == pixels@.at(x as int, y as int));
        out.push(pixel[2]);
        out.push(pixel[1]);
        out.push(pixel[0]);
        out.push(pixel[3]);
        proof {
            assert forall|i: int| 0 <= i < 4 * x + 4 implies #[trigger] out@[before.len() + i]
                == bgra(row[i / 4], i % 4) by {
                if i < 4 * x {
                    assert(done[before.len() + i] == bgra(row[i / 4], i % 4));
                } else {
                    assert(i / 4 == x);
                }
            }
        }
        x += 1;
    }
    proof {
        let whole = before + bgra_row(row);
        assert forall|i: int| 0 <= i < whole.len() implies out@[i] == whole[i] by {
            if i >= before.len() {
                assert(out@[before.len() + (i - before.len())] == bgra(
                    row[(i - before.len()) / 4],
                    (i - before.len()) % 4,
                ));
            }
        }
        assert(out@ =~= whole);
    }
}

/// Appends one row of the mask.
fn push_mask_row(out: &mut Vec<u8>, pixels: &Raster, y: u32)
    requires
        pixels.wf(),
        y < pixels.height,
    ensures
        final(out)@ == old(out)@ + mask_row(pixels@.rows[y as int]),
{
    let ghost row = pixels@.rows[y as int];
    let ghost before = out@;
    let stride: u64 = (pixels.width as u64 + 31) / 32 * 4;
    let mut k: u64 = 0;
    while k < stride
        invariant
            k <= stride,
            stride == mask_stride(pixels.width as nat),
            y < pixels.height,
            pixels.wf(),
            row == pixels@.rows[y as int],
            row.len() == pixels.width,
            out@ == before + mask_row(row).take(k as int),
        decreases stride - k,
    {
        let mut byte: u8 = 0;
        let mut x: u64 = 8 * k;
        proof {
            if 8 * k <= row.len() {
                lemma_mask_byte(row, k as int, 8 * k as int);
            }
        }
        while x < 8 * k + 8 && x < pixels.width as u64
            invariant
                y < pixels.height,
                pixels.wf(),
                row == pixels@.rows[y as int],
                row.len() == pixels.width,
                k < stride <= 0x2000_0000,
                8 * k <= x <= 8 * k + 8,
                x <= row.len() || x == 8 * k,
                x <= row.len() ==> byte == mask_byte(row, k as int, x as int),
                x > row.len() ==> byte == 0,
            decreases 8 * k + 8 - x,
        {
            let pixel = pixels.get_pixel(x as u32, y);
            assert(row[x as int] == pixels@.at(x as int, y as int));
            proof {
                lemma_mask_byte(row, k as int, x as int + 1);
                lemma_mask_byte(row, k as int, x as int);
                assert(x as int / 8 == k);
            }
            if pixel[3] == 0 {
                let bit: u8 = match x % 8 {
                    0 => 128,
                    1 => 64,
                    2 => 32,
                    3 => 16,
                    4 => 8,
                    5 => 4,
                    6 => 2,
                    _ => 1,
                };
                byte = byte + bit;
            }
            x += 1;
        }
        proof {
            lemma_mask_tail(row, k as int, if x <= row.len() { x as int } else { row.len() as int });
            lemma_mask_byte(row, k as int, row.len() as int);
            if x > row.len() {
                assert(row.len() <= 8 * k);
            }
        }
        out.push(byte);
        assert(mask_row(row).take(k + 1) =~= mask_row(row).take(k as int).push(byte));
        k += 1;
    }
    assert(mask_row(row).take(k as int) =~= mask_row(row));
}

/// Pixels past its eight do not touch a byte of the mask.
proof fn lemma_mask_tail(row: Seq<Rgba>, k: int, x: int)
    requires
        0 <= x <= row.len(),
        0 <= k,
        x >= 8 * k + 8 || x == row.len(),
    ensures
        mask_byte(row, k, row.len() as int) == mask_byte(row, k, x),
    decreases row.len() - x,
{
    if x < row.len() {
        lemma_mask_tail(row, k, x + 1);
        assert(x / 8 != k);
    }
}

/// One icon entry as an uncompressed 32-bit BMP, in the peculiar shape `.ico` requires.
///
/// There is no file header; the declared height is doubled because a 1-bit mask is
/// stacked underneath the colour data; and rows run bottom-up in BGRA. The mask is
/// redundant for a 32-bit icon, but the older code paths that ignore alpha read it, so
/// it is filled from alpha rather than left blank.
pub fn bmp_entry(pixels: &Raster) -> (entry: Vec<u8>)
    requires
        pixels.wf(),
        pixels.width * pixels.height * 4 <= u32::MAX,
        2 * pixels.height <= u32::MAX,
    ensures
        entry@ == bmp_entry_of(pixels@),
{
    let (width, height) = pixels.dimensions();
    proof {
        raster::lemma_area(width as int, height as int);
        assert(mask_stride(width as nat) * height <= 0x2000_0000 * 0xffff_ffff) by (nonlinear_arith)
            requires
                0 <= mask_stride(width as nat) <= 0x2000_0000,
                0 <= height <= 0xffff_ffff,
        ;
        assert(mask_stride(width as nat) * height >= 0) by (nonlinear_arith)
            requires
                0 <= mask_stride(width as nat),
                0 <= height,
        ;
    }
    let stride: u64 = (width as u64 + 31) / 32 * 4;
    let follows: u64 = width as u64 * height as u64 * 4 + stride * height as u64;
    let mut out: Vec<u8> = Vec::new();
    push_le32(&mut out, 40);
    push_le32(&mut out, width as u64);
    push_le32(&mut out, height as u64 * 2);
    push_le16(&mut out, 1);
    push_le16(&mut out, 32);
    push_le32(&mut out, 0);
    push_le32(&mut out, follows);
    let mut i: usize = 0;
    let ghost before = out@;
    while i < 16
        invariant
            i <= 16,
            out@ == before + Seq::new(i as nat, |k: int| 0u8),
        decreases 16 - i,
    {
        out.push(0);
        i += 1;
    }
    assert(out@ =~= bmp_header(width as nat, height as nat));
    let ghost header = out@;
    let mut n: u32 = 0;
    while n < height
        invariant
            n <= height,
            height == pixels.height,
            pixels.wf(),
            out@ == header + colour_rows(pixels@, n as int),
        decreases height - n,
    {
        push_colour_row(&mut out, pixels, height - 1 - n);
        n += 1;
    }
    let ghost coloured = out@;
    let mut n: u32 = 0;
    while n < height
        invariant
            n <= height,
            height == pixels.height,
            pixels.wf(),
            out@ == coloured + mask_rows(pixels@, n as int),
        decreases height - n,
    {
        push_mask_row(&mut out, pixels, height - 1 - n);
        n += 1;
    }
    out
}

proof fn lemma_rows_len(p: Picture, n: int)
    requires
        p.wf(),
        0 <= n <= p.height,
    ensures
        colour_rows(p, n).len() == 4 * p.width * n,
        mask_rows(p, n).len() == mask_stride(p.width) * n,
    decreases n,
{
    if n > 0 {
        lemma_rows_len(p, n - 1);
        assert(p.rows[p.height - n].len() == p.width);
        assert(4 * p.width * n == 4 * p.width * (n - 1) + 4 * p.width) by (nonlinear_arith);
        assert(mask_stride(p.width) * n == mask_stride(p.width) * (n - 1) + mask_stride(p.width))
            by (nonlinear_arith);
    } else {
        assert(4 * p.width * n == 0 && mask_stride(p.width) * n == 0) by (nonlinear_arith)
            requires
                n == 0,
        ;
    }
}

/// An uncompressed entry is exactly as long as Windows writes it: the header, the colour
/// rows, and the mask filled up to four bytes a row.
pub proof fn law_bmp_entries_have_their_exact_length(p: Picture)
    requires
        p.wf(),
    ensures
        bmp_entry_of(p).len() == 40 + 4 * p.width * p.height + mask_stride(p.width) * p.height,
{
    lemma_rows_len(p, p.height as int);
}

/// The side of the square that holds a picture.
pub open spec fn longest_side(width: nat, height: nat) -> nat {
    if width >= height {
        width
    } else {
        height
    }
}

/// A picture centred on a transparent square, or itself if it already is one.
pub open spec fn squared(p: Picture) -> Picture {
    if p.width == p.height {
        p
    } else {
        let side = longest_side(p.width, p.height);
        Picture::blank(side, side).with(p, (side - p.width) / 2, (side - p.height) / 2)
    }
}

/// The image centred on a transparent square, or itself if it already is one: an icon is
/// square, and a squashed logo is worse than a margin.
pub fn square_canvas<'a>(pixels: &'a Raster) -> (square: Applied<'a>)
    requires
        pixels.wf(),
        raster::addressable(
            longest_side(pixels.width as nat, pixels.height as nat) as int,
            longest_side(pixels.width as nat, pixels.height as nat) as int,
        ),
    ensures
        square.wf(),
        square.picture() == squared(pixels@),
        square is Borrowed == (pixels.width == pixels.height),
{
    let (width, height) = pixels.dimensions();
    if width == height {
        return Applied::Borrowed(pixels);
    }
    let side: u32 = if width >= height {
        width
    } else {
        height
    };
    let mut square = Raster::new(side, side);
    imageops::replace(&mut square, pixels, (side - width) / 2, (side - height) / 2);
    Applied::Owned(square)
}

/// A channel laid over white.
pub open spec fn over_white(c: u8, a: u8) -> u8 {
    ((c * a + 255 * (255 - a)) / 255) as u8
}

/// One byte of a pixel laid over white: red, green or blue.
pub open spec fn flat(p: Rgba, part: int) -> u8 {
    if part == 0 {
        over_white(p.r, p.a)
    } else if part == 1 {
        over_white(p.g, p.a)
    } else {
        over_white(p.b, p.a)
    }
}

/// The RGB bytes of interleaved RGBA bytes laid over white.
pub open spec fn flattened(bytes: Seq<u8>) -> Seq<u8> {
    Seq::new(
        (bytes.len() / 4 * 3) as nat,
        |i: int| flat(raster::pixel_at(bytes, i / 3), i % 3),
    )
}

fn lay_over_white(c: u8, a: u8) -> (over: u8)
    ensures
        over == over_white(c, a),
{
    assert(0 <= c * a <= 255 * a) by (nonlinear_arith)
        requires
            0 <= c <= 255,
            0 <= a,
    ;
    ((c as u32 * a as u32 + 255 * (255 - a as u32)) / 255) as u8
}

/// The pixels over white, without their alpha. Discarding alpha instead would leave
/// whatever colour happened to sit under a transparent pixel.
pub fn flatten_onto_white(pixels: &Raster) -> (rgb: Vec<u8>)
    requires
        pixels.wf(),
    ensures
        rgb@ == flattened(pixels.pixels@),
        rgb@.len() == pixels.width * pixels.height * 3,
{
    let count: usize = pixels.pixels.len() / 4;
    let mut rgb: Vec<u8> = Vec::new();
    let mut n: usize = 0;
    while n < count
        invariant
            n <= count,
            count * 4 == pixels.pixels@.len() <= usize::MAX,
            rgb@.len() == 3 * n,
            forall|i: int|
                0 <= i < 3 * n ==> #[trigger] rgb@[i] == flat(
                    raster::pixel_at(pixels.pixels@, i / 3),
                    i % 3,
                ),
        decreases count - n,
    {
        let alpha: u8 = pixels.pixels[4 * n + 3];
        let ghost before = rgb@;
        rgb.push(lay_over_white(pixels.pixels[4 * n], alpha));
        rgb.push(lay_over_white(pixels.pixels[4 * n + 1], alpha));
        rgb.push(lay_over_white(pixels.pixels[4 * n + 2], alpha));
        proof {
            assert forall|i: int| 0 <= i < 3 * n + 3 implies #[trigger] rgb@[i] == flat(
                raster::pixel_at(pixels.pixels@, i / 3),
                i % 3,
            ) by {
                if i < 3 * n {
                    assert(rgb@[i] == before[i]);
                } else {
                    assert(i / 3 == n);
                }
            }
        }
        n += 1;
    }
    assert(rgb@ =~= flattened(pixels.pixels@));
    rgb
}

/// A fully transparent pixel lands on white, and an opaque one keeps its colour.
pub proof fn law_flattening_keeps_opaque_colours(c: u8)
    ensures
        over_white(c, 0) == 255,
        over_white(c, 255) == c,
{
    assert(c * 255 / 255 == c);
}

/// The sizes of the ladder that a source of the given side fills, largest first.
pub open spec fn ladder_to(side: u32, n: int) -> Seq<u32>
    decreases n,
{
    if n <= 0 {
        Seq::empty()
    } else if ICON_SIZES@[n - 1] <= side {
        ladder_to(side, n - 1).push(ICON_SIZES@[n - 1])
    } else {
        ladder_to(side, n - 1)
    }
}

/// The sizes an icon is written at: every rung of the ladder that its source can fill,
/// or, where it can fill none, its own size.
pub open spec fn rungs(side: u32) -> Seq<u32> {
    if side >= 16 {
        ladder_to(side, 8)
    } else if side >= 1 {
        seq![side]
    } else {
        seq![1u32]
    }
}

/// The sizes an icon is written at.
pub fn icon_sizes(side: u32) -> (sizes: Vec<u32>)
    ensures
        sizes@ == rungs(side),
        1 <= sizes@.len() <= 8,
        forall|i: int|
            0 <= i < sizes@.len() ==> 1 <= (#[trigger] sizes@[i]) <= 256 && (side >= 1
                ==> sizes@[i] <= side),
{
    let mut sizes: Vec<u32> = Vec::new();
    let mut n: usize = 0;
    while n < 8
        invariant
            n <= 8,
            sizes@ == ladder_to(side, n as int),
            sizes@.len() <= n,
            n == 8 && side >= 16 ==> sizes@.len() >= 1,
            side < 16 ==> sizes@.len() == 0,
            forall|i: int|
                0 <= i < sizes@.len() ==> 1 <= (#[trigger] sizes@[i]) <= 256 && sizes@[i] <= side,
        decreases 8 - n,
    {
        assert(ICON_SIZES@[n as int] >= 16 && ICON_SIZES@[n as int] <= 256);
        assert(ICON_SIZES@[7] == 16);
        let size: u32 = ICON_SIZES[n];
        if size <= side {
            sizes.push(size);
        }
        n += 1;
    }
    if sizes.len() == 0 {
        sizes.push(
            if side >= 1 {
                side
            } else {
                1
            },
        );
        assert(sizes@ =~= rungs(side));
    }
    sizes
}

/// The bytes of one picture of an icon: PNG above the largest BMP entry, BMP below.
pub open spec fn entry_bytes(frame: Raster) -> Result<Seq<u8>, Seq<char>> {
    if frame.width > LARGEST_BMP_ENTRY {
        codecs::png_of(frame.width as nat, frame.height as nat, frame.pixels@)
    } else {
        Ok(bmp_entry_of(frame@))
    }
}

/// The pictures of an icon as far as the `n`th, or the reason the first one that could
/// not be encoded gives.
pub open spec fn entries_for(frames: Seq<Raster>, n: int) -> Result<
    Seq<codecs::Entry>,
    Seq<char>,
>
    decreases n,
{
    if n <= 0 {
        Ok(Seq::empty())
    } else {
        match entries_for(frames, n - 1) {
            Err(reason) => Err(reason),
            Ok(entries) => match entry_bytes(frames[n - 1]) {
                Err(reason) => Err(reason),
                Ok(data) => Ok(
                    entries.push(codecs::Entry { size: frames[n - 1].width as nat, data }),
                ),
            },
        }
    }
}

/// The icon file that holds the given pictures, or the reason there is none.
pub open spec fn icon_of(frames: Seq<Raster>) -> Result<Seq<u8>, Seq<char>> {
    match entries_for(frames, frames.len() as int) {
        Err(reason) => Err(reason),
        Ok(entries) => if 6 + 16 * entries.len() + codecs::payload(
            entries,
            entries.len() as int,
        ).len() > u32::MAX {
            Err("the icon is larger than an icon file can be"@)
        } else {
            Ok(codecs::icon_file(entries))
        },
    }
}

proof fn lemma_entries_stop(frames: Seq<Raster>, failed: int, n: int)
    requires
        failed <= n,
        entries_for(frames, failed) is Err,
    ensures
        entries_for(frames, n) == entries_for(frames, failed),
    decreases n - failed,
{
    if failed < n {
        lemma_entries_stop(frames, failed, n - 1);
    }
}

proof fn lemma_payload_prefix(one: Seq<codecs::Entry>, other: Seq<codecs::Entry>, n: int)
    requires
        0 <= n <= one.len(),
        n <= other.len(),
        forall|i: int| 0 <= i < n ==> one[i] == other[i],
    ensures
        codecs::payload(one, n) == codecs::payload(other, n),
    decreases n,
{
    if n > 0 {
        lemma_payload_prefix(one, other, n - 1);
    }
}

/// Puts pictures that already have the sizes of an icon into one file, the small ones
/// uncompressed.
pub fn assemble_icon(frames: &Vec<Raster>) -> (out: Result<Vec<u8>, String>)
    requires
        1 <= frames@.len() <= u16::MAX,
        forall|i: int|
            0 <= i < frames@.len() ==> {
                &&& (#[trigger] frames@[i]).wf()
                &&& 1 <= frames@[i].width <= 256
                &&& frames@[i].height == frames@[i].width
            },
    ensures
        codecs::outcome(out) == icon_of(frames@),
{
    let mut entries: Vec<IconEntry> = Vec::new();
    let mut total: u64 = 6 + 16 * frames.len() as u64;
    assert(codecs::entries_of(entries@) =~= Seq::empty());
    let mut n: usize = 0;
    while n < frames.len()
        invariant
            n <= frames@.len() <= u16::MAX,
            entries@.len() == n,
            forall|i: int|
                0 <= i < frames@.len() ==> {
                    &&& (#[trigger] frames@[i]).wf()
                    &&& 1 <= frames@[i].width <= 256
                    &&& frames@[i].height == frames@[i].width
                },
            forall|i: int| 0 <= i < n ==> 1 <= (#[trigger] entries@[i]).size <= 256,
            entries_for(frames@, n as int) == Ok::<Seq<codecs::Entry>, Seq<char>>(
                codecs::entries_of(entries@),
            ),
            total <= u32::MAX ==> total == 6 + 16 * frames@.len() + codecs::payload(
                codecs::entries_of(entries@),
                n as int,
            ).len(),
            total > u32::MAX ==> total == 0x1_0000_0000 && 6 + 16 * frames@.len()
                + codecs::payload(codecs::entries_of(entries@), n as int).len() > u32::MAX,
        decreases frames@.len() - n,
    {
        let ghost before = codecs::entries_of(entries@);
        let frame = &frames[n];
        let encoded = if frame.width > LARGEST_BMP_ENTRY {
            codecs::encode_png(frame)
        } else {
            assert(frame.width * frame.height * 4 <= u32::MAX) by (nonlinear_arith)
                requires
                    frame.width <= 64,
                    frame.height == frame.width,
            ;
            Ok(bmp_entry(frame))
        };
        let data = match encoded {
            Ok(data) => data,
            Err(reason) => {
                proof {
                    lemma_entries_stop(frames@, n + 1, frames@.len() as int);
                }
                return Err(reason);
            },
        };
        let length: u64 = data.len() as u64;
        total = if length > u32::MAX as u64 || total + length > u32::MAX as u64 {
            0x1_0000_0000
        } else {
            total + length
        };
        entries.push(IconEntry { size: frame.width, data });
        proof {
            let after = codecs::entries_of(entries@);
            assert(after =~= before.push(entries@[n as int]@));
            lemma_payload_prefix(before, after, n as int);
        }
        n += 1;
    }
    if total > u32::MAX as u64 {
        return Err("the icon is larger than an icon file can be".to_owned());
    }
    Ok(codecs::encode_ico(&entries))
}

/// Whether pictures are those of an icon made of `p`: one for each rung, resized to it from
/// `p`, and untouched where that is the size of `p`.
pub open spec fn icon_frames(p: Picture, frames: Seq<Raster>) -> bool {
    let square = squared(p);
    let sizes = rungs(square.width as u32);
    &&& frames.len() == sizes.len()
    &&& forall|i: int|
        0 <= i < frames.len() ==> {
            &&& (#[trigger] frames[i]).wf()
            &&& frames[i].width == sizes[i]
            &&& frames[i].height == sizes[i]
            &&& sizes[i] == square.width ==> frames[i]@ == square
            &&& imageops::lanczos_resizes(square, frames[i]@)
        }
}

/// Whether a square of this side can be held and brought down to the rungs of an icon.
pub open spec fn can_make_icon(side: nat) -> bool {
    raster::addressable(side as int, side as int) && side <= imageops::SAMPLED_SIDE
}

/// A Windows icon holding the whole ladder of sizes.
fn encode_icon(pixels: &Raster) -> (out: Result<Vec<u8>, String>)
    requires
        pixels.wf(),
        can_make_icon(longest_side(pixels.width as nat, pixels.height as nat)),
    ensures
        exists|frames: Seq<Raster>|
            #[trigger] icon_frames(pixels@, frames) && codecs::outcome(out) == icon_of(frames),
{
    let held = square_canvas(pixels);
    let square = held.as_raster();
    let side: u32 = square.width;
    let sizes = icon_sizes(side);
    let mut frames: Vec<Raster> = Vec::new();
    let mut n: usize = 0;
    while n < sizes.len()
        invariant
            n <= sizes@.len(),
            square.wf(),
            square@ == squared(pixels@),
            square.width == side,
            square.height == side,
            side <= imageops::SAMPLED_SIDE,
            sizes@ == rungs(side),
            1 <= sizes@.len() <= 8,
            forall|i: int|
                0 <= i < sizes@.len() ==> 1 <= (#[trigger] sizes@[i]) <= 256 && (side >= 1
                    ==> sizes@[i] <= side),
            frames@.len() == n,
            forall|i: int|
                0 <= i < n ==> {
                    &&& (#[trigger] frames@[i]).wf()
                    &&& frames@[i].width == sizes@[i]
                    &&& frames@[i].height == sizes@[i]
                    &&& sizes@[i] == side ==> frames@[i]@ == square@
                    &&& imageops::lanczos_resizes(square@, frames@[i]@)
                },
        decreases sizes@.len() - n,
    {
        let size: u32 = sizes[n];
        assert(size * size * 4 <= 256 * 256 * 4) by (nonlinear_arith)
            requires
                0 <= size <= 256,
        ;
        // Past 1024 the square itself takes more than the strip between the two passes.
        assert(side * size * 16 <= 1024 * 256 * 16 || side * size * 16 <= side * side * 4)
            by (nonlinear_arith)
            requires
                0 <= size <= 256,
                0 <= side,
        ;
        frames.push(imageops::resize(square, size, size, Filter::Lanczos3));
        n += 1;
    }
    assert(icon_frames(pixels@, frames@));
    assemble_icon(&frames)
}

/// Whether a WebP is asked for without loss, and the number that goes with it: without loss
/// from 100 on, and at a quality of at least 1 below.
pub open spec fn webp_asked(quality: u8) -> (bool, u8) {
    if quality >= 100 {
        (true, 75)
    } else if quality == 0 {
        (false, 1)
    } else {
        (false, quality)
    }
}

/// How a WebP is asked for. The top of the dial is asking for no loss, not for the most
/// expensive loss. Without loss the number says how hard to try.
pub fn webp_request(quality: u8) -> (request: (bool, u8))
    ensures
        request == webp_asked(quality),
{
    if quality >= 100 {
        (true, 75)
    } else if quality == 0 {
        (false, 1)
    } else {
        (false, quality)
    }
}

/// What is made of an answer of the WebP encoder: a file without bytes is none.
pub open spec fn webp_answered(answer: Result<Seq<u8>, Seq<char>>) -> Result<
    Seq<u8>,
    Seq<char>,
> {
    match answer {
        Ok(bytes) => if bytes.len() == 0 {
            Err("libwebp produced no data"@)
        } else {
            Ok(bytes)
        },
        Err(reason) => Err(reason),
    }
}

/// What is made of the answer of the WebP encoder: a file without bytes is none.
pub fn webp_answer(answer: Result<Vec<u8>, String>) -> (out: Result<Vec<u8>, String>)
    ensures
        codecs::outcome(out) == webp_answered(codecs::outcome(answer)),
{
    match answer {
        Ok(bytes) => if bytes.len() == 0 {
            Err("libwebp produced no data".to_owned())
        } else {
            Ok(bytes)
        },
        Err(reason) => Err(reason),
    }
}

/// The quality a JPEG is written at.
pub open spec fn jpeg_quality(quality: u8) -> u8 {
    if quality < 1 {
        1
    } else if quality > 100 {
        100
    } else {
        quality
    }
}

/// What is said of a picture whose sides no WebP can have.
pub const TOO_LARGE_FOR_WEBP: &'static str = "VP8_ENC_ERROR_BAD_DIMENSION";

/// Whether `out` is what writing a picture as WebP comes to: what is made of an answer of the
/// encoder. A file is a WebP, which at the top of the dial gives an opaque picture back as
/// it was.
pub open spec fn is_written_webp(scaled: Raster, quality: u8, out: Result<Vec<u8>, String>) -> bool {
    if codecs::fits_webp(scaled.width, scaled.height) {
        &&& exists|answer: Result<Seq<u8>, Seq<char>>|
            {
                &&& #[trigger] codecs::webp_answers(
                    scaled@,
                    webp_asked(quality).0,
                    webp_asked(quality).1,
                    answer,
                )
                &&& codecs::outcome(out) == webp_answered(answer)
            }
        &&& out matches Ok(file) ==> {
            &&& decoders::is_webp(file@)
            &&& quality >= 100 && codecs::opens_again(scaled.width, scaled.height, 3)
                && !scaled@.sees_through() ==> codecs::decodes_to(file@, scaled)
        }
    } else {
        codecs::outcome(out) == Err::<Seq<u8>, Seq<char>>(TOO_LARGE_FOR_WEBP@)
    }
}

/// Whether `out` is what writing pixels of the right size in a format comes to. A PNG
/// gives the pixels back, and an icon holds the pictures of the ladder.
pub open spec fn written(
    scaled: Raster,
    format: Format,
    quality: u8,
    out: Result<Vec<u8>, String>,
) -> bool {
    match format {
        Format::Png => {
            &&& codecs::outcome(out) == codecs::png_of(
                scaled.width as nat,
                scaled.height as nat,
                scaled.pixels@,
            )
            &&& scaled.width == 0 || scaled.height == 0 ==> out is Err
            &&& out matches Ok(file) ==> codecs::is_png(file@)
            &&& codecs::opens_again(scaled.width, scaled.height, 4) ==> (out matches Ok(file)
                && codecs::decodes_to(file@, scaled))
        },
        Format::Bmp => codecs::outcome(out) == codecs::bmp_of(
            scaled.width as nat,
            scaled.height as nat,
            scaled.pixels@,
        ),
        Format::Jpeg => codecs::outcome(out) == codecs::jpeg_of(
            scaled.width as nat,
            scaled.height as nat,
            flattened(scaled.pixels@),
            jpeg_quality(quality),
        ) && out is Ok == (1 <= scaled.width <= 65535 && 1 <= scaled.height <= 65535),
        Format::WebP => is_written_webp(scaled, quality, out),
        Format::Ico => exists|frames: Seq<Raster>| #[trigger]
            icon_frames(scaled@, frames) && codecs::outcome(out) == icon_of(frames),
    }
}

/// Encodes pixels that already have their output size.
pub fn encode_scaled(scaled: &Raster, format: Format, quality: u8) -> (out: Result<
    Vec<u8>,
    String,
>)
    requires
        scaled.wf(),
        format is Ico ==> can_make_icon(
            longest_side(scaled.width as nat, scaled.height as nat),
        ),
    ensures
        written(*scaled, format, quality, out),
{
    match format {
        Format::Ico => encode_icon(scaled),
        Format::WebP => {
            if scaled.width == 0 || scaled.width > 16383 || scaled.height == 0 || scaled.height
                > 16383 {
                return Err(TOO_LARGE_FOR_WEBP.to_owned());
            }
            let (lossless, effort) = webp_request(quality);
            let answer = codecs::encode_webp(scaled, lossless, effort);
            let ghost came = codecs::outcome(answer);
            let out = webp_answer(answer);
            assert(codecs::webp_answers(scaled@, lossless, effort, came));
            assert(codecs::outcome(out) == webp_answered(came));
            out
        },
        Format::Jpeg => {
            let rgb = flatten_onto_white(scaled);
            let clamped: u8 = if quality < 1 {
                1
            } else if quality > 100 {
                100
            } else {
                quality
            };
            codecs::encode_jpeg(scaled.width, scaled.height, &rgb, clamped)
        },
        Format::Png => codecs::encode_png(scaled),
        Format::Bmp => codecs::encode_bmp(scaled),
    }
}

/// A picture that is exported as PNG at its own size opens again with the pixels it had,
/// unless it is so large that nothing of its size opens.
pub proof fn law_a_png_gives_the_pixels_back(pixels: Raster, quality: u8, out: Result<Vec<u8>, String>)
    requires
        pixels.wf(),
        codecs::opens_again(pixels.width, pixels.height, 4),
        written(pixels, Format::Png, quality, out),
    ensures
        out matches Ok(file) && codecs::decodes_to(file@, pixels),
{
}

/// The top of the dial loses nothing: an opaque picture that is exported as WebP at full
/// quality opens again with the pixels it had, unless nothing of its size opens.
pub proof fn law_full_quality_webp_loses_nothing(
    pixels: Raster,
    quality: u8,
    out: Result<Vec<u8>, String>,
)
    requires
        pixels.wf(),
        codecs::opens_again(pixels.width, pixels.height, 3),
        !pixels@.sees_through(),
        quality >= 100,
        written(pixels, Format::WebP, quality, out),
    ensures
        out matches Ok(file) ==> codecs::decodes_to(file@, pixels),
{
}

/// Whether a picture can be scaled as these settings ask, and what they make of it on the
/// way to a file can be held.
pub open spec fn exportable(settings: Settings, size: (u32, u32)) -> bool {
    let after = settings.scaled(size);
    &&& imageops::can_resize(
        Filter::Lanczos3,
        (size.0 as int, size.1 as int),
        (after.0 as int, after.1 as int),
    )
    &&& settings.format is Ico ==> can_make_icon(longest_side(size.0 as nat, size.1 as nat))
}

/// Resizes for export, if asked: one copy on purpose, with the sharper filter.
pub fn scale<'a>(pixels: &'a Raster, settings: &Settings) -> (scaled: Applied<'a>)
    requires
        pixels.wf(),
        exportable(*settings, (pixels.width, pixels.height)),
    ensures
        scaled.wf(),
        scaled.picture().width == settings.scaled((pixels.width, pixels.height)).0,
        scaled.picture().height == settings.scaled((pixels.width, pixels.height)).1,
        scaled is Owned ==> imageops::lanczos_resizes(pixels@, scaled.picture()),
        scaled matches Applied::Borrowed(held) ==> *held == *pixels,
        scaled is Borrowed == (settings.scaled((pixels.width, pixels.height)) == (
            pixels.width,
            pixels.height,
        )),
{
    let (width, height) = settings.size_after(pixels.dimensions());
    if width == pixels.width && height == pixels.height {
        return Applied::Borrowed(pixels);
    }
    Applied::Owned(imageops::resize(pixels, width, height, Filter::Lanczos3))
}

/// Whether `scaled` is a picture at the size that the settings ask for: itself where that is
/// its size, and resized from it otherwise.
pub open spec fn is_scaled(pixels: Raster, settings: Settings, scaled: Raster) -> bool {
    &&& scaled.wf()
    &&& (scaled.width, scaled.height) == settings.scaled((pixels.width, pixels.height))
    &&& if (scaled.width, scaled.height) == (pixels.width, pixels.height) {
        scaled == pixels
    } else {
        imageops::lanczos_resizes(pixels@, scaled@)
    }
}

/// Whether `out` is `pixels` written with these settings.
pub open spec fn is_export(pixels: Raster, settings: Settings, out: Result<Vec<u8>, String>) -> bool {
    exists|scaled: Raster|
        is_scaled(pixels, settings, scaled) && #[trigger] written(
            scaled,
            settings.format,
            settings.quality,
            out,
        )
}

/// The bytes of `pixels` as a file: scaled as the settings ask, in the format they name.
pub fn encode(pixels: &Raster, settings: &Settings) -> (out: Result<Vec<u8>, String>)
    requires
        pixels.wf(),
        exportable(*settings, (pixels.width, pixels.height)),
    ensures
        is_export(*pixels, *settings, out),
{
    let held = scale(pixels, settings);
    let scaled = held.as_raster();
    encode_scaled(scaled, settings.format, settings.quality)
}

/// Whether a picture of `size` can be scaled as these settings ask, and what they make of it
/// can be held.
pub fn can_export(settings: &Settings, size: (u32, u32)) -> (can: bool)
    ensures
        can == exportable(*settings, size),
{
    let after = settings.size_after(size);
    let side: u32 = if size.0 >= size.1 {
        size.0
    } else {
        size.1
    };
    proof {
        raster::lemma_area(side as int, side as int);
    }
    let square = side <= imageops::SAMPLED_SIDE && side as u128 * side as u128 * 4
        <= isize::MAX as u128;
    imageops::resizable(Filter::Lanczos3, size, after) && (settings.format != Format::Ico
        || square)
}

/// A picture sits in the middle of its square: as wide a margin on the left as on the right
/// and as high a one above as below, to within a pixel, which then goes to the right or below.
/// The margins are transparent, and the side is that of the longer edge.
pub proof fn law_a_square_is_centred(p: Picture, left: int, top: int)
    requires
        p.wf(),
        ({
            let side = if p.width < p.height { p.height } else { p.width };
            &&& left <= side - p.width - left <= left + 1
            &&& top <= side - p.height - top <= top + 1
        }),
    ensures
        squared(p).wf(),
        squared(p).width == squared(p).height,
        squared(p).width == p.width || squared(p).width == p.height,
        squared(p).width >= p.width && squared(p).width >= p.height,
        forall|x: int, y: int|
            p.holds(x, y) ==> squared(p).at(left + x, top + y) == #[trigger] p.at(x, y),
        forall|x: int, y: int|
            squared(p).holds(x, y) && !p.holds(x - left, y - top) ==> (#[trigger] squared(p).at(
                x,
                y,
            )).a == 0,
{
    assert forall|x: int, y: int| p.holds(x, y) implies squared(p).at(left + x, top + y)
        == #[trigger] p.at(x, y) by {
        assert(squared(p).holds(left + x, top + y));
    }
}

/// Squaring does not tell a portrait from a landscape: where the margins come out even, a
/// picture turned and squared is the same as squared and turned.
pub proof fn law_squaring_commutes_with_a_turn(p: Picture)
    requires
        p.wf(),
        (p.width - p.height) % 2 == 0,
    ensures
        squared(p.turned_clockwise()) == squared(p).turned_clockwise(),
{
    let turned = squared(p.turned_clockwise());
    let other = squared(p).turned_clockwise();
    assert forall|x: int, y: int| turned.holds(x, y) implies #[trigger] turned.at(x, y)
        == other.at(x, y) by {
        assert(squared(p).holds(y, squared(p).height - 1 - x));
    }
    raster::lemma_same(turned, other);
}

/// Scaling takes each side to that percentage of it: the nearest whole number of pixels, and at
/// least one.
pub proof fn law_a_side_is_scaled_to_its_percentage(side: u32, percent: u32)
    requires
        percent <= 10000,
        side * percent <= 100 * (u32::MAX - 1),
    ensures
        side * percent >= 50 ==> -50 <= 100 * scaled_side(side, percent) - side * percent <= 50,
        side * percent < 50 ==> scaled_side(side, percent) == 1,
{
    let unit: int = 0x1000_0000_0000_0000;
    let num = (percent * 0x1000_0000_0000_0000) as nat;
    let factor = rounding::quotient(num, 100, 53);
    let step = rounding::lemma_quotient_near(num, 100);
    assert(step <= 25600);
    let product = rounding::significant((side * factor) as nat, 53);
    let e = factor * 100 - num;
    assert(-1280000 <= e <= 1280000);
    assert(100 * (side * factor) == side * percent * unit + side * e) by (nonlinear_arith)
        requires
            factor * 100 == percent * unit + e,
    ;
    assert(-5497558138880000 <= side * e <= 5497558138880000) by (nonlinear_arith)
        requires
            0 <= side <= 0xffff_ffff,
            -1280000 <= e <= 1280000,
    ;
    assert(side * factor >= 0) by (nonlinear_arith)
        requires
            side >= 0,
            factor >= 0,
    ;
    rounding::lemma_significant_near((side * factor) as nat);
    let nearest = rounding::half_up(product, 0x1000_0000_0000_0000);
    rounding::lemma_half_up_near(product, 0x1000_0000_0000_0000);
    assert(0 <= side * percent) by (nonlinear_arith)
        requires
            0 <= side,
            0 <= percent,
    ;
    assert(-50 <= 100 * nearest - side * percent <= 50);
}

/// Both sides are scaled alike, so a picture keeps its shape; an icon is never scaled.
pub proof fn law_both_sides_are_scaled_alike(settings: Settings, size: (u32, u32))
    requires
        size.0 >= 1,
        size.1 >= 1,
    ensures
        settings.scaled((size.1, size.0)) == (settings.scaled(size).1, settings.scaled(size).0),
        !(settings.format is Ico) ==> settings.scaled(size).0 == (if settings.scale_percent == 100 {
            size.0
        } else {
            scaled_side(size.0, settings.scale_percent)
        }),
{
}

/// A see-through colour is laid over white in the measure that it is see-through, rounded
/// down: every pixel gives its red, green and blue, and no more than three bytes.
pub proof fn law_alpha_is_laid_over_white(bytes: Seq<u8>, pixel: int, part: int)
    requires
        bytes.len() % 4 == 0,
        0 <= pixel < bytes.len() / 4,
        0 <= part < 3,
    ensures
        flattened(bytes).len() * 4 == bytes.len() * 3,
        ({
            let (colour, alpha) = (bytes[4 * pixel + part] as int, bytes[4 * pixel + 3] as int);
            let laid = colour * alpha + 255 * (255 - alpha);
            let out = flattened(bytes)[3 * pixel + part];
            &&& 255 * out <= laid < 255 * out + 255
            &&& alpha == 255 ==> out == colour
            &&& alpha == 0 ==> out == 255
            &&& out >= colour
        }),
{
    assert((3 * pixel + part) / 3 == pixel && (3 * pixel + part) % 3 == part);
    let (colour, alpha) = (bytes[4 * pixel + part] as int, bytes[4 * pixel + 3] as int);
    assert(0 <= colour * alpha <= 255 * alpha && colour * alpha + 255 * (255 - alpha) >= 255
        * colour) by (nonlinear_arith)
        requires
            0 <= colour <= 255,
            0 <= alpha <= 255,
    ;
    assert(colour * 255 == 255 * colour);
}

/// An icon has every rung of the ladder that its picture is large enough for, largest first:
/// 256, 64, 48, 40, 32, 24, 20 and 16. One too small for any has its own size.
pub proof fn law_an_icon_has_every_rung(side: u32)
    ensures
        side >= 16 ==> forall|size: u32| #[trigger]
            rungs(side).contains(size) == (size <= side && (size == 256 || size == 64 || size == 48
                || size == 40 || size == 32 || size == 24 || size == 20 || size == 16)),
        1 <= side < 16 ==> rungs(side) == seq![side],
        forall|i: int, j: int|
            0 <= i < j < rungs(side).len() ==> #[trigger] rungs(side)[i] > #[trigger] rungs(
                side,
            )[j],
{
    if side >= 16 {
        lemma_ladder(side, 8);
        assert forall|size: u32| #[trigger]
            rungs(side).contains(size) == (size <= side && (size == 256 || size == 64 || size == 48
                || size == 40 || size == 32 || size == 24 || size == 20 || size == 16)) by {
            if rungs(side).contains(size) {
                let i = choose|i: int| 0 <= i < rungs(side).len() && rungs(side)[i] == size;
                assert(ladder_to(side, 8)[i] == size);
            }
            assert(ICON_SIZES@[0] == 256 && ICON_SIZES@[1] == 64 && ICON_SIZES@[2] == 48
                && ICON_SIZES@[3] == 40 && ICON_SIZES@[4] == 32 && ICON_SIZES@[5] == 24
                && ICON_SIZES@[6] == 20 && ICON_SIZES@[7] == 16);
        }
    }
}

proof fn lemma_ladder(side: u32, n: int)
    requires
        0 <= n <= 8,
    ensures
        forall|k: int|
            0 <= k < n && #[trigger] ICON_SIZES@[k] <= side ==> ladder_to(side, n).contains(
                ICON_SIZES@[k],
            ),
        forall|i: int|
            0 <= i < ladder_to(side, n).len() ==> (#[trigger] ladder_to(side, n)[i]) <= side
                && exists|k: int| 0 <= k < n && #[trigger] ICON_SIZES@[k] == ladder_to(side, n)[i],
        forall|i: int, j: int|
            0 <= i < j < ladder_to(side, n).len() ==> #[trigger] ladder_to(side, n)[i]
                > #[trigger] ladder_to(side, n)[j],
        n > 0 ==> forall|i: int|
            0 <= i < ladder_to(side, n).len() ==> (#[trigger] ladder_to(side, n)[i])
                >= ICON_SIZES@[n - 1],
    decreases n,
{
    if n > 0 {
        lemma_ladder(side, n - 1);
        let before = ladder_to(side, n - 1);
        let now = ladder_to(side, n);
        assert(ICON_SIZES@[0] == 256 && ICON_SIZES@[1] == 64 && ICON_SIZES@[2] == 48
            && ICON_SIZES@[3] == 40 && ICON_SIZES@[4] == 32 && ICON_SIZES@[5] == 24
            && ICON_SIZES@[6] == 20 && ICON_SIZES@[7] == 16);
        assert forall|k: int| 0 <= k < n && #[trigger] ICON_SIZES@[k] <= side implies now.contains(
            ICON_SIZES@[k],
        ) by {
            if k < n - 1 {
                let i = choose|i: int| 0 <= i < before.len() && before[i] == ICON_SIZES@[k];
                assert(now[i] == ICON_SIZES@[k]);
            } else {
                assert(now[now.len() - 1] == ICON_SIZES@[k]);
            }
        }
        assert forall|i: int| 0 <= i < now.len() implies (#[trigger] now[i]) <= side && exists|
            k: int,
        |
            0 <= k < n && #[trigger] ICON_SIZES@[k] == now[i] by {
            if i < before.len() {
                assert(now[i] == before[i]);
                let k = choose|k: int| 0 <= k < n - 1 && #[trigger] ICON_SIZES@[k] == before[i];
                assert(ICON_SIZES@[k] == now[i]);
            } else {
                assert(ICON_SIZES@[n - 1] == now[i]);
            }
        }
        assert forall|i: int, j: int| 0 <= i < j < now.len() implies #[trigger] now[i]
            > #[trigger] now[j] by {
            assert(now[i] == before[i]);
            if j < before.len() {
                assert(now[j] == before[j]);
            }
        }
        assert forall|i: int| 0 <= i < now.len() implies (#[trigger] now[i]) >= ICON_SIZES@[n
            - 1] by {
            if i < before.len() {
                assert(now[i] == before[i]);
            }
        }
    }
}

/// The larger pictures of an icon are PNG, and those of 64 pixels and less are bitmaps, in the
/// order they are given.
pub proof fn law_small_icons_are_bitmaps(frames: Seq<Raster>, n: int, i: int)
    requires
        0 <= i < n <= frames.len(),
    ensures
        entries_for(frames, n) matches Ok(entries) ==> {
            &&& entries.len() == n
            &&& entries[i].size == frames[i].width
            &&& frames[i].width <= 64 ==> entries[i].data == bmp_entry_of(frames[i]@)
            &&& frames[i].width > 64 ==> Ok::<Seq<u8>, Seq<char>>(entries[i].data)
                == codecs::png_of(
                frames[i].width as nat,
                frames[i].height as nat,
                frames[i].pixels@,
            )
        },
    decreases n,
{
    if i < n - 1 {
        law_small_icons_are_bitmaps(frames, n - 1, i);
    } else if n > 1 {
        law_small_icons_are_bitmaps(frames, n - 1, 0);
    }
}

/// The top of the quality dial asks a WebP for no loss at all, everything below for that much
/// quality, and never for none. A JPEG is asked for the quality on the dial.
pub proof fn law_the_quality_dial_means_what_it_says(quality: u8)
    ensures
        webp_asked(quality).0 == (quality >= 100),
        1 <= quality < 100 ==> webp_asked(quality).1 == quality,
        1 <= webp_asked(quality).1 <= 100,
        1 <= quality <= 100 ==> jpeg_quality(quality) == quality,
        1 <= jpeg_quality(quality) <= 100,
{
}

/// What formats are called: on disk, in a menu, and when the user types one, in either case and
/// with or without a dot.
pub proof fn law_formats_have_their_names(name: Seq<char>)
    ensures
        Format::Png.written_as() == "png"@ && Format::Jpeg.written_as() == "jpg"@,
        Format::WebP.written_as() == "webp"@ && Format::Bmp.written_as() == "bmp"@,
        Format::Ico.written_as() == "ico"@,
        ({
            let bare = if name.len() > 0 && name[0] == '.' {
                name.skip(1)
            } else {
                name
            };
            let small = bare.map_values(|c: char| text::lower(c));
            &&& Format::named(name) == Some(Format::Png) <==> small == "png"@
            &&& Format::named(name) == Some(Format::Jpeg) <==> small == "jpg"@ || small == "jpeg"@
            &&& Format::named(name) == Some(Format::WebP) <==> small == "webp"@
            &&& Format::named(name) == Some(Format::Bmp) <==> small == "bmp"@
            &&& Format::named(name) == Some(Format::Ico) <==> small == "ico"@
        }),
{
    reveal_strlit("png");
    reveal_strlit("jpg");
    reveal_strlit("jpeg");
    reveal_strlit("webp");
    reveal_strlit("bmp");
    reveal_strlit("ico");
    assert("png"@[0] == 'p' && "jpg"@[0] == 'j' && "bmp"@[0] == 'b' && "ico"@[0] == 'i');
    assert("jpeg"@[0] == 'j' && "webp"@[0] == 'w');
}

/// At full scale the very pixels are written. At another they are the resized ones, of the size
/// foretold.
pub proof fn law_an_export_writes_the_scaled_picture(
    pixels: Raster,
    settings: Settings,
    out: Result<Vec<u8>, String>,
)
    requires
        is_export(pixels, settings, out),
    ensures
        settings.scale_percent == 100 || settings.format is Ico ==> written(
            pixels,
            settings.format,
            settings.quality,
            out,
        ),
        exists|scaled: Raster|
            {
                &&& #[trigger] written(scaled, settings.format, settings.quality, out)
                &&& (scaled.width, scaled.height) == settings.scaled((pixels.width, pixels.height))
                &&& scaled == pixels || imageops::lanczos_resizes(pixels@, scaled@)
            },
{
}

/// A bitmap in an icon holds its pixels bottom row first, each as blue, green, red and alpha.
pub proof fn law_bitmap_rows_run_upwards(p: Picture, x: int, y: int)
    requires
        p.wf(),
        p.holds(x, y),
    ensures
        ({
            let entry = bmp_entry_of(p);
            let at = 40 + 4 * ((p.height - 1 - y) * p.width + x);
            &&& entry[at] == p.at(x, y).b
            &&& entry[at + 1] == p.at(x, y).g
            &&& entry[at + 2] == p.at(x, y).r
            &&& entry[at + 3] == p.at(x, y).a
        }),
{
    let row = p.height - 1 - y;
    lemma_colour_row(p, p.height as int, row);
    lemma_rows_len(p, p.height as int);
    lemma_header_len(p.width, p.height);
    let rows = colour_rows(p, p.height as int);
    assert(0 <= 4 * (row * p.width) && 4 * (row * p.width) + 4 * p.width <= 4 * p.width * p.height)
        by (nonlinear_arith)
        requires
            0 <= row < p.height,
            0 <= p.width,
    ;
    assert(4 * (row * p.width + x) == 4 * (row * p.width) + 4 * x);
    let line = bgra_row(p.rows[y]);
    assert(rows.subrange(4 * (row * p.width), 4 * (row * p.width) + 4 * p.width) == line);
    assert forall|part: int| 0 <= part < 4 implies #[trigger] rows[4 * (row * p.width) + (4 * x
        + part)] == bgra(p.at(x, y), part) by {
        assert((4 * x + part) / 4 == x && (4 * x + part) % 4 == part);
        assert(rows.subrange(4 * (row * p.width), 4 * (row * p.width) + 4 * p.width)[4 * x + part]
            == rows[4 * (row * p.width) + (4 * x + part)]);
    }
    assert(rows[4 * (row * p.width) + (4 * x + 0)] == p.at(x, y).b);
    assert(rows[4 * (row * p.width) + (4 * x + 1)] == p.at(x, y).g);
    assert(rows[4 * (row * p.width) + (4 * x + 2)] == p.at(x, y).r);
    assert(rows[4 * (row * p.width) + (4 * x + 3)] == p.at(x, y).a);
}

/// Behind the colours stands one bit for each pixel, bottom row first and leftmost highest, in
/// rows of whole fours of bytes. It is set where the pixel cannot be seen at all.
pub proof fn law_the_mask_marks_what_cannot_be_seen(p: Picture, x: int, y: int)
    requires
        p.wf(),
        p.holds(x, y),
    ensures
        ({
            let stride = (p.width + 31) / 32 * 4;
            let at = 40 + 4 * p.width * p.height + stride * (p.height - 1 - y) + x / 8;
            let bit = if x % 8 == 0 {
                128int
            } else if x % 8 == 1 {
                64
            } else if x % 8 == 2 {
                32
            } else if x % 8 == 3 {
                16
            } else if x % 8 == 4 {
                8
            } else if x % 8 == 5 {
                4
            } else if x % 8 == 6 {
                2
            } else {
                1
            };
            (bmp_entry_of(p)[at] as int / bit) % 2 == (if p.at(x, y).a == 0 { 1int } else { 0 })
        }),
{
    let row = p.height - 1 - y;
    let stride = mask_stride(p.width) as int;
    lemma_mask_row(p, p.height as int, row);
    lemma_rows_len(p, p.height as int);
    lemma_header_len(p.width, p.height);
    let masks = mask_rows(p, p.height as int);
    assert(0 <= stride * row && stride * row + stride <= stride * p.height) by (nonlinear_arith)
        requires
            0 <= row < p.height,
            0 <= stride,
    ;
    let line = mask_row(p.rows[y]);
    assert(masks.subrange(stride * row, stride * row + stride)[x / 8] == masks[stride * row + x
        / 8]);
    lemma_mask_bits(p.rows[y], x / 8, x % 8);
    assert(8 * (x / 8) + x % 8 == x);
}

/// The header of a bitmap in an icon: its own length, the width, twice the height because of
/// the mask, one plane, 32 bits to a pixel, and no compression.
pub proof fn law_a_bitmap_says_its_size(p: Picture)
    requires
        p.wf(),
        p.width < 0x1_0000_0000,
        2 * p.height < 0x1_0000_0000,
    ensures
        ({
            let entry = bmp_entry_of(p);
            let long = |i: int|
                entry[i] + 0x100 * entry[i + 1] + 0x1_0000 * entry[i + 2] + 0x100_0000 * entry[i
                    + 3];
            &&& long(0) == 40
            &&& long(4) == p.width
            &&& long(8) == 2 * p.height
            &&& entry[12] == 1 && entry[13] == 0
            &&& entry[14] == 32 && entry[15] == 0
            &&& long(16) == 0
        }),
{
    lemma_header_len(p.width, p.height);
}

proof fn lemma_header_len(width: nat, height: nat)
    ensures
        bmp_header(width, height).len() == 40,
{
}

/// Each row of colours stands where the rows below it end.
proof fn lemma_colour_row(p: Picture, n: int, row: int)
    requires
        p.wf(),
        0 <= row < n <= p.height,
    ensures
        colour_rows(p, n).len() == 4 * (n * p.width),
        colour_rows(p, n).subrange(4 * (row * p.width), 4 * (row * p.width) + 4 * p.width)
            == bgra_row(p.rows[p.height - 1 - row]),
    decreases n,
{
    let before = colour_rows(p, n - 1);
    let line = bgra_row(p.rows[p.height - n]);
    assert(n * p.width == (n - 1) * p.width + p.width) by (nonlinear_arith);
    lemma_rows_len(p, n - 1);
    assert(4 * p.width * (n - 1) == 4 * ((n - 1) * p.width)) by (nonlinear_arith);
    if row < n - 1 {
        lemma_colour_row(p, n - 1, row);
        assert(row * p.width + p.width <= (n - 1) * p.width && 0 <= row * p.width)
            by (nonlinear_arith)
            requires
                0 <= row < n - 1,
                0 <= p.width,
        ;
        assert((before + line).subrange(4 * (row * p.width), 4 * (row * p.width) + 4 * p.width)
            =~= before.subrange(4 * (row * p.width), 4 * (row * p.width) + 4 * p.width));
    } else {
        assert((before + line).subrange(4 * (row * p.width), 4 * (row * p.width) + 4 * p.width)
            =~= line);
    }
}

proof fn lemma_mask_row(p: Picture, n: int, row: int)
    requires
        p.wf(),
        0 <= row < n <= p.height,
    ensures
        ({
            let stride = mask_stride(p.width) as int;
            &&& mask_rows(p, n).len() == stride * n
            &&& mask_rows(p, n).subrange(stride * row, stride * row + stride) == mask_row(
                p.rows[p.height - 1 - row],
            )
        }),
    decreases n,
{
    let stride = mask_stride(p.width) as int;
    let before = mask_rows(p, n - 1);
    let line = mask_row(p.rows[p.height - n]);
    assert(stride * n == stride * (n - 1) + stride) by (nonlinear_arith);
    if n > 1 {
        lemma_mask_row(p, n - 1, if row < n - 1 { row } else { 0 });
    } else {
        assert(stride * (n - 1) == 0) by (nonlinear_arith)
            requires
                n == 1,
        ;
    }
    if row < n - 1 {
        assert(stride * row + stride <= stride * (n - 1) && 0 <= stride * row) by (nonlinear_arith)
            requires
                0 <= row < n - 1,
                0 <= stride,
        ;
        assert((before + line).subrange(stride * row, stride * row + stride) =~= before.subrange(
            stride * row,
            stride * row + stride,
        ));
    } else {
        assert((before + line).subrange(stride * row, stride * row + stride) =~= line);
    }
}

/// The digits of a number below 256 in twos.
proof fn lemma_eight_bits(c: Seq<int>)
    requires
        c.len() == 8,
        forall|i: int| 0 <= i < 8 ==> 0 <= #[trigger] c[i] <= 1,
    ensures
        ({
            let n = 128 * c[0] + 64 * c[1] + 32 * c[2] + 16 * c[3] + 8 * c[4] + 4 * c[5] + 2 * c[6]
                + c[7];
            &&& 0 <= n < 256
            &&& n / 128 % 2 == c[0]
            &&& n / 64 % 2 == c[1]
            &&& n / 32 % 2 == c[2]
            &&& n / 16 % 2 == c[3]
            &&& n / 8 % 2 == c[4]
            &&& n / 4 % 2 == c[5]
            &&& n / 2 % 2 == c[6]
            &&& n / 1 % 2 == c[7]
        }),
{
    let low = 2 * c[6] + c[7];
    let mid = 8 * c[4] + 4 * c[5] + low;
    let high = 32 * c[2] + 16 * c[3] + mid;
    assert(0 <= low < 4 && 0 <= mid < 16 && 0 <= high < 64);
}

/// The bits of one byte of a mask, from the highest down.
proof fn lemma_mask_bits(row: Seq<Rgba>, k: int, bit: int)
    requires
        0 <= k,
        0 <= bit < 8,
        8 * k + bit < row.len(),
    ensures
        k < mask_row(row).len(),
        (mask_row(row)[k] as int / bit_value(bit)) % 2 == (if row[8 * k + bit].a == 0 {
            1int
        } else {
            0
        }),
{
    let c = Seq::new(
        8,
        |i: int|
            if 8 * k + i < row.len() && row[8 * k + i].a == 0 {
                1int
            } else {
                0
            },
    );
    lemma_eight_bits(c);
    lemma_mask_sum(row, k, c);
    if row.len() >= 8 * k + 8 {
        lemma_mask_after(row, k, 8 * k + 8, row.len() as int);
    } else {
        lemma_mask_after(row, k, row.len() as int, 8 * k + 8);
    }
    assert(c[bit] == (if row[8 * k + bit].a == 0 { 1int } else { 0 }));
}

proof fn lemma_mask_sum(row: Seq<Rgba>, k: int, c: Seq<int>)
    requires
        0 <= k,
        c.len() == 8,
        forall|i: int|
            0 <= i < 8 ==> #[trigger] c[i] == (if 8 * k + i < row.len() && row[8 * k + i].a == 0 {
                1int
            } else {
                0
            }),
    ensures
        mask_byte(row, k, 8 * k + 8) == 128 * c[0] + 64 * c[1] + 32 * c[2] + 16 * c[3] + 8 * c[4]
            + 4 * c[5] + 2 * c[6] + c[7],
{
    let at = 8 * k;
    lemma_mask_before(row, k, at);
    assert(mask_byte(row, k, at + 1) == 128 * c[0]);
    assert(mask_byte(row, k, at + 2) == 128 * c[0] + 64 * c[1]);
    assert(mask_byte(row, k, at + 3) == 128 * c[0] + 64 * c[1] + 32 * c[2]);
    assert(mask_byte(row, k, at + 4) == 128 * c[0] + 64 * c[1] + 32 * c[2] + 16 * c[3]);
    assert(mask_byte(row, k, at + 5) == 128 * c[0] + 64 * c[1] + 32 * c[2] + 16 * c[3] + 8 * c[4]);
    let upper = 128 * c[0] + 64 * c[1] + 32 * c[2] + 16 * c[3] + 8 * c[4];
    assert(mask_byte(row, k, at + 6) == upper + 4 * c[5]);
    assert(mask_byte(row, k, at + 7) == upper + 4 * c[5] + 2 * c[6]);
}

/// Nothing of a byte is set by the pixels in front of it.
proof fn lemma_mask_before(row: Seq<Rgba>, k: int, x: int)
    requires
        x <= 8 * k,
    ensures
        mask_byte(row, k, x) == 0,
    decreases x,
{
    if x > 0 {
        lemma_mask_before(row, k, x - 1);
    }
}

/// Nor by those behind it or beyond the row.
proof fn lemma_mask_after(row: Seq<Rgba>, k: int, from: int, x: int)
    requires
        0 <= from <= x,
        from >= 8 * k + 8 || from >= row.len(),
    ensures
        mask_byte(row, k, x) == mask_byte(row, k, from),
    decreases x,
{
    if from < x {
        lemma_mask_after(row, k, from, x - 1);
    }
}

/// A file is written in the format that was asked for: a PNG gives the pixels back, a JPEG holds
/// the picture laid over white and takes sides up to 65535, a WebP takes sides up to 16383 and is
/// never empty.
pub proof fn law_a_file_is_of_its_format(
    scaled: Raster,
    quality: u8,
    file: Vec<u8>,
    out: Result<Vec<u8>, String>,
)
    ensures
        written(scaled, Format::Png, quality, Ok(file)) ==> codecs::is_png(file@) && codecs::png_of(
            scaled.width as nat,
            scaled.height as nat,
            scaled.pixels@,
        ) == Ok::<Seq<u8>, Seq<char>>(file@) && scaled.width >= 1 && scaled.height >= 1,
        written(scaled, Format::Png, quality, Ok(file)) && codecs::opens_again(
            scaled.width,
            scaled.height,
            4,
        ) ==> codecs::decodes_to(file@, scaled),
        written(scaled, Format::Bmp, quality, Ok(file)) ==> codecs::bmp_of(
            scaled.width as nat,
            scaled.height as nat,
            scaled.pixels@,
        ) == Ok::<Seq<u8>, Seq<char>>(file@),
        written(scaled, Format::Jpeg, quality, Ok(file)) ==> codecs::jpeg_of(
            scaled.width as nat,
            scaled.height as nat,
            flattened(scaled.pixels@),
            if quality == 0 {
                1
            } else if quality > 100 {
                100
            } else {
                quality
            },
        ) == Ok::<Seq<u8>, Seq<char>>(file@),
        written(scaled, Format::Jpeg, quality, out) ==> (out is Ok <==> 1 <= scaled.width <= 65535
            && 1 <= scaled.height <= 65535),
        written(scaled, Format::WebP, quality, Ok(file)) ==> 1 <= scaled.width <= 16383 && 1
            <= scaled.height <= 16383 && decoders::is_webp(file@) && file@.len() > 0,
        written(scaled, Format::WebP, quality, Ok(file)) && quality >= 100 && codecs::opens_again(
            scaled.width,
            scaled.height,
            3,
        ) && !scaled@.sees_through() ==> codecs::decodes_to(file@, scaled),
        written(scaled, Format::WebP, quality, out) && (scaled.width > 16383 || scaled.height
            > 16383) ==> out is Err && out->Err_0@ == "VP8_ENC_ERROR_BAD_DIMENSION"@,
{
}

/// What the encoder of WebP answers is handed on, but for a file of no bytes, which is none.
pub proof fn law_an_empty_file_is_a_failure(bytes: Seq<u8>, reason: Seq<char>)
    ensures
        bytes.len() > 0 ==> webp_answered(Ok(bytes)) == Ok::<Seq<u8>, Seq<char>>(bytes),
        bytes.len() == 0 ==> webp_answered(Ok(bytes)) == Err::<Seq<u8>, Seq<char>>(
            "libwebp produced no data"@,
        ),
        webp_answered(Err(reason)) == Err::<Seq<u8>, Seq<char>>(reason),
{
}

/// An icon holds its picture, made square, at each rung of the ladder, and untouched at its own
/// size.
pub proof fn law_an_icon_holds_its_picture_at_each_rung(p: Picture, frames: Seq<Raster>, i: int)
    requires
        icon_frames(p, frames),
        0 <= i < frames.len(),
    ensures
        frames.len() == rungs(squared(p).width as u32).len(),
        frames[i].wf(),
        frames[i].width == rungs(squared(p).width as u32)[i],
        frames[i].width == frames[i].height,
        frames[i].width == squared(p).width ==> frames[i]@ == squared(p),
        imageops::lanczos_resizes(squared(p), frames[i]@),
{
}

} // verus!
