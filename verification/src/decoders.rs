//! Reading image files, as the `image` and `jxl-oxide` crates do it.
//!
//! What a decoder makes of a file takes a book to state. It depends on the bytes alone,
//! so it is given a name here. The contracts are taken from those crates and not proved.

use vstd::prelude::*;
use crate::raster;

verus! {

/// What the first bytes of a file say it is, as far as that decides anything.
#[derive(Debug, Clone, Copy, PartialEq, Eq, Structural)]
pub enum Guess {
    Gif,
    WebP,
    Avif,
    /// One of the other formats with a signature.
    Other,
}

/// Whether a file starts with these bytes.
pub open spec fn starts(file: Seq<u8>, signature: Seq<u8>) -> bool {
    signature.len() <= file.len() && file.take(signature.len() as int) == signature
}

/// Whether a file has these bytes at a place.
pub open spec fn has_at(file: Seq<u8>, at: int, bytes: Seq<u8>) -> bool {
    at + bytes.len() <= file.len() && file.subrange(at, at + bytes.len()) == bytes
}

/// Whether a file starts as a GIF does: `GIF89a` or `GIF87a`.
pub open spec fn is_gif(file: Seq<u8>) -> bool {
    starts(file, seq![71u8, 73, 70, 56, 57, 97]) || starts(file, seq![71u8, 73, 70, 56, 55, 97])
}

/// Whether a file starts as a WebP does: `RIFF`, four bytes of length, `WEBP`.
pub open spec fn is_webp(file: Seq<u8>) -> bool {
    starts(file, seq![82u8, 73, 70, 70]) && has_at(file, 8, seq![87u8, 69, 66, 80])
}

/// Whether a file starts as an AVIF does: a box length under 65536, then `ftypavif`.
pub open spec fn is_avif(file: Seq<u8>) -> bool {
    starts(file, seq![0u8, 0]) && has_at(
        file,
        4,
        seq![102u8, 116, 121, 112, 97, 118, 105, 102],
    )
}

/// Whether a file starts with the signature of one of the other formats: PNG, JPEG, TIFF
/// of either byte order, DDS, BMP, ICO, Radiance, OpenEXR, QOI, the seven netpbm ones and
/// farbfeld.
pub open spec fn is_other(file: Seq<u8>) -> bool {
    ||| starts(file, seq![0x89u8, 80, 78, 71, 13, 10, 26, 10])
    ||| starts(file, seq![0xffu8, 0xd8, 0xff])
    ||| starts(file, seq![77u8, 77, 0, 42])
    ||| starts(file, seq![73u8, 73, 42, 0])
    ||| starts(file, seq![68u8, 68, 83, 32])
    ||| starts(file, seq![66u8, 77])
    ||| starts(file, seq![0u8, 0, 1, 0])
    ||| starts(file, seq![35u8, 63, 82, 65, 68, 73, 65, 78, 67, 69])
    ||| starts(file, seq![0x76u8, 0x2f, 0x31, 0x01])
    ||| starts(file, seq![113u8, 111, 105, 102])
    ||| (file.len() >= 2 && file[0] == 80 && 49 <= file[1] <= 55)
    ||| starts(file, seq![102u8, 97, 114, 98, 102, 101, 108, 100])
}

/// What a file is taken for. The icon signature comes before the AVIF one, which it can
/// overlap.
pub open spec fn guessed(file: Seq<u8>) -> Option<Guess> {
    if is_gif(file) {
        Some(Guess::Gif)
    } else if is_webp(file) {
        Some(Guess::WebP)
    } else if is_other(file) {
        Some(Guess::Other)
    } else if is_avif(file) {
        Some(Guess::Avif)
    } else {
        None
    }
}

/// `image::guess_format`: the format whose signature the file starts with, by a fixed
/// table. Formats that are handled alike are not told apart.
#[verifier::external_body]
pub(crate) fn guess(file: &[u8]) -> (guess: Option<Guess>)
    ensures
        guess == guessed(file@),
{
    match image::guess_format(file) {
        Ok(image::ImageFormat::Gif) => Some(Guess::Gif),
        Ok(image::ImageFormat::WebP) => Some(Guess::WebP),
        Ok(image::ImageFormat::Avif) => Some(Guess::Avif),
        Ok(_) => Some(Guess::Other),
        Err(_) => None,
    }
}

/// The number that two bytes hold, least significant first.
pub open spec fn le16_at(file: Seq<u8>, at: int) -> int {
    file[at] + 256 * file[at + 1]
}

/// The number that three bytes hold.
pub open spec fn le24_at(file: Seq<u8>, at: int) -> int {
    le16_at(file, at) + 65536 * file[at + 2]
}

/// The number that four bytes hold.
pub open spec fn le32_at(file: Seq<u8>, at: int) -> int {
    le24_at(file, at) + 0x100_0000 * file[at + 3]
}

/// Whether a frame of a WebP animation could start here whose picture comes with its alpha
/// apart: `ANMF`, and `ALPH` behind the 20 bytes that say how long and how large it is and
/// how it is shown.
pub open spec fn is_alpha_frame(file: Seq<u8>, at: int) -> bool {
    has_at(file, at, seq![65u8, 78, 77, 70]) && has_at(file, at + 24, seq![65u8, 76, 80, 72])
}

/// Where the picture of such a frame starts: behind the alpha, which takes an even number of
/// bytes, and the name and length of its own chunk.
pub open spec fn picture_behind(file: Seq<u8>, at: int) -> int {
    let alpha = le32_at(file, at + 28);
    at + 40 + alpha + (if alpha % 2 == 1 && alpha < u32::MAX {
        1int
    } else {
        0
    })
}

/// Whether the picture of such a frame says that it has the size of the frame, if it stands on
/// its own and goes as far as to say.
pub open spec fn alpha_fits(file: Seq<u8>, at: int) -> bool {
    let picture = picture_behind(file, at);
    picture + 10 <= file.len() && file[picture] % 2 == 0 ==> {
        &&& le16_at(file, picture + 6) % 0x4000 == le24_at(file, at + 14) + 1
        &&& le16_at(file, picture + 8) % 0x4000 == le24_at(file, at + 17) + 1
    }
}

/// Whether wherever such a frame could start, its picture has its size.
pub open spec fn alpha_frames_fit(file: Seq<u8>) -> bool {
    forall|at: int| 0 <= at && #[trigger] is_alpha_frame(file, at) ==> alpha_fits(file, at)
}

fn le16_of(file: &[u8], at: usize) -> (number: u32)
    requires
        at + 2 <= file.len(),
    ensures
        number == le16_at(file@, at as int),
{
    file[at] as u32 + 256 * file[at + 1] as u32
}

fn le24_of(file: &[u8], at: usize) -> (number: u32)
    requires
        at + 3 <= file.len(),
    ensures
        number == le24_at(file@, at as int),
{
    le16_of(file, at) + 65536 * file[at + 2] as u32
}

fn is_marked(file: &[u8], at: usize, mark: [u8; 4]) -> (marked: bool)
    ensures
        marked == has_at(file@, at as int, mark@),
{
    if file.len() < 4 || at > file.len() - 4 {
        return false;
    }
    let same = file[at] == mark[0] && file[at + 1] == mark[1] && file[at + 2] == mark[2] && file[at
        + 3] == mark[3];
    proof {
        let there = file@.subrange(at as int, at + 4);
        if same {
            assert(there =~= mark@);
        } else {
            assert(there[0] == file@[at as int] && there[1] == file@[at + 1] && there[2]
                == file@[at + 2] && there[3] == file@[at + 3]);
        }
    }
    same
}

fn fits_its_alpha(file: &[u8], at: usize) -> (fits: bool)
    requires
        is_alpha_frame(file@, at as int),
    ensures
        fits == alpha_fits(file@, at as int),
{
    let length: usize = file.len();
    if length - at < 32 {
        return true;
    }
    let alpha: u64 = le24_of(file, at + 28) as u64 + 0x100_0000 * file[at + 31] as u64;
    let even: u64 = if alpha % 2 == 1 && alpha < u32::MAX as u64 {
        alpha + 1
    } else {
        alpha
    };
    let left: u64 = (length - at) as u64;
    if left < 50 + even {
        return true;
    }
    let picture: usize = at + 40 + even as usize;
    if file[picture] % 2 == 1 {
        return true;
    }
    le16_of(file, picture + 6) % 0x4000 == le24_of(file, at + 14) + 1 && le16_of(file, picture + 8)
        % 0x4000 == le24_of(file, at + 17) + 1
}

/// Whether wherever a frame with its alpha apart could start, its picture has its size.
pub fn frames_agree(file: &[u8]) -> (agree: bool)
    ensures
        agree == alpha_frames_fit(file@),
{
    let frame: [u8; 4] = [65, 78, 77, 70];
    let alpha: [u8; 4] = [65, 76, 80, 72];
    assert(frame@ =~= seq![65u8, 78, 77, 70]);
    assert(alpha@ =~= seq![65u8, 76, 80, 72]);
    let mut at: usize = 0;
    while at < file.len()
        invariant
            at <= file@.len(),
            frame@ == seq![65u8, 78, 77, 70],
            alpha@ == seq![65u8, 76, 80, 72],
            forall|before: int|
                0 <= before < at && #[trigger] is_alpha_frame(file@, before) ==> alpha_fits(
                    file@,
                    before,
                ),
        decreases file@.len() - at,
    {
        if is_marked(file, at, frame) && file.len() - at >= 28 && is_marked(file, at + 24, alpha) {
            if !fits_its_alpha(file, at) {
                assert(is_alpha_frame(file@, at as int));
                return false;
            }
        }
        at += 1;
    }
    true
}

/// Pixels as a decoder hands them over: interleaved RGBA8.
#[derive(Debug)]
pub struct Raw {
    pub width: u32,
    pub height: u32,
    pub pixels: Vec<u8>,
}

/// What a decoder hands over, as mathematics.
pub struct Bitmap {
    pub width: u32,
    pub height: u32,
    pub pixels: Seq<u8>,
}

impl View for Raw {
    type V = Bitmap;

    open spec fn view(&self) -> Bitmap {
        Bitmap { width: self.width, height: self.height, pixels: self.pixels@ }
    }
}

/// A decoder's answer, as mathematics.
pub open spec fn answer(result: Result<Raw, String>) -> Result<Bitmap, Seq<char>> {
    match result {
        Ok(raw) => Ok(raw@),
        Err(reason) => Err(reason@),
    }
}

/// The first picture in a file that has a signature, or why there is none.
pub uninterp spec fn still_of(file: Seq<u8>) -> Result<Bitmap, Seq<char>>;

/// Whether the first picture of a file can be asked for. Of a WebP that is marked as an
/// animation the first frame is decoded, and nothing holds the picture of a frame with its
/// alpha apart to the size of that frame.
pub open spec fn can_still(file: Seq<u8>) -> bool {
    is_webp(file) && (webp_header_of(file) matches Ok(header) && header.animated)
        ==> alpha_frames_fit(file)
}

/// `image::ImageReader::decode` with the guessed format, and `into_rgba8` of what it
/// gives. On an animated WebP in which the picture of a frame has not the size of its frame
/// and of its alpha it panics, and that is left out.
#[verifier::external_body]
pub(crate) fn decode_still(file: &[u8]) -> (result: Result<Raw, String>)
    requires
        can_still(file@),
    ensures
        answer(result) == still_of(file@),
{
    let reader = image::ImageReader::new(std::io::Cursor::new(file));
    let reader = reader.with_guessed_format().map_err(|err| err.to_string())?;
    let pixels = reader.decode().map_err(|err| err.to_string())?.into_rgba8();
    Ok(Raw { width: pixels.width(), height: pixels.height(), pixels: pixels.into_raw() })
}

/// The picture in a JPEG, if it decodes.
pub uninterp spec fn jpeg_picture(file: Seq<u8>) -> Option<Bitmap>;

/// `image::load_from_memory_with_format` as JPEG, and `into_rgba8` of what it gives.
#[verifier::external_body]
pub(crate) fn decode_jpeg(file: &[u8]) -> (picture: Option<Raw>)
    ensures
        picture is Some == (jpeg_picture(file@) is Some),
        picture matches Some(picture) ==> jpeg_picture(file@) == Some(picture@),
{
    let image = image::load_from_memory_with_format(file, image::ImageFormat::Jpeg).ok()?;
    let pixels = image.into_rgba8();
    Some(Raw { width: pixels.width(), height: pixels.height(), pixels: pixels.into_raw() })
}

/// The size that the header of a file gives, read as the format that an extension names.
pub uninterp spec fn header_size(file: Seq<u8>, extension: Seq<char>) -> Option<(u32, u32)>;

/// `image::ImageFormat::from_extension` and `image::ImageReader::into_dimensions`: the
/// size in the header, where the extension is known and the header can be read.
#[verifier::external_body]
pub(crate) fn read_size(file: &[u8], extension: &str) -> (size: Option<(u32, u32)>)
    ensures
        size == header_size(file@, extension@),
{
    let format = image::ImageFormat::from_extension(extension)?;
    let reader = image::ImageReader::with_format(std::io::Cursor::new(file), format);
    reader.into_dimensions().ok()
}

/// What the `image` crate says when it fails.
#[verifier::external_type_specification]
#[verifier::external_body]
pub struct ExImageError(image::ImageError);

/// One frame of an animation, as that crate holds it.
#[verifier::external_type_specification]
#[verifier::external_body]
pub struct ExFrame(image::Frame);

/// The frames of an animation, one at a time.
#[verifier::external_type_specification]
#[verifier::external_body]
pub struct ExFrames<'a>(image::Frames<'a>);

/// One frame: the whole canvas as it stands, and for how many milliseconds, as a fraction.
#[derive(Debug)]
pub struct RawFrame {
    pub canvas: Raw,
    pub numer: u32,
    pub denom: u32,
}

/// One frame, as mathematics.
pub struct Cel {
    pub canvas: Bitmap,
    pub numer: u32,
    pub denom: u32,
}

impl View for RawFrame {
    type V = Cel;

    open spec fn view(&self) -> Cel {
        Cel { canvas: self.canvas@, numer: self.numer, denom: self.denom }
    }
}

/// The frames still to come, up to the end of the file or to the first that does not
/// decode, which stands at the end as nothing.
pub uninterp spec fn frames_left(frames: image::Frames<'_>) -> Seq<Option<Cel>>;

/// Whether the next frame can be asked for. Of a WebP without the mark of an animation, with
/// a canvas too large to count, or with a picture that has not the size of its frame, it
/// cannot.
pub uninterp spec fn can_advance(frames: image::Frames<'_>) -> bool;

/// The frames of a GIF, or why the file is none.
pub uninterp spec fn gif_frames(file: Seq<u8>) -> Result<Seq<Option<Cel>>, Seq<char>>;

/// What the header of a WebP says: whether it is marked as an animation, and its canvas.
#[derive(Debug, Clone, Copy, PartialEq, Eq, Structural)]
pub struct WebPHeader {
    pub animated: bool,
    pub width: u32,
    pub height: u32,
}

impl WebPHeader {
    /// Whether the frames can be taken one by one: there is the mark of an animation, and the
    /// bytes of the canvas can be counted in 32 bits and held.
    pub open spec fn is_playable(self) -> bool {
        &&& self.animated
        &&& self.width * self.height * 4 <= u32::MAX
        &&& raster::addressable(self.width as int, self.height as int)
    }

    pub fn playable(self) -> (playable: bool)
        ensures
            playable == self.is_playable(),
    {
        proof {
            raster::lemma_area(self.width as int, self.height as int);
        }
        let bytes: u128 = self.width as u128 * self.height as u128 * 4;
        self.animated && bytes <= u32::MAX as u128 && bytes <= isize::MAX as u128
    }
}

/// What the header of a WebP says, or why the file is none.
pub uninterp spec fn webp_header_of(file: Seq<u8>) -> Result<WebPHeader, Seq<char>>;

/// The frames of an animated WebP.
pub uninterp spec fn webp_frames(file: Seq<u8>) -> Seq<Option<Cel>>;

/// What opening an animation gave, as mathematics.
pub open spec fn reel(result: Result<image::Frames<'_>, String>) -> Result<
    Seq<Option<Cel>>,
    Seq<char>,
> {
    match result {
        Ok(frames) => Ok(frames_left(frames)),
        Err(reason) => Err(reason@),
    }
}

/// `image::codecs::gif::GifDecoder::new` and `into_frames`: the frames, or the error in
/// words.
#[verifier::external_body]
pub(crate) fn open_gif<'a>(file: &'a [u8]) -> (frames: Result<image::Frames<'a>, String>)
    ensures
        reel(frames) == gif_frames(file@),
        frames matches Ok(frames) ==> can_advance(frames),
{
    let decoder = image::codecs::gif::GifDecoder::new(std::io::Cursor::new(file));
    Ok(image::AnimationDecoder::into_frames(decoder.map_err(|err| err.to_string())?))
}

/// `image::codecs::webp::WebPDecoder::new`, and `has_animation` and `dimensions` of what it
/// gives: what the header says, or the error in words.
#[verifier::external_body]
pub(crate) fn read_webp_header(file: &[u8]) -> (header: Result<WebPHeader, String>)
    ensures
        match header {
            Ok(header) => webp_header_of(file@) == Ok::<WebPHeader, Seq<char>>(header),
            Err(reason) => webp_header_of(file@) == Err::<WebPHeader, Seq<char>>(reason@),
        },
{
    let decoder = image::codecs::webp::WebPDecoder::new(std::io::Cursor::new(file));
    let decoder = decoder.map_err(|err| err.to_string())?;
    let (width, height) = image::ImageDecoder::dimensions(&decoder);
    Ok(WebPHeader { animated: decoder.has_animation(), width, height })
}

/// `image::codecs::webp::WebPDecoder::new` and `into_frames`, of a file whose header could be
/// read and says that there are frames to take, and whose pictures have the sizes of their
/// frames.
#[verifier::external_body]
pub(crate) fn open_webp<'a>(file: &'a [u8]) -> (frames: image::Frames<'a>)
    requires
        webp_header_of(file@) matches Ok(header) && header.is_playable(),
        alpha_frames_fit(file@),
    ensures
        frames_left(frames) == webp_frames(file@),
        can_advance(frames),
{
    let decoder = image::codecs::webp::WebPDecoder::new(std::io::Cursor::new(file));
    image::AnimationDecoder::into_frames(decoder.expect("the header can be read"))
}

/// `next` on `image::Frames`: takes the next frame off, if there is one. A frame that
/// does not decode is an error, and the last of the frames that are known here. Asked of a
/// WebP that is not marked as an animation, or in which the picture of a frame has not its
/// size, it panics, and that is left out.
#[verifier::external_body]
pub(crate) fn next_frame(frames: &mut image::Frames<'_>) -> (next: Option<Result<RawFrame, String>>)
    requires
        can_advance(*old(frames)),
    ensures
        can_advance(*final(frames)),
        match next {
            None => frames_left(*old(frames)).len() == 0,
            Some(Ok(frame)) => {
                &&& frames_left(*old(frames)).len() > 0
                &&& frames_left(*old(frames))[0] == Some(frame@)
                &&& frames_left(*final(frames)) == frames_left(*old(frames)).skip(1)
            },
            Some(Err(_)) => {
                &&& frames_left(*old(frames)).len() == 1
                &&& frames_left(*old(frames))[0] is None
            },
        },
{
    let frame = match frames.next()? {
        Ok(frame) => frame,
        Err(err) => return Some(Err(err.to_string())),
    };
    let (numer, denom) = frame.delay().numer_denom_ms();
    let pixels = frame.into_buffer();
    let (width, height) = pixels.dimensions();
    let canvas = Raw { width, height, pixels: pixels.into_raw() };
    Some(Ok(RawFrame { canvas, numer, denom }))
}

/// A JPEG XL file, read but not drawn.
#[verifier::external_type_specification]
#[verifier::external_body]
pub struct ExJxlImage(jxl_oxide::JxlImage);

/// One frame of a JPEG XL file, drawn.
#[verifier::external_type_specification]
#[verifier::external_body]
pub struct ExRender(jxl_oxide::Render);

/// The file that an image was read from.
pub uninterp spec fn jxl_file(image: jxl_oxide::JxlImage) -> Seq<u8>;

/// The file that a drawn frame comes from.
pub uninterp spec fn jxl_drawn_file(render: jxl_oxide::Render) -> Seq<u8>;

/// Why a file cannot be read as JPEG XL, if it cannot.
pub uninterp spec fn jxl_unreadable(file: Seq<u8>) -> Option<Seq<char>>;

/// Why the first frame of a JPEG XL file cannot be drawn, if it cannot.
pub uninterp spec fn jxl_undrawable(file: Seq<u8>) -> Option<Seq<char>>;

/// Width, height and number of channels of the first frame of a JPEG XL file, upright.
pub uninterp spec fn jxl_shape_of(file: Seq<u8>) -> (u32, u32, u32);

/// `jxl_oxide::JxlImage::builder` and `read`: the image, which holds on to what the file
/// says, or the error in words.
#[verifier::external_body]
pub(crate) fn open_jxl(file: &[u8]) -> (image: Result<jxl_oxide::JxlImage, String>)
    ensures
        match image {
            Ok(image) => jxl_file(image) == file@ && jxl_unreadable(file@) is None,
            Err(reason) => jxl_unreadable(file@) == Some(reason@),
        },
{
    jxl_oxide::JxlImage::builder().read(file).map_err(|err| err.to_string())
}

/// `jxl_oxide::JxlImage::render_frame` of the first frame: the frame of the image's file,
/// or the error in words.
#[verifier::external_body]
pub(crate) fn render_jxl(image: &jxl_oxide::JxlImage) -> (render: Result<jxl_oxide::Render, String>)
    ensures
        match render {
            Ok(render) => jxl_drawn_file(render) == jxl_file(*image) && jxl_undrawable(
                jxl_file(*image),
            ) is None,
            Err(reason) => jxl_undrawable(jxl_file(*image)) == Some(reason@),
        },
{
    image.render_frame(0).map_err(|err| err.to_string())
}

/// `width`, `height` and `channels` of `jxl_oxide::Render::stream`: they follow from the
/// header of the file.
#[verifier::external_body]
pub(crate) fn jxl_shape(render: &jxl_oxide::Render) -> (shape: (u32, u32, u32))
    ensures
        shape == jxl_shape_of(jxl_drawn_file(*render)),
{
    let stream = render.stream();
    (stream.width(), stream.height(), stream.channels())
}

/// Whether the samples of the first frame of a JPEG XL file can be these. They are worked
/// out in floating point, by whatever instructions the machine has, so more than one
/// answer can be right.
pub uninterp spec fn jxl_samples_of(file: Seq<u8>, samples: Seq<u8>) -> bool;

/// `write_to_buffer` on `jxl_oxide::Render::stream`: fills a buffer with interleaved
/// samples and leaves its length alone. Which of the answers that the machines give they
/// are is left unsaid.
#[verifier::external_body]
pub(crate) fn jxl_samples(render: &jxl_oxide::Render, buffer: &mut Vec<u8>)
    ensures
        final(buffer)@.len() == old(buffer)@.len(),
        jxl_samples_of(jxl_drawn_file(*render), final(buffer)@),
{
    render.stream().write_to_buffer(buffer);
}

} // verus!
