//! Opening images: what a file is, what its pixels are, and what stands in for them until
//! they are there.

use std::sync::Arc;
use vstd::prelude::*;
use crate::avif;
use crate::decoders;
use crate::decoders::Bitmap;
use crate::decoders::Cel;
use crate::decoders::Guess;
use crate::decoders::Raw;
use crate::edit::Applied;
use crate::fit;
use crate::metadata;
use crate::metadata::Orientation;
use crate::path;
use crate::psd;
use crate::raster;
use crate::raster::Picture;
use crate::raster::Raster;
use crate::tags;
use crate::tags::Table;
use crate::tags::Tag;
use crate::text;
use crate::text::chars_of;
use crate::text::same_ignoring_case;

verus! {

/// File extensions that can be opened, in lower case and without the dot.
pub const SUPPORTED_EXTENSIONS: [&'static str; 15] = [
    "png",
    "jpg",
    "jpeg",
    "gif",
    "bmp",
    "webp",
    "tif",
    "tiff",
    "ico",
    "ff",
    "svg",
    "svgz",
    "psd",
    "jxl",
    "avif",
];

/// Whether a path has one of the extensions that can be opened, in whatever case.
pub open spec fn openable(path: Seq<char>) -> bool {
    match path::extension_of(path) {
        Some(ext) => exists|i: int|
            0 <= i < 15 && text::lowered(ext) == text::lowered(
                (#[trigger] SUPPORTED_EXTENSIONS@[i])@,
            ),
        None => false,
    }
}

/// Whether `path` looks like something that can be opened, by its extension alone.
pub fn is_supported(path: &str) -> (supported: bool)
    ensures
        supported == openable(path@),
{
    let ext = match path::extension(path) {
        Some(ext) => chars_of(ext.as_str()),
        None => return false,
    };
    let mut i: usize = 0;
    while i < 15
        invariant
            i <= 15,
            path::extension_of(path@) == Some(ext@),
            forall|k: int|
                0 <= k < i ==> text::lowered(ext@) != text::lowered(
                    (#[trigger] SUPPORTED_EXTENSIONS@[k])@,
                ),
        decreases 15 - i,
    {
        if same_ignoring_case(ext.as_slice(), SUPPORTED_EXTENSIONS[i]) {
            assert(text::lowered(ext@) == text::lowered(SUPPORTED_EXTENSIONS@[i as int]@));
            return true;
        }
        i += 1;
    }
    false
}

/// Which part of opening an image failed.
#[derive(Debug, Clone, Copy, PartialEq, Eq, Structural)]
pub enum Fault {
    Io,
    Image,
    Svg,
    Jxl,
    Avif,
}

/// Why an image could not be opened.
#[derive(Debug)]
pub enum DecodeError {
    Io { path: String, reason: String },
    Image { path: String, reason: String },
    Svg { path: String, reason: String },
    Jxl { path: String, reason: String },
    Avif { path: String, reason: String },
}

impl DecodeError {
    pub open spec fn fault(&self) -> Fault {
        match self {
            DecodeError::Io { .. } => Fault::Io,
            DecodeError::Image { .. } => Fault::Image,
            DecodeError::Svg { .. } => Fault::Svg,
            DecodeError::Jxl { .. } => Fault::Jxl,
            DecodeError::Avif { .. } => Fault::Avif,
        }
    }

    pub open spec fn about(&self) -> Seq<char> {
        match self {
            DecodeError::Io { path, .. } => path@,
            DecodeError::Image { path, .. } => path@,
            DecodeError::Svg { path, .. } => path@,
            DecodeError::Jxl { path, .. } => path@,
            DecodeError::Avif { path, .. } => path@,
        }
    }

    pub open spec fn why(&self) -> Seq<char> {
        match self {
            DecodeError::Io { reason, .. } => reason@,
            DecodeError::Image { reason, .. } => reason@,
            DecodeError::Svg { reason, .. } => reason@,
            DecodeError::Jxl { reason, .. } => reason@,
            DecodeError::Avif { reason, .. } => reason@,
        }
    }

    pub fn new(fault: Fault, path: &str, reason: &str) -> (error: Self)
        ensures
            error.fault() == fault,
            error.about() == path@,
            error.why() == reason@,
    {
        let path = path.to_owned();
        let reason = reason.to_owned();
        match fault {
            Fault::Io => DecodeError::Io { path, reason },
            Fault::Image => DecodeError::Image { path, reason },
            Fault::Svg => DecodeError::Svg { path, reason },
            Fault::Jxl => DecodeError::Jxl { path, reason },
            Fault::Avif => DecodeError::Avif { path, reason },
        }
    }

    /// What the user is told.
    pub fn message(&self) -> (message: String)
        ensures
            message@ == (if self.fault() is Io {
                "could not read "@
            } else if self.fault() is Svg {
                "could not render "@
            } else {
                "could not decode "@
            }) + self.about() + ": "@ + self.why(),
    {
        let (mut message, path, reason) = match self {
            DecodeError::Io { path, reason } => ("could not read ".to_owned(), path, reason),
            DecodeError::Image { path, reason } => ("could not decode ".to_owned(), path, reason),
            DecodeError::Svg { path, reason } => ("could not render ".to_owned(), path, reason),
            DecodeError::Jxl { path, reason } => ("could not decode ".to_owned(), path, reason),
            DecodeError::Avif { path, reason } => ("could not decode ".to_owned(), path, reason),
        };
        message.append(path.as_str());
        message.append(": ");
        message.append(reason.as_str());
        message
    }
}

/// Which of the two decode stages produced an image.
#[derive(Debug, Clone, Copy, PartialEq, Eq, Structural)]
pub enum Stage {
    /// A low-resolution stand-in, shown while the full decode runs.
    Preview,
    /// The real thing, at native resolution.
    Full,
}

/// One frame of an animation, as mathematics: the canvas, and for how long it is shown.
pub struct Shot {
    pub picture: Picture,
    pub delay: u64,
}

/// The frames of an animated image, each the whole canvas.
#[derive(Debug)]
pub struct Animation {
    /// At least one frame.
    pub frames: Vec<Arc<Raster>>,
    /// How long each frame is shown, in milliseconds.
    pub delays: Vec<u64>,
}

/// `Arc::clone`: another handle to the same value.
#[verifier::external_body]
pub(crate) fn share<T>(value: &Arc<T>) -> (shared: Arc<T>)
    ensures
        shared == *value,
{
    Arc::clone(value)
}

/// The bytes that the first `n` frames occupy.
pub open spec fn bytes_of(frames: Seq<Arc<Raster>>, n: int) -> int
    decreases n,
{
    if n <= 0 {
        0
    } else {
        bytes_of(frames, n - 1) + frames[n - 1].pixels@.len()
    }
}

impl Animation {
    pub open spec fn wf(&self) -> bool {
        &&& self.frames@.len() >= 1
        &&& self.delays@.len() == self.frames@.len()
        &&& forall|i: int| 0 <= i < self.frames@.len() ==> (#[trigger] self.frames@[i]).wf()
    }

    pub open spec fn shots(&self) -> Seq<Shot> {
        Seq::new(
            self.frames@.len(),
            |i: int| Shot { picture: self.frames@[i]@, delay: self.delays@[i] },
        )
    }

    pub fn len(&self) -> (count: usize)
        ensures
            count == self.frames@.len(),
    {
        self.frames.len()
    }

    pub fn is_empty(&self) -> (empty: bool)
        ensures
            empty == (self.frames@.len() == 0),
    {
        self.frames.len() == 0
    }

    /// Memory that the whole set of frames occupies.
    pub fn byte_size(&self) -> (bytes: usize)
        requires
            bytes_of(self.frames@, self.frames@.len() as int) <= usize::MAX,
        ensures
            bytes == bytes_of(self.frames@, self.frames@.len() as int),
    {
        let mut bytes: usize = 0;
        let mut i: usize = 0;
        while i < self.frames.len()
            invariant
                i <= self.frames@.len(),
                bytes == bytes_of(self.frames@, i as int),
                bytes_of(self.frames@, self.frames@.len() as int) <= usize::MAX,
            decreases self.frames@.len() - i,
        {
            proof {
                lemma_bytes_grow(self.frames@, i + 1, self.frames@.len() as int);
            }
            bytes = bytes + self.frames[i].pixels.len();
            i += 1;
        }
        bytes
    }
}

proof fn lemma_bytes_grow(frames: Seq<Arc<Raster>>, n: int, m: int)
    requires
        n <= m,
    ensures
        bytes_of(frames, n) <= bytes_of(frames, m),
    decreases m - n,
{
    if n < m {
        lemma_bytes_grow(frames, n, m - 1);
    }
}

/// A decoded image, upright and in RGBA8. `A` is what a renderer keeps of vector artwork.
///
/// Cheap to clone: the pixels are shared, not copied.
#[derive(Debug)]
pub struct Decoded<A> {
    pub pixels: Arc<Raster>,
    pub stage: Stage,
    pub orientation: Orientation,
    /// Native size of the source image, upright. Known even for a preview, so that the
    /// layout does not jump when the full decode arrives.
    pub full_size: (u32, u32),
    /// The frames, when the file is animated. `pixels` is always the first one.
    pub animation: Option<Arc<Animation>>,
    /// Whether any pixel is less than fully opaque.
    pub has_transparency: bool,
    /// The artwork that `pixels` is one drawing of, when the file is vector artwork.
    pub svg: Option<Arc<A>>,
}

/// A decoded image as mathematics, without its artwork.
pub struct Image {
    pub picture: Picture,
    pub stage: Stage,
    pub orientation: Orientation,
    pub full_size: (u32, u32),
    pub shots: Option<Seq<Shot>>,
    pub sees_through: bool,
}

impl<A> View for Decoded<A> {
    type V = Image;

    open spec fn view(&self) -> Image {
        Image {
            picture: self.pixels@,
            stage: self.stage,
            orientation: self.orientation,
            full_size: self.full_size,
            shots: match self.animation {
                Some(animation) => Some(animation.shots()),
                None => None,
            },
            sees_through: self.has_transparency,
        }
    }
}

impl<A> Clone for Decoded<A> {
    fn clone(&self) -> (copy: Self)
        ensures
            copy == *self,
    {
        Decoded {
            pixels: share(&self.pixels),
            stage: self.stage,
            orientation: self.orientation,
            full_size: self.full_size,
            animation: match &self.animation {
                Some(animation) => Some(share(animation)),
                None => None,
            },
            has_transparency: self.has_transparency,
            svg: match &self.svg {
                Some(svg) => Some(share(svg)),
                None => None,
            },
        }
    }
}

impl<A> Decoded<A> {
    /// The pixels are whole, the frames are too, and the first frame is the pixels.
    pub open spec fn wf(&self) -> bool {
        &&& self.pixels.wf()
        &&& self.animation matches Some(animation) ==> {
            &&& animation.wf()
            &&& animation.frames@[0] == self.pixels
        }
    }

    /// The bytes of pixels that this holds: every frame of an animation.
    pub open spec fn weight(&self) -> int {
        match self.animation {
            Some(animation) => bytes_of(animation.frames@, animation.frames@.len() as int),
            None => self.pixels.pixels@.len() as int,
        }
    }

    /// Size of the pixels held, which is smaller than `full_size` for a preview.
    pub fn size(&self) -> (size: (u32, u32))
        ensures
            size == (self.pixels.width, self.pixels.height),
    {
        self.pixels.dimensions()
    }

    /// Raw RGBA8 bytes, row-major, straight alpha.
    pub fn rgba_bytes(&self) -> (bytes: &[u8])
        ensures
            bytes@ == self.pixels.pixels@,
    {
        self.pixels.pixels.as_slice()
    }

    /// How much memory the pixels occupy, all frames of an animation together.
    pub fn byte_size(&self) -> (bytes: usize)
        requires
            self.weight() <= usize::MAX,
        ensures
            bytes == self.weight(),
    {
        match &self.animation {
            Some(animation) => animation.byte_size(),
            None => self.pixels.pixels.len(),
        }
    }

    /// Pixels ready for a texture, downscaled if they exceed its largest side.
    pub fn for_upload<'a>(&'a self, max_side: u32) -> (out: Applied<'a>)
        requires
            self.pixels.wf(),
            fit::fittable((self.pixels.width, self.pixels.height), max_side),
        ensures
            out.wf(),
            out is Borrowed == (fit::longest((self.pixels.width, self.pixels.height)) <= max_side),
            out.picture() == fit::fitted(*self.pixels, max_side),
            (out.picture().width, out.picture().height) == fit::size_within(
                (self.pixels.width, self.pixels.height),
                max_side,
            ),
    {
        for_upload(&self.pixels, max_side)
    }
}

/// Pixels ready for a texture, downscaled if they exceed its largest side and borrowed
/// if they do not.
pub fn for_upload<'a>(pixels: &'a Raster, max_side: u32) -> (out: Applied<'a>)
    requires
        pixels.wf(),
        fit::fittable((pixels.width, pixels.height), max_side),
    ensures
        out.wf(),
        out is Borrowed == (fit::longest((pixels.width, pixels.height)) <= max_side),
        out matches Applied::Borrowed(same) ==> same == pixels,
        out.picture() == fit::fitted(*pixels, max_side),
        (out.picture().width, out.picture().height) == fit::size_within(
            (pixels.width, pixels.height),
            max_side,
        ),
{
    fit::fit_within(pixels, max_side)
}

/// A still image made of a stored picture.
pub open spec fn still(p: Picture, size: (u32, u32), orientation: Orientation) -> Image {
    Image {
        picture: orientation.of(p),
        stage: Stage::Full,
        orientation,
        full_size: orientation.upright(size),
        shots: None,
        sees_through: orientation.of(p).sees_through(),
    }
}

/// Turns stored pixels upright and wraps them as a full, still image.
pub fn finish<A>(pixels: Raster, orientation: Orientation) -> (decoded: Decoded<A>)
    requires
        pixels.wf(),
    ensures
        decoded.wf(),
        decoded@ == still(pixels@, (pixels.width, pixels.height), orientation),
        decoded.svg is None,
{
    let upright = orientation.apply(pixels);
    let full_size = upright.dimensions();
    let has_transparency = upright.has_transparency();
    Decoded {
        pixels: Arc::new(upright),
        stage: Stage::Full,
        orientation,
        full_size,
        animation: None,
        has_transparency,
        svg: None,
    }
}

/// Wraps drawn vector artwork as a full, still image that keeps the artwork.
pub fn finish_vector<A>(drawn: Raster, svg: A, orientation: Orientation) -> (decoded: Decoded<A>)
    requires
        drawn.wf(),
    ensures
        decoded.wf(),
        decoded@ == still(drawn@, (drawn.width, drawn.height), orientation),
        decoded.svg == Some(Arc::new(svg)),
{
    let mut decoded = finish(drawn, orientation);
    decoded.svg = Some(Arc::new(svg));
    decoded
}

/// Above this many bytes of frames an animation is shown as a still.
pub const MAX_ANIMATION_BYTES: u64 = 536_870_912;

/// For how many milliseconds a frame is shown: what it says, except that ten or less is
/// the habit of broken encoders and means a hundred.
pub open spec fn delay_ms(numer: u32, denom: u32) -> u64 {
    let ms = numer / (if denom < 1 {
        1
    } else {
        denom
    });
    if ms <= 10 {
        100
    } else {
        ms as u64
    }
}

pub fn effective_delay(numer: u32, denom: u32) -> (delay: u64)
    ensures
        delay == delay_ms(numer, denom),
{
    let ms: u32 = numer / (if denom < 1 {
        1
    } else {
        denom
    });
    if ms <= 10 {
        100
    } else {
        ms as u64
    }
}

/// Whether what a decoder hands over is a whole picture that can be held.
pub open spec fn usable(map: Bitmap) -> bool {
    map.width * map.height * 4 <= map.pixels.len() && raster::addressable(
        map.width as int,
        map.height as int,
    )
}

/// The picture that a decoder hands over.
pub open spec fn pictured(map: Bitmap) -> Picture {
    raster::picture_of(
        map.width as nat,
        map.height as nat,
        map.pixels.take(map.width * map.height * 4),
    )
}

fn held(raw: Raw) -> (pixels: Option<Raster>)
    ensures
        pixels is Some == usable(raw@),
        pixels matches Some(pixels) ==> {
            &&& pixels.wf()
            &&& pixels@ == pictured(raw@)
            &&& pixels.width == raw.width
            &&& pixels.height == raw.height
        },
{
    Raster::from_raw(raw.width, raw.height, raw.pixels)
}

/// The frames of an animation that come before one that fails or that takes the bytes
/// past the cap, which itself is kept, and whether those are all of them.
pub open spec fn gathered(left: Seq<Option<Cel>>, held: int) -> (Seq<Shot>, bool)
    decreases left.len(),
{
    if left.len() == 0 {
        (Seq::empty(), true)
    } else {
        match left[0] {
            None => (Seq::empty(), false),
            Some(cel) => if !usable(cel.canvas) {
                (Seq::empty(), false)
            } else {
                let shot = Shot {
                    picture: pictured(cel.canvas),
                    delay: delay_ms(cel.numer, cel.denom),
                };
                let bytes = held + cel.canvas.width * cel.canvas.height * 4;
                if bytes > MAX_ANIMATION_BYTES {
                    (seq![shot], false)
                } else {
                    let rest = gathered(left.skip(1), bytes);
                    (seq![shot] + rest.0, rest.1)
                }
            },
        }
    }
}

/// What collecting the frames of a file produced.
#[derive(Debug)]
pub struct Collected {
    pub frames: Vec<Raster>,
    pub delays: Vec<u64>,
    /// False when collecting stopped early. A partial set of frames must not animate.
    pub complete: bool,
}

impl Collected {
    pub open spec fn wf(&self) -> bool {
        &&& self.delays@.len() == self.frames@.len()
        &&& forall|i: int| 0 <= i < self.frames@.len() ==> (#[trigger] self.frames@[i]).wf()
    }

    pub open spec fn shots(&self) -> Seq<Shot> {
        Seq::new(
            self.frames@.len(),
            |i: int| Shot { picture: self.frames@[i]@, delay: self.delays@[i] },
        )
    }
}

fn collect(frames: image::Frames<'_>) -> (out: Collected)
    requires
        decoders::can_advance(frames),
    ensures
        out.wf(),
        (out.shots(), out.complete) == gathered(decoders::frames_left(frames), 0),
{
    let ghost all = decoders::frames_left(frames);
    let mut frames = frames;
    let mut out = Collected { frames: Vec::new(), delays: Vec::new(), complete: true };
    let mut bytes: u64 = 0;
    assert(out.shots() + gathered(all, 0).0 =~= gathered(all, 0).0);
    loop
        invariant_except_break
            decoders::can_advance(frames),
            out.wf(),
            out.complete,
            bytes <= MAX_ANIMATION_BYTES,
            gathered(all, 0) == (
                out.shots() + gathered(decoders::frames_left(frames), bytes as int).0,
                gathered(decoders::frames_left(frames), bytes as int).1,
            ),
        ensures
            out.wf(),
            (out.shots(), out.complete) == gathered(all, 0),
        decreases decoders::frames_left(frames).len(),
    {
        let ghost left = decoders::frames_left(frames);
        let frame = match decoders::next_frame(&mut frames) {
            None => {
                assert(out.shots() + Seq::<Shot>::empty() =~= out.shots());
                break;
            },
            Some(Err(_)) => {
                assert(out.shots() + Seq::<Shot>::empty() =~= out.shots());
                out.complete = false;
                break;
            },
            Some(Ok(frame)) => frame,
        };
        let delay: u64 = effective_delay(frame.numer, frame.denom);
        let ghost cel = frame@;
        let ghost before = out.shots();
        let pixels = match held(frame.canvas) {
            Some(pixels) => pixels,
            None => {
                assert(out.shots() + Seq::<Shot>::empty() =~= out.shots());
                out.complete = false;
                break;
            },
        };
        let more: u128 = pixels.width as u128 * pixels.height as u128 * 4;
        proof {
            raster::lemma_area(pixels.width as int, pixels.height as int);
        }
        let ghost shot = Shot { picture: pixels@, delay };
        out.frames.push(pixels);
        out.delays.push(delay);
        assert(out.shots() =~= before.push(shot));
        if bytes as u128 + more > MAX_ANIMATION_BYTES as u128 {
            assert(before + seq![shot] =~= out.shots());
            out.complete = false;
            break;
        }
        bytes = bytes + more as u64;
        proof {
            let rest = gathered(left.skip(1), bytes as int);
            assert(before + (seq![shot] + rest.0) =~= out.shots() + rest.0);
        }
    }
    out
}

/// What an animation comes to: an image with all its frames if there are several and none
/// is missing, a still of the first one otherwise, and nothing without a first one.
pub open spec fn played(
    shots: Seq<Shot>,
    complete: bool,
    size: (u32, u32),
    orientation: Orientation,
) -> Image {
    Image {
        shots: if shots.len() > 1 && complete {
            Some(
                Seq::new(
                    shots.len(),
                    |i: int|
                        Shot { picture: orientation.of(shots[i].picture), delay: shots[i].delay },
                ),
            )
        } else {
            None
        },
        ..still(shots[0].picture, size, orientation)
    }
}

/// Puts collected frames together, each turned upright.
pub fn assemble<A>(collected: Collected, orientation: Orientation) -> (decoded: Result<
    Decoded<A>,
    DecodeError,
>)
    requires
        collected.wf(),
    ensures
        decoded is Ok == (collected.frames@.len() > 0),
        decoded matches Ok(decoded) ==> {
            &&& decoded.wf()
            &&& decoded@ == played(
                collected.shots(),
                collected.complete,
                (collected.frames@[0].width, collected.frames@[0].height),
                orientation,
            )
            &&& decoded.svg is None
        },
        decoded matches Err(error) ==> {
            &&& error.fault() is Image
            &&& error.about() == ""@
            &&& error.why() == "no decodable frames"@
        },
{
    let ghost shots = collected.shots();
    let ghost sources = collected.frames@;
    let count: usize = collected.frames.len();
    if count == 0 {
        return Err(DecodeError::new(Fault::Image, "", "no decodable frames"));
    }
    let complete = collected.complete;
    let delays = collected.delays;
    let mut sources_left = collected.frames;
    if count == 1 || !complete {
        let first = sources_left.swap_remove(0);
        return Ok(finish(first, orientation));
    }
    let mut frames: Vec<Arc<Raster>> = Vec::new();
    let mut i: usize = 0;
    while i < count
        invariant
            i <= count,
            sources_left@ == sources,
            count == sources.len(),
            forall|k: int| 0 <= k < sources.len() ==> (#[trigger] sources[k]).wf(),
            frames@.len() == i,
            forall|k: int|
                0 <= k < i ==> {
                    &&& (#[trigger] frames@[k]).wf()
                    &&& frames@[k]@ == orientation.of(sources[k]@)
                    &&& (frames@[k].width, frames@[k].height) == orientation.upright(
                        (sources[k].width, sources[k].height),
                    )
                },
        decreases count - i,
    {
        let upright = orientation.apply(sources_left[i].clone());
        frames.push(Arc::new(upright));
        i += 1;
    }
    let pixels = share(&frames[0]);
    let full_size = pixels.dimensions();
    let has_transparency = pixels.has_transparency();
    let animation = Animation { frames, delays };
    proof {
        assert(animation.shots() =~= Seq::new(
            shots.len(),
            |i: int| Shot { picture: orientation.of(shots[i].picture), delay: shots[i].delay },
        ));
    }
    Ok(
        Decoded {
            pixels,
            stage: Stage::Full,
            orientation,
            full_size,
            animation: Some(Arc::new(animation)),
            has_transparency,
            svg: None,
        },
    )
}

/// Which way a file is opened.
#[derive(Debug, Clone, Copy, PartialEq, Eq, Structural)]
pub enum Route {
    Gif,
    WebP,
    Avif,
    Still,
    Psd,
    Jxl,
    /// Vector artwork, the one format without a signature.
    Vector,
    /// Too short to tell.
    TooShort,
}

/// Whether a file starts as a PSD does: `8BPS`.
pub open spec fn is_psd(file: Seq<u8>) -> bool {
    decoders::starts(file, seq![56u8, 66, 80, 83])
}

/// Whether a file starts as a JPEG XL codestream or its container does.
pub open spec fn is_jxl(file: Seq<u8>) -> bool {
    decoders::starts(file, seq![0xffu8, 0x0a]) || decoders::starts(
        file,
        seq![0u8, 0, 0, 0x0c, 74, 88, 76, 32, 0x0d, 0x0a, 0x87, 0x0a],
    )
}

/// The way a file is opened, by its content. An animation is only worth its frames to
/// those who want them.
pub open spec fn route_of(file: Seq<u8>, want_animation: bool) -> Route {
    match decoders::guessed(file) {
        Some(Guess::Gif) => if want_animation {
            Route::Gif
        } else {
            Route::Still
        },
        Some(Guess::WebP) => if want_animation {
            Route::WebP
        } else {
            Route::Still
        },
        Some(Guess::Avif) => Route::Avif,
        Some(Guess::Other) => Route::Still,
        None => if file.len() < 12 {
            Route::TooShort
        } else if is_psd(file) {
            Route::Psd
        } else if is_jxl(file) {
            Route::Jxl
        } else {
            Route::Vector
        },
    }
}

/// Whether `file` starts with `signature`.
pub(crate) fn starts_with(file: &[u8], signature: &[u8]) -> (yes: bool)
    ensures
        yes == decoders::starts(file@, signature@),
{
    if file.len() < signature.len() {
        return false;
    }
    let mut i: usize = 0;
    while i < signature.len()
        invariant
            i <= signature@.len() <= file@.len(),
            forall|k: int| 0 <= k < i ==> file@[k] == signature@[k],
        decreases signature@.len() - i,
    {
        if file[i] != signature[i] {
            assert(file@.take(signature@.len() as int)[i as int] != signature@[i as int]);
            return false;
        }
        i += 1;
    }
    assert(file@.take(signature@.len() as int) =~= signature@);
    true
}

/// Decides how a file is opened, by its content and not by its name.
pub fn route(file: &[u8], want_animation: bool) -> (route: Route)
    ensures
        route == route_of(file@, want_animation),
{
    match decoders::guess(file) {
        Some(Guess::Gif) => if want_animation {
            Route::Gif
        } else {
            Route::Still
        },
        Some(Guess::WebP) => if want_animation {
            Route::WebP
        } else {
            Route::Still
        },
        Some(Guess::Avif) => Route::Avif,
        Some(Guess::Other) => Route::Still,
        None => {
            let codestream: [u8; 2] = [0xff, 0x0a];
            let container: [u8; 12] = [0, 0, 0, 0x0c, 74, 88, 76, 32, 0x0d, 0x0a, 0x87, 0x0a];
            let photoshop: [u8; 4] = [56, 66, 80, 83];
            assert(codestream@ =~= seq![0xffu8, 0x0a]);
            assert(container@ =~= seq![
                0u8,
                0,
                0,
                0x0c,
                74,
                88,
                76,
                32,
                0x0d,
                0x0a,
                0x87,
                0x0a,
            ]);
            assert(photoshop@ =~= seq![56u8, 66, 80, 83]);
            if file.len() < 12 {
                Route::TooShort
            } else if starts_with(file, photoshop.as_slice()) {
                Route::Psd
            } else if starts_with(file, codestream.as_slice()) || starts_with(
                file,
                container.as_slice(),
            ) {
                Route::Jxl
            } else {
                Route::Vector
            }
        },
    }
}

/// A PSD or JPEG XL signature is looked for before a file is taken for vector artwork.
pub proof fn law_signatures_come_before_vector_artwork(file: Seq<u8>, want_animation: bool)
    requires
        is_psd(file) || is_jxl(file),
    ensures
        route_of(file, want_animation) !is Vector,
{
}

/// Without its frames a file is opened the same way, but for the two animated formats,
/// which are then opened as stills.
pub proof fn law_only_animations_differ_without_frames(file: Seq<u8>)
    ensures
        route_of(file, true) != route_of(file, false) ==> {
            &&& route_of(file, false) is Still
            &&& route_of(file, true) is Gif || route_of(file, true) is WebP
        },
{
}

/// A byte of the RGBA pixel that `channels` interleaved samples stand for: one is grey,
/// two are grey and alpha, three are a colour, four are a colour and alpha.
pub open spec fn expanded_byte(samples: Seq<u8>, channels: int, n: int) -> u8 {
    let at = (n / 4) * channels;
    let part = n % 4;
    if channels == 1 {
        if part == 3 {
            255
        } else {
            samples[at]
        }
    } else if channels == 2 {
        if part == 3 {
            samples[at + 1]
        } else {
            samples[at]
        }
    } else if channels == 3 && part == 3 {
        255
    } else {
        samples[at + part]
    }
}

/// Interleaved samples of one to four channels as RGBA.
pub open spec fn expanded(samples: Seq<u8>, channels: int, count: int) -> Seq<u8> {
    Seq::new((count * 4) as nat, |n: int| expanded_byte(samples, channels, n))
}

/// Spreads interleaved samples out to RGBA.
fn expand(samples: &Vec<u8>, channels: usize, count: usize) -> (pixels: Vec<u8>)
    requires
        1 <= channels <= 4,
        samples@.len() == count * channels,
        count * 4 <= usize::MAX,
    ensures
        pixels@ == expanded(samples@, channels as int, count as int),
{
    let mut pixels: Vec<u8> = Vec::new();
    let mut i: usize = 0;
    while i < count
        invariant
            i <= count,
            1 <= channels <= 4,
            samples@.len() == count * channels,
            count * 4 <= usize::MAX,
            pixels@ == expanded(samples@, channels as int, i as int),
        decreases count - i,
    {
        assert(i * channels + channels <= count * channels && i * channels >= 0)
            by (nonlinear_arith)
            requires
                0 <= i < count,
                channels >= 1,
        ;
        let at: usize = i * channels;
        let first: u8 = samples[at];
        let (red, green, blue, alpha): (u8, u8, u8, u8) = if channels == 1 {
            (first, first, first, 255)
        } else if channels == 2 {
            (first, first, first, samples[at + 1])
        } else if channels == 3 {
            (first, samples[at + 1], samples[at + 2], 255)
        } else {
            (first, samples[at + 1], samples[at + 2], samples[at + 3])
        };
        pixels.push(red);
        pixels.push(green);
        pixels.push(blue);
        pixels.push(alpha);
        proof {
            let whole = expanded(samples@, channels as int, i + 1);
            assert(pixels@ =~= whole) by {
                assert forall|n: int| 0 <= n < whole.len() implies pixels@[n] == whole[n] by {
                    if n >= i * 4 {
                        assert(n / 4 == i);
                    }
                }
            }
        }
        i += 1;
    }
    pixels
}

/// Whether samples of this shape are a picture that can be held.
pub open spec fn shaped(width: u32, height: u32, channels: u32, samples: Seq<u8>) -> bool {
    &&& 1 <= channels <= 4
    &&& samples.len() == width * height * channels
    &&& raster::addressable(width as int, height as int)
}

/// Makes an image of the samples of a JPEG XL frame. They come upright, so the image does
/// not turn again.
pub fn finish_jxl<A>(width: u32, height: u32, channels: u32, samples: &Vec<u8>) -> (decoded: Result<
    Decoded<A>,
    DecodeError,
>)
    ensures
        decoded is Ok == shaped(width, height, channels, samples@),
        decoded matches Ok(decoded) ==> {
            &&& decoded.wf()
            &&& decoded@ == still(
                raster::picture_of(
                    width as nat,
                    height as nat,
                    expanded(samples@, channels as int, width * height),
                ),
                (width, height),
                Orientation::Normal,
            )
            &&& decoded.svg is None
        },
        decoded matches Err(error) ==> {
            &&& error.fault() is Io
            &&& error.about() == ""@
            &&& error.why() == "jxl buffer does not match its dimensions"@
        },
{
    let fits = match bytes_for(width, height, channels) {
        Some(total) => samples.len() == total,
        None => false,
    };
    if !fits {
        return Err(DecodeError::new(Fault::Io, "", "jxl buffer does not match its dimensions"));
    }
    proof {
        raster::lemma_area(width as int, height as int);
    }
    let count: u128 = width as u128 * height as u128;
    let pixels = expand(samples, channels as usize, count as usize);
    Ok(finish(Raster { width, height, pixels }, Orientation::Normal))
}

/// Why the first frame of a JPEG XL file is not an image, if it is not: its decoder cannot
/// read or draw it, or it has not one to four channels, or more pixels than can be held.
pub open spec fn jxl_reason(path: Seq<char>, file: Seq<u8>) -> Option<
    (Fault, Seq<char>, Seq<char>),
> {
    let (width, height, channels) = decoders::jxl_shape_of(file);
    match (decoders::jxl_unreadable(file), decoders::jxl_undrawable(file)) {
        (Some(reason), _) => Some((Fault::Jxl, path, reason)),
        (None, Some(reason)) => Some((Fault::Jxl, path, reason)),
        (None, None) => if 1 <= channels <= 4 && raster::addressable(
            width as int,
            height as int,
        ) {
            None
        } else {
            Some((Fault::Io, ""@, "jxl buffer does not match its dimensions"@))
        },
    }
}

/// Whether an image is the first frame of a JPEG XL file: its samples spread out to RGBA,
/// still, and not turned.
pub open spec fn jxl_still(file: Seq<u8>, image: Image) -> bool {
    let (width, height, channels) = decoders::jxl_shape_of(file);
    exists|samples: Seq<u8>|
        {
            &&& #[trigger] decoders::jxl_samples_of(file, samples)
            &&& samples.len() == width * height * channels
            &&& image == still(
                raster::picture_of(
                    width as nat,
                    height as nat,
                    expanded(samples, channels as int, width * height),
                ),
                (width, height),
                Orientation::Normal,
            )
        }
}

/// Opens a JPEG XL file: its first frame, at native resolution.
fn decode_jxl<A>(path: &str, file: &[u8]) -> (decoded: Result<Decoded<A>, DecodeError>)
    ensures
        decoded matches Ok(decoded) ==> decoded.wf() && decoded.svg is None,
        match decoded {
            Ok(decoded) => {
                &&& jxl_reason(path@, file@) is None
                &&& jxl_still(file@, decoded@)
            },
            Err(error) => jxl_reason(path@, file@) == Some(
                (error.fault(), error.about(), error.why()),
            ),
        },
{
    let image = match decoders::open_jxl(file) {
        Ok(image) => image,
        Err(reason) => return Err(DecodeError::new(Fault::Jxl, path, reason.as_str())),
    };
    let render = match decoders::render_jxl(&image) {
        Ok(render) => render,
        Err(reason) => return Err(DecodeError::new(Fault::Jxl, path, reason.as_str())),
    };
    let (width, height, channels) = decoders::jxl_shape(&render);
    let total = match bytes_for(width, height, channels) {
        Some(total) => total,
        None => return Err(
            DecodeError::new(Fault::Io, "", "jxl buffer does not match its dimensions"),
        ),
    };
    let mut samples: Vec<u8> = vec![0u8; total];
    decoders::jxl_samples(&render, &mut samples);
    finish_jxl(width, height, channels, &samples)
}

/// How many bytes samples of this shape take, if they make a picture that can be held.
fn bytes_for(width: u32, height: u32, channels: u32) -> (total: Option<usize>)
    ensures
        total is Some == (1 <= channels <= 4 && raster::addressable(width as int, height as int)),
        total matches Some(total) ==> total == width * height * channels,
{
    proof {
        raster::lemma_area(width as int, height as int);
    }
    let count: u128 = width as u128 * height as u128;
    if channels < 1 || channels > 4 || count * 4 > isize::MAX as u128 {
        return None;
    }
    assert(0 <= count * channels <= count * 4) by (nonlinear_arith)
        requires
            count >= 0,
            1 <= channels <= 4,
    ;
    Some((count * channels as u128) as usize)
}

/// What opening a PSD comes to: its composite, or what keeps it from being read.
pub open spec fn psd_verdict(file: Seq<u8>, orientation: Orientation) -> Verdict {
    match psd::flattened(file) {
        Err(reason) => Verdict::Failed(Fault::Image, ""@, reason),
        Ok(flat) => if raster::addressable(flat.width as int, flat.height as int) {
            Verdict::Image(
                still(
                    raster::picture_of(flat.width, flat.height, flat.pixels),
                    (flat.width as u32, flat.height as u32),
                    orientation,
                ),
            )
        } else {
            Verdict::Failed(Fault::Io, ""@, "bad PSD size"@)
        },
    }
}

/// What opening a file comes to.
pub enum Verdict {
    Image(Image),
    /// Vector artwork, to be drawn and then turned.
    Vector(Orientation),
    /// An AVIF whose container is sound, to be decoded and then turned.
    Avif(Orientation),
    Failed(Fault, Seq<char>, Seq<char>),
}

/// What came of opening a file. Artwork is handed on, and an AVIF with its container open:
/// drawing the one and running the codec of the other is done outside, and finished by
/// `finish_vector` and `finish_avif`.
#[derive(Debug)]
pub enum Opened<'a, A> {
    Image(Decoded<A>),
    Vector(Orientation),
    Avif(gamut_avif::AvifContainer<'a>, Orientation),
}

/// A result of opening a file, as mathematics.
pub open spec fn verdict<A>(opened: Result<Opened<'_, A>, DecodeError>) -> Verdict {
    match opened {
        Ok(Opened::Image(decoded)) => Verdict::Image(decoded@),
        Ok(Opened::Vector(orientation)) => Verdict::Vector(orientation),
        Ok(Opened::Avif(_, orientation)) => Verdict::Avif(orientation),
        Err(error) => Verdict::Failed(error.fault(), error.about(), error.why()),
    }
}

/// An image that came of opening a file is whole and has no artwork.
pub open spec fn sound<A>(opened: Result<Opened<'_, A>, DecodeError>) -> bool {
    opened matches Ok(Opened::Image(decoded)) ==> decoded.wf() && decoded.svg is None
}

/// Opens a PSD: the flattened composite, not the layers.
fn decode_psd<'a, A>(file: &[u8], orientation: Orientation) -> (opened: Result<
    Opened<'a, A>,
    DecodeError,
>)
    ensures
        sound(opened),
        verdict(opened) == psd_verdict(file@, orientation),
{
    let composite = match psd::composite(file) {
        Ok(composite) => composite,
        Err(error) => return Err(DecodeError::new(Fault::Image, "", error.0.as_str())),
    };
    assert(composite.pixels@.take(composite.pixels@.len() as int) =~= composite.pixels@);
    match Raster::from_raw(composite.width, composite.height, composite.pixels) {
        Some(pixels) => Ok(Opened::Image(finish(pixels, orientation))),
        None => Err(DecodeError::new(Fault::Io, "", "bad PSD size")),
    }
}

/// What decoding a file with a signature comes to.
pub open spec fn still_verdict(
    path: Seq<char>,
    read: Result<Bitmap, Seq<char>>,
    orientation: Orientation,
) -> Verdict {
    match read {
        Err(reason) => Verdict::Failed(Fault::Image, path, reason),
        Ok(map) => if usable(map) {
            Verdict::Image(still(pictured(map), (map.width, map.height), orientation))
        } else {
            Verdict::Failed(Fault::Image, path, "the picture does not match its size"@)
        },
    }
}

/// Makes an image of what a decoder answered.
pub fn finish_still<'a, A>(
    path: &str,
    answer: Result<Raw, String>,
    orientation: Orientation,
) -> (opened: Result<Opened<'a, A>, DecodeError>)
    ensures
        sound(opened),
        verdict(opened) == still_verdict(path@, decoders::answer(answer), orientation),
{
    match answer {
        Err(reason) => Err(DecodeError::new(Fault::Image, path, reason.as_str())),
        Ok(raw) => match held(raw) {
            Some(pixels) => Ok(Opened::Image(finish(pixels, orientation))),
            None => Err(DecodeError::new(Fault::Image, path, "the picture does not match its size")),
        },
    }
}

/// What decoding an animation comes to, given its frames.
pub open spec fn animation_verdict(
    left: Result<Seq<Option<Cel>>, Seq<char>>,
    orientation: Orientation,
) -> Verdict {
    match left {
        Err(reason) => Verdict::Failed(Fault::Image, ""@, reason),
        Ok(left) => {
            let (shots, complete) = gathered(left, 0);
            if shots.len() == 0 {
                Verdict::Failed(Fault::Image, ""@, "no decodable frames"@)
            } else {
                Verdict::Image(
                    played(
                        shots,
                        complete,
                        (shots[0].picture.width as u32, shots[0].picture.height as u32),
                        orientation,
                    ),
                )
            }
        },
    }
}

/// Decodes every frame of an animation. What does not decode, or takes too much memory,
/// leaves a still of the first frame.
fn decode_animation<'a, A>(
    frames: Result<image::Frames<'_>, String>,
    orientation: Orientation,
) -> (opened: Result<Opened<'a, A>, DecodeError>)
    requires
        frames matches Ok(frames) ==> decoders::can_advance(frames),
    ensures
        sound(opened),
        verdict(opened) == animation_verdict(decoders::reel(frames), orientation),
{
    let frames = match frames {
        Ok(frames) => frames,
        Err(reason) => return Err(DecodeError::new(Fault::Image, "", reason.as_str())),
    };
    let collected = collect(frames);
    match assemble(collected, orientation) {
        Ok(decoded) => Ok(Opened::Image(decoded)),
        Err(error) => Err(error),
    }
}

/// What is said of an animation that contradicts itself.
pub const MISFIT: &'static str = "a frame and its picture differ in size";

/// What opening a file comes to, for every way but JPEG XL, whose decoder decides.
pub open spec fn opening(path: Seq<char>, file: Seq<u8>, want_animation: bool) -> Verdict {
    let orientation = metadata::orientation_of(file);
    match route_of(file, want_animation) {
        Route::Gif => animation_verdict(decoders::gif_frames(file), orientation),
        // A WebP that is not marked as an animation is a still one.
        Route::WebP => match decoders::webp_header_of(file) {
            Err(reason) => Verdict::Failed(Fault::Image, ""@, reason),
            Ok(header) => if header.animated && !decoders::alpha_frames_fit(file) {
                Verdict::Failed(Fault::Image, ""@, MISFIT@)
            } else if header.is_playable() {
                animation_verdict(Ok(decoders::webp_frames(file)), orientation)
            } else {
                still_verdict(path, decoders::still_of(file), orientation)
            },
        },
        Route::Avif => match avif::fault_in(file) {
            Some(reason) => Verdict::Failed(Fault::Avif, path, "not valid AVIF: "@ + reason),
            None => Verdict::Avif(orientation),
        },
        Route::Still => if decoders::can_still(file) {
            still_verdict(path, decoders::still_of(file), orientation)
        } else {
            Verdict::Failed(Fault::Image, path, MISFIT@)
        },
        Route::Psd => psd_verdict(file, orientation),
        Route::Vector => Verdict::Vector(orientation),
        _ => Verdict::Failed(Fault::Io, path, "failed to fill whole buffer"@),
    }
}

/// Opens a WebP with its frames, or as a still if it is not marked as an animation.
fn decode_webp<'a, A>(path: &str, file: &[u8], orientation: Orientation) -> (opened: Result<
    Opened<'a, A>,
    DecodeError,
>)
    requires
        route_of(file@, true) is WebP,
    ensures
        sound(opened),
        metadata::orientation_of(file@) == orientation ==> verdict(opened) == opening(
            path@,
            file@,
            true,
        ),
{
    let header = match decoders::read_webp_header(file) {
        Ok(header) => header,
        Err(reason) => return Err(DecodeError::new(Fault::Image, "", reason.as_str())),
    };
    if header.animated && !decoders::frames_agree(file) {
        Err(DecodeError::new(Fault::Image, "", MISFIT))
    } else if header.playable() {
        decode_animation(Ok(decoders::open_webp(file)), orientation)
    } else {
        finish_still(path, decoders::decode_still(file), orientation)
    }
}

/// Whether the first picture of a file can be asked for.
fn stills(file: &[u8]) -> (can: bool)
    ensures
        can == decoders::can_still(file@),
{
    match decoders::guess(file) {
        Some(Guess::WebP) => match decoders::read_webp_header(file) {
            Ok(header) => !header.animated || decoders::frames_agree(file),
            Err(_) => true,
        },
        _ => {
            proof {
                lemma_gif_is_no_webp(file@);
            }
            true
        },
    }
}

/// A file that starts as a GIF does starts as no WebP does.
proof fn lemma_gif_is_no_webp(file: Seq<u8>)
    ensures
        decoders::is_gif(file) ==> !decoders::is_webp(file),
{
    let modern = seq![71u8, 73, 70, 56, 57, 97];
    let older = seq![71u8, 73, 70, 56, 55, 97];
    let riff = seq![82u8, 73, 70, 70];
    if decoders::is_gif(file) && decoders::is_webp(file) {
        assert(file.take(4)[0] == riff[0]);
        assert(file.take(6)[0] == modern[0] || file.take(6)[0] == older[0]);
    }
}

/// Opens an image at native resolution, upright, with the frames of an animation where they
/// are wanted.
pub fn decode_impl<'a, A>(path: &str, file: &'a [u8], want_animation: bool) -> (opened: Result<
    Opened<'a, A>,
    DecodeError,
>)
    ensures
        sound(opened),
        is_opening(path@, file@, want_animation, opened),
{
    let orientation = metadata::read_orientation(file);
    match route(file, want_animation) {
        Route::Gif => decode_animation(decoders::open_gif(file), orientation),
        Route::WebP => decode_webp(path, file, orientation),
        Route::Avif => match avif::open(path, file) {
            Ok(container) => Ok(Opened::Avif(container, orientation)),
            Err(error) => Err(error),
        },
        Route::Still => if stills(file) {
            finish_still(path, decoders::decode_still(file), orientation)
        } else {
            Err(DecodeError::new(Fault::Image, path, MISFIT))
        },
        Route::Psd => decode_psd(file, orientation),
        Route::Jxl => match decode_jxl(path, file) {
            Ok(decoded) => Ok(Opened::Image(decoded)),
            Err(error) => Err(error),
        },
        Route::Vector => Ok(Opened::Vector(orientation)),
        Route::TooShort => Err(DecodeError::new(Fault::Io, path, "failed to fill whole buffer")),
    }
}

/// What opening a JPEG XL file comes to: its first frame, or the reason there is none.
pub open spec fn jxl_opened<A>(
    path: Seq<char>,
    file: Seq<u8>,
    opened: Result<Opened<'_, A>, DecodeError>,
) -> bool {
    match opened {
        Ok(Opened::Image(decoded)) => jxl_reason(path, file) is None && jxl_still(file, decoded@),
        Ok(_) => false,
        Err(error) => jxl_reason(path, file) == Some((error.fault(), error.about(), error.why())),
    }
}

/// Whether `opened` is what opening a file comes to.
pub open spec fn is_opening<A>(
    path: Seq<char>,
    file: Seq<u8>,
    want_animation: bool,
    opened: Result<Opened<'_, A>, DecodeError>,
) -> bool {
    if route_of(file, want_animation) is Jxl {
        jxl_opened(path, file, opened)
    } else {
        verdict(opened) == opening(path, file, want_animation)
    }
}

/// Opens an image at native resolution, upright, with all frames of an animation.
pub fn decode_full<'a, A>(path: &str, file: &'a [u8]) -> (opened: Result<
    Opened<'a, A>,
    DecodeError,
>)
    ensures
        sound(opened),
        is_opening(path@, file@, true, opened),
{
    decode_impl(path, file, true)
}

/// Opens an image at native resolution, upright, without the frames of an animation.
pub fn decode_full_static<'a, A>(path: &str, file: &'a [u8]) -> (opened: Result<
    Opened<'a, A>,
    DecodeError,
>)
    ensures
        sound(opened),
        is_opening(path@, file@, false, opened),
{
    decode_impl(path, file, false)
}

/// Content decides what opens, and never the name. A file opens alike under any two: as the
/// same image, as artwork or as an AVIF that is turned the same way, or not at all and for the
/// same reason. Two openings of a JPEG XL file have everything in common but what its
/// renderer leaves to the machine: the samples, which both times are samples of that file.
pub proof fn law_content_decides_what_opens<A>(
    p: Seq<char>,
    q: Seq<char>,
    file: Seq<u8>,
    want_animation: bool,
    first: Result<Opened<'_, A>, DecodeError>,
    second: Result<Opened<'_, A>, DecodeError>,
)
    requires
        is_opening(p, file, want_animation, first),
        is_opening(q, file, want_animation, second),
    ensures
        match (verdict(first), verdict(second)) {
            (Verdict::Image(a), Verdict::Image(b)) => if route_of(file, want_animation) is Jxl {
                &&& jxl_still(file, a)
                &&& jxl_still(file, b)
                &&& a.stage == b.stage
                &&& a.orientation == b.orientation
                &&& a.full_size == b.full_size
                &&& a.shots == b.shots
            } else {
                a == b
            },
            (Verdict::Vector(a), Verdict::Vector(b)) => a == b,
            (Verdict::Avif(a), Verdict::Avif(b)) => a == b,
            (Verdict::Failed(a, _, why), Verdict::Failed(b, _, reason)) => a == b && why == reason,
            _ => false,
        },
{
}

/// Without its frames a file never comes back animated.
pub proof fn law_a_static_opening_never_animates<A>(
    path: Seq<char>,
    file: Seq<u8>,
    opened: Result<Opened<'_, A>, DecodeError>,
)
    requires
        is_opening(path, file, false, opened),
    ensures
        verdict(opened) matches Verdict::Image(image) ==> image.shots is None,
{
}

/// An animated image shows its first frame, so that whatever acts on a still acts on that.
pub proof fn law_an_animation_starts_with_its_picture<A>(
    path: Seq<char>,
    file: Seq<u8>,
    opened: Result<Opened<'_, A>, DecodeError>,
)
    requires
        is_opening(path, file, true, opened),
    ensures
        verdict(opened) matches Verdict::Image(image) ==> {
            image.shots matches Some(shots) ==> {
                &&& shots.len() > 1
                &&& shots[0].picture == image.picture
            }
        },
{
}

/// The stated size of an image that is there in full is the size of its picture.
pub proof fn law_a_full_image_has_its_full_size<A>(
    path: Seq<char>,
    file: Seq<u8>,
    frames: bool,
    opened: Result<Opened<'_, A>, DecodeError>,
)
    requires
        is_opening(path, file, frames, opened),
    ensures
        verdict(opened) matches Verdict::Image(image) ==> {
            &&& image.stage is Full
            &&& image.full_size.0 == image.picture.width
            &&& image.full_size.1 == image.picture.height
            &&& image.sees_through == image.picture.sees_through()
        },
{
}

/// A truncated animation, or one past the cap, is a still.
pub proof fn law_an_incomplete_animation_is_a_still(
    left: Seq<Option<Cel>>,
    orientation: Orientation,
)
    requires
        !gathered(left, 0).1,
    ensures
        animation_verdict(Ok(left), orientation) matches Verdict::Image(image)
            ==> image.shots is None,
{
}

/// The upright size that the header of a file gives, read as the format that its extension
/// names.
pub open spec fn oriented_size(
    path: Seq<char>,
    file: Seq<u8>,
    orientation: Orientation,
) -> Option<(u32, u32)> {
    match path::extension_of(path) {
        None => None,
        Some(ext) => if ext.len() == 0 {
            None
        } else {
            match decoders::header_size(file, ext) {
                Some(size) => Some(orientation.upright(size)),
                None => None,
            }
        },
    }
}

/// Native size of an image, read from its header without decoding pixels, upright.
pub fn oriented_dimensions(path: &str, file: &[u8], orientation: Orientation) -> (size: Option<
    (u32, u32),
>)
    ensures
        size == oriented_size(path@, file@, orientation),
{
    let ext = match path::extension(path) {
        Some(ext) => ext,
        None => return None,
    };
    if ext.as_str().is_empty() {
        return None;
    }
    match decoders::read_size(file, ext.as_str()) {
        Some((width, height)) => if orientation.swaps_axes() {
            Some((height, width))
        } else {
            Some((width, height))
        },
        None => None,
    }
}

/// Where the thumbnail of an EXIF block starts.
pub open spec fn thumbnail_offset() -> Tag {
    Tag { table: Table::Tiff, number: 0x201 }
}

/// How long the thumbnail of an EXIF block is.
pub open spec fn thumbnail_length() -> Tag {
    Tag { table: Table::Tiff, number: 0x202 }
}

/// The bytes of the thumbnail in an EXIF block: a stretch of it that two of its tags name.
pub open spec fn thumbnail_in(tiff: Seq<u8>) -> Option<Seq<u8>> {
    match (
        tags::number_of(tiff, thumbnail_offset(), true),
        tags::number_of(tiff, thumbnail_length(), true),
    ) {
        (Some(offset), Some(length)) => if offset + length <= tiff.len() {
            Some(tiff.subrange(offset as int, offset + length))
        } else {
            None
        },
        _ => None,
    }
}

/// A stand-in made of a thumbnail: the thumbnail upright, with the size of what it stands
/// for, or its own where that is not known.
pub open spec fn standing_in(
    p: Picture,
    size: (u32, u32),
    orientation: Orientation,
    full_size: Option<(u32, u32)>,
) -> Image {
    Image {
        picture: orientation.of(p),
        stage: Stage::Preview,
        orientation,
        full_size: match full_size {
            Some(full_size) => full_size,
            None => orientation.upright(size),
        },
        shots: None,
        sees_through: orientation.of(p).sees_through(),
    }
}

/// The preview that a file holds in its EXIF block, if it holds one that decodes.
pub open spec fn preview_in(path: Seq<char>, file: Seq<u8>) -> Option<Image> {
    match tags::block_of(file) {
        None => None,
        Some(tiff) => match thumbnail_in(tiff) {
            None => None,
            Some(thumbnail) => match decoders::jpeg_picture(thumbnail) {
                Some(map) => if usable(map) {
                    let orientation = metadata::orientation_in(tiff);
                    Some(
                        standing_in(
                            pictured(map),
                            (map.width, map.height),
                            orientation,
                            oriented_size(path, file, orientation),
                        ),
                    )
                } else {
                    None
                },
                None => None,
            },
        },
    }
}

/// An instant preview from the JPEG thumbnail that cameras embed, where there is one.
pub fn decode_preview<A>(path: &str, file: &[u8]) -> (preview: Option<Decoded<A>>)
    ensures
        preview is Some == (preview_in(path@, file@) is Some),
        preview matches Some(preview) ==> {
            &&& preview.wf()
            &&& preview.svg is None
            &&& preview_in(path@, file@) == Some(preview@)
        },
{
    let exif = match tags::read_exif(file) {
        Some(exif) => exif,
        None => return None,
    };
    let orientation = metadata::orientation_from_exif(&exif);
    let offset = match tags::field_number(
        &exif,
        Tag { table: Table::Tiff, number: 0x201 },
        true,
    ) {
        Some(offset) => offset,
        None => return None,
    };
    let length = match tags::field_number(
        &exif,
        Tag { table: Table::Tiff, number: 0x202 },
        true,
    ) {
        Some(length) => length,
        None => return None,
    };
    let tiff = tags::tiff_bytes(&exif);
    if offset as u64 + length as u64 > tiff.len() as u64 {
        return None;
    }
    let thumbnail = vstd::slice::slice_subrange(
        tiff,
        offset as usize,
        (offset as u64 + length as u64) as usize,
    );
    match decoders::decode_jpeg(thumbnail) {
        None => None,
        Some(raw) => match held(raw) {
            None => None,
            Some(pixels) => Some(
                stand_in(pixels, orientation, oriented_dimensions(path, file, orientation)),
            ),
        },
    }
}

/// Turns a thumbnail upright and wraps it as a preview.
pub fn stand_in<A>(
    pixels: Raster,
    orientation: Orientation,
    full_size: Option<(u32, u32)>,
) -> (preview: Decoded<A>)
    requires
        pixels.wf(),
    ensures
        preview.wf(),
        preview.svg is None,
        preview@ == standing_in(pixels@, (pixels.width, pixels.height), orientation, full_size),
{
    let upright = orientation.apply(pixels);
    let full_size = match full_size {
        Some(full_size) => full_size,
        None => upright.dimensions(),
    };
    let has_transparency = upright.has_transparency();
    Decoded {
        pixels: Arc::new(upright),
        stage: Stage::Preview,
        orientation,
        full_size,
        animation: None,
        has_transparency,
        svg: None,
    }
}

/// A preview from a thumbnail that was stored upright, for a file whose header can be
/// read.
pub fn decode_thumb<A>(path: &str, file: &[u8], thumbnail: Raster) -> (preview: Option<Decoded<A>>)
    requires
        thumbnail.wf(),
    ensures
        preview is Some == (oriented_size(path@, file@, metadata::orientation_of(file@)) is Some),
        preview matches Some(preview) ==> {
            &&& preview.wf()
            &&& preview.svg is None
            &&& preview@ == (Image {
                picture: thumbnail@,
                stage: Stage::Preview,
                orientation: metadata::orientation_of(file@),
                full_size: oriented_size(path@, file@, metadata::orientation_of(file@))->0,
                shots: None,
                sees_through: thumbnail@.sees_through(),
            })
        },
{
    let orientation = metadata::read_orientation(file);
    let full_size = match oriented_dimensions(path, file, orientation) {
        Some(full_size) => full_size,
        None => return None,
    };
    let has_transparency = thumbnail.has_transparency();
    Some(
        Decoded {
            pixels: Arc::new(thumbnail),
            stage: Stage::Preview,
            orientation,
            full_size,
            animation: None,
            has_transparency,
            svg: None,
        },
    )
}

/// A preview is laid out at the size of what it stands for, wherever the header of the
/// file gives that, so that nothing moves when the full image arrives.
pub proof fn law_a_preview_has_the_full_size(path: Seq<char>, file: Seq<u8>)
    ensures
        preview_in(path, file) matches Some(preview) ==> {
            &&& preview.stage is Preview
            &&& oriented_size(path, file, preview.orientation) matches Some(size)
                ==> preview.full_size == size
        },
{
}

/// What a file is taken for, by its first bytes and never by its name. Formats with a signature
/// of their own come first; of what is left, a Photoshop document starts with `8BPS`, a JPEG XL
/// with its two bytes or its box, and all else is taken for artwork if it is long enough to
/// tell.
pub proof fn law_the_first_bytes_decide(file: Seq<u8>, frames: bool)
    ensures
        ({
            let route = route_of(file, frames);
            let unknown = decoders::guessed(file) is None;
            let psd = file.len() >= 4 && file[0] == '8' as u8 && file[1] == 'B' as u8 && file[2]
                == 'P' as u8 && file[3] == 'S' as u8;
            let jxl = file.len() >= 2 && file[0] == 0xff && file[1] == 0x0a;
            let boxed = file.len() >= 12 && file[0] == 0 && file[1] == 0 && file[2] == 0 && file[3]
                == 12 && file[4] == 'J' as u8 && file[5] == 'X' as u8 && file[6] == 'L' as u8
                && file[7] == ' ' as u8 && file[8] == 0x0d && file[9] == 0x0a && file[10] == 0x87
                && file[11] == 0x0a;
            &&& unknown && file.len() < 12 ==> route is TooShort
            &&& unknown && file.len() >= 12 && psd ==> route is Psd
            &&& unknown && file.len() >= 12 && (jxl || boxed) ==> route is Jxl
            &&& unknown && file.len() >= 12 && !psd && !jxl && !boxed ==> route is Vector
            &&& decoders::guessed(file) == Some(Guess::Gif) ==> if frames {
                route is Gif
            } else {
                route is Still
            }
            &&& decoders::guessed(file) == Some(Guess::WebP) ==> if frames {
                route is WebP
            } else {
                route is Still
            }
            &&& decoders::guessed(file) == Some(Guess::Avif) ==> route is Avif
            &&& decoders::guessed(file) == Some(Guess::Other) ==> route is Still
        }),
{
    let short = seq![56u8, 66, 80, 83];
    let two = seq![0xffu8, 0x0a];
    let long = seq![0u8, 0, 0, 0x0c, 74, 88, 76, 32, 0x0d, 0x0a, 0x87, 0x0a];
    lemma_starts_bytes(file, short);
    lemma_starts_bytes(file, two);
    lemma_starts_bytes(file, long);
    if file.len() >= 12 {
        assert(is_psd(file) == (file[0] == short[0] && file[1] == short[1] && file[2] == short[2]
            && file[3] == short[3]));
        assert(decoders::starts(file, two) == (file[0] == two[0] && file[1] == two[1]));
        assert(decoders::starts(file, long) == (file[0] == long[0] && file[1] == long[1] && file[2]
            == long[2] && file[3] == long[3] && file[4] == long[4] && file[5] == long[5] && file[6]
            == long[6] && file[7] == long[7] && file[8] == long[8] && file[9] == long[9] && file[10]
            == long[10] && file[11] == long[11]));
    }
}

/// A file starts with a signature if it has its bytes one by one.
proof fn lemma_starts_bytes(file: Seq<u8>, signature: Seq<u8>)
    ensures
        decoders::starts(file, signature) == (signature.len() <= file.len() && forall|i: int|
            0 <= i < signature.len() ==> #[trigger] file[i] == signature[i]),
{
    if signature.len() <= file.len() {
        if forall|i: int| 0 <= i < signature.len() ==> #[trigger] file[i] == signature[i] {
            assert(file.take(signature.len() as int) =~= signature);
        }
        if decoders::starts(file, signature) {
            assert forall|i: int| 0 <= i < signature.len() implies #[trigger] file[i]
                == signature[i] by {
                assert(file.take(signature.len() as int)[i] == signature[i]);
            }
        }
    }
}

/// How long a frame is shown: the time its file gives, in whole milliseconds, unless that is
/// ten or less, which no program means and which is shown for a tenth of a second.
pub proof fn law_a_frame_is_shown_for_its_delay(numer: u32, denom: u32)
    requires
        denom >= 1,
    ensures
        numer >= 11 * denom ==> delay_ms(numer, denom) * denom <= numer < (delay_ms(numer, denom)
            + 1) * denom,
        numer < 11 * denom ==> delay_ms(numer, denom) == 100,
        delay_ms(numer, 0) == delay_ms(numer, 1),
{
    let ms = numer as int / denom as int;
    vstd::arithmetic::div_mod::lemma_fundamental_div_mod(numer as int, denom as int);
    assert(ms * denom == denom * ms && (ms + 1) * denom == denom * ms + denom) by (nonlinear_arith);
    if numer >= 11 * denom {
        assert(ms >= 11) by (nonlinear_arith)
            requires
                numer < denom * ms + denom,
                numer >= 11 * denom,
                denom >= 1,
        ;
    } else {
        assert(ms <= 10) by (nonlinear_arith)
            requires
                denom * ms <= numer,
                numer < 11 * denom,
                denom >= 1,
        ;
    }
}

/// The bytes that the first frames of a list take in memory.
pub open spec fn taken(left: Seq<Option<Cel>>, n: int) -> int
    decreases n,
{
    if n <= 0 {
        0
    } else {
        taken(left, n - 1) + left[n - 1]->0.canvas.width * left[n - 1]->0.canvas.height * 4
    }
}

/// Frames are taken one after another, each with its picture and its delay, up to one that
/// cannot be read or is past 512 MiB in all. Only a list that was taken whole is complete.
pub proof fn law_frames_are_taken_in_order(left: Seq<Option<Cel>>, i: int)
    ensures
        ({
            let (shots, complete) = gathered(left, 0);
            &&& shots.len() <= left.len()
            &&& 0 <= i < shots.len() ==> {
                &&& left[i] is Some
                &&& usable(left[i]->0.canvas)
                &&& shots[i].picture == pictured(left[i]->0.canvas)
                &&& shots[i].delay == delay_ms(left[i]->0.numer, left[i]->0.denom)
            }
            &&& complete ==> shots.len() == left.len() && taken(left, left.len() as int)
                <= 512 * 1024 * 1024
            &&& (forall|k: int|
                0 <= k < left.len() ==> (#[trigger] left[k]) is Some && usable(left[k]->0.canvas))
                && taken(left, left.len() as int) <= 512 * 1024 * 1024 ==> complete
        }),
{
    lemma_gathered(left, 0, i);
}

proof fn lemma_gathered(left: Seq<Option<Cel>>, held: int, i: int)
    requires
        0 <= held <= MAX_ANIMATION_BYTES,
    ensures
        ({
            let (shots, complete) = gathered(left, held);
            &&& shots.len() <= left.len()
            &&& 0 <= i < shots.len() ==> {
                &&& left[i] is Some
                &&& usable(left[i]->0.canvas)
                &&& shots[i].picture == pictured(left[i]->0.canvas)
                &&& shots[i].delay == delay_ms(left[i]->0.numer, left[i]->0.denom)
            }
            &&& complete ==> shots.len() == left.len() && held + taken(left, left.len() as int)
                <= MAX_ANIMATION_BYTES
            &&& (forall|k: int|
                0 <= k < left.len() ==> (#[trigger] left[k]) is Some && usable(left[k]->0.canvas))
                && held + taken(left, left.len() as int) <= MAX_ANIMATION_BYTES ==> complete
        }),
    decreases left.len(),
{
    if left.len() > 0 {
        let rest = left.skip(1);
        lemma_taken_front(left, left.len() as int);
        assert forall|k: int| 0 <= k < rest.len() implies #[trigger] rest[k] == left[k + 1] by {}
        if let Some(cel) = left[0] {
            assert(0 <= cel.canvas.width * cel.canvas.height) by (nonlinear_arith)
                requires
                    0 <= cel.canvas.width,
                    0 <= cel.canvas.height,
            ;
            let bytes = held + cel.canvas.width * cel.canvas.height * 4;
            lemma_taken_grows(rest, rest.len() as int);
            if bytes <= MAX_ANIMATION_BYTES {
                lemma_gathered(rest, bytes, i - 1);
                if i >= 1 && i < left.len() {
                    assert(rest[i - 1] == left[i]);
                }
            }
        }
        if forall|k: int|
            0 <= k < left.len() ==> (#[trigger] left[k]) is Some && usable(left[k]->0.canvas) {
            assert(left[0] is Some);
            assert forall|k: int| 0 <= k < rest.len() implies (#[trigger] rest[k]) is Some
                && usable(rest[k]->0.canvas) by {
                assert(left[k + 1] is Some);
            }
        }
    }
}

proof fn lemma_taken_front(left: Seq<Option<Cel>>, n: int)
    requires
        1 <= n <= left.len(),
    ensures
        taken(left, n) == left[0]->0.canvas.width * left[0]->0.canvas.height * 4 + taken(
            left.skip(1),
            n - 1,
        ),
    decreases n,
{
    if n > 1 {
        lemma_taken_front(left, n - 1);
        assert(left.skip(1)[n - 2] == left[n - 1]);
    } else {
        assert(taken(left, 0) == 0);
    }
}

proof fn lemma_taken_grows(left: Seq<Option<Cel>>, n: int)
    ensures
        taken(left, n) >= 0,
    decreases n,
{
    if n > 0 {
        lemma_taken_grows(left, n - 1);
        let canvas = left[n - 1]->0.canvas;
        assert(canvas.width * canvas.height >= 0) by (nonlinear_arith)
            requires
                0 <= canvas.width,
                0 <= canvas.height,
        ;
    }
}

/// Every frame of an animation is turned upright and keeps its time, and the frames of one that
/// was read whole all play.
pub proof fn law_every_frame_is_upright(
    left: Seq<Option<Cel>>,
    orientation: Orientation,
    i: int,
)
    requires
        gathered(left, 0).1,
        0 <= i < left.len(),
        left.len() >= 2,
    ensures
        animation_verdict(Ok(left), orientation) matches Verdict::Image(image) && {
            &&& image.shots is Some
            &&& image.shots->0.len() == left.len()
            &&& image.shots->0[i].picture == orientation.of(pictured(left[i]->0.canvas))
            &&& image.shots->0[i].delay == delay_ms(left[i]->0.numer, left[i]->0.denom)
            &&& image.picture == orientation.of(pictured(left[0]->0.canvas))
        },
{
    law_frames_are_taken_in_order(left, i);
    law_frames_are_taken_in_order(left, 0);
}

/// A picture with a signature opens as what its decoder read, turned upright.
pub proof fn law_a_still_opens_upright(path: Seq<char>, file: Seq<u8>, frames: bool)
    requires
        route_of(file, frames) is Still,
        decoders::can_still(file),
    ensures
        match decoders::still_of(file) {
            Ok(map) => if map.width * map.height * 4 <= map.pixels.len() && map.width * map.height
                * 4 <= isize::MAX {
                opening(path, file, frames) matches Verdict::Image(image) && {
                    let turned = metadata::orientation_of(file);
                    &&& image.picture == turned.of(
                        raster::picture_of(
                            map.width as nat,
                            map.height as nat,
                            map.pixels.take(map.width * map.height * 4),
                        ),
                    )
                    &&& image.orientation == turned
                    &&& image.stage is Full
                    &&& image.shots is None
                }
            } else {
                opening(path, file, frames) is Failed
            },
            Err(reason) => opening(path, file, frames) == Verdict::Failed(
                Fault::Image,
                path,
                reason,
            ),
        },
{
}

/// A Photoshop document opens as its composite, turned upright.
pub proof fn law_a_document_opens_upright(path: Seq<char>, file: Seq<u8>, frames: bool)
    requires
        route_of(file, frames) is Psd,
    ensures
        match psd::flattened(file) {
            Ok(flat) => if flat.width * flat.height * 4 <= isize::MAX {
                opening(path, file, frames) matches Verdict::Image(image) && image.picture
                    == metadata::orientation_of(file).of(
                    raster::picture_of(flat.width, flat.height, flat.pixels),
                )
            } else {
                opening(path, file, frames) is Failed
            },
            Err(reason) => opening(path, file, frames) matches Verdict::Failed(_, _, why) && why
                == reason,
        },
{
}

/// A file that cannot be opened says so: artwork, AVIF and pictures never turn into one
/// another, and what is too short to be anything is a failure to read it.
pub proof fn law_a_file_opens_as_what_it_is(path: Seq<char>, file: Seq<u8>, frames: bool)
    ensures
        ({
            let verdict = opening(path, file, frames);
            let route = route_of(file, frames);
            let turned = metadata::orientation_of(file);
            &&& route is Vector ==> verdict == Verdict::Vector(turned)
            &&& route is TooShort ==> (verdict matches Verdict::Failed(fault, about, _) && fault
                is Io && about == path)
            &&& route is Avif && avif::fault_in(file) is None ==> verdict == Verdict::Avif(turned)
            &&& route is Avif && avif::fault_in(file) is Some ==> verdict is Failed
            &&& route is Gif && decoders::gif_frames(file) is Err ==> verdict is Failed
        }),
{
}

/// What the samples of a JPEG XL mean: one channel is grey, two are grey and alpha, three are
/// red, green and blue, four have alpha too. Without alpha a pixel is opaque.
pub proof fn law_samples_become_colours(samples: Seq<u8>, channels: int, count: int, pixel: int)
    requires
        1 <= channels <= 4,
        0 <= pixel < count,
    ensures
        ({
            let p = raster::pixel_at(expanded(samples, channels, count), pixel);
            let at = pixel * channels;
            let s = |i: int| samples[at + i];
            &&& expanded(samples, channels, count).len() == 4 * count
            &&& channels == 1 ==> p.r == s(0) && p.g == s(0) && p.b == s(0) && p.a == 255
            &&& channels == 2 ==> p.r == s(0) && p.g == s(0) && p.b == s(0) && p.a == s(1)
            &&& channels == 3 ==> p.r == s(0) && p.g == s(1) && p.b == s(2) && p.a == 255
            &&& channels == 4 ==> p.r == s(0) && p.g == s(1) && p.b == s(2) && p.a == s(3)
        }),
{
    assert((4 * pixel) / 4 == pixel && (4 * pixel) % 4 == 0);
    assert((4 * pixel + 1) / 4 == pixel && (4 * pixel + 1) % 4 == 1);
    assert((4 * pixel + 2) / 4 == pixel && (4 * pixel + 2) % 4 == 2);
    assert((4 * pixel + 3) / 4 == pixel && (4 * pixel + 3) % 4 == 3);
}

/// The thumbnail inside a photo is the stretch of its EXIF block that tags 0x201 and 0x202 of
/// the second image give, where it starts and how long it is, if the block has it all.
pub proof fn law_a_thumbnail_is_where_its_tags_say(tiff: Seq<u8>)
    ensures
        ({
            let start = tags::number_of(tiff, Tag { table: Table::Tiff, number: 0x201 }, true);
            let length = tags::number_of(tiff, Tag { table: Table::Tiff, number: 0x202 }, true);
            match thumbnail_in(tiff) {
                Some(bytes) => {
                    &&& start is Some && length is Some
                    &&& bytes.len() == length->0
                    &&& start->0 + length->0 <= tiff.len()
                    &&& forall|i: int|
                        0 <= i < bytes.len() ==> #[trigger] bytes[i] == tiff[start->0 + i]
                },
                None => start is None || length is None || start->0 + length->0 > tiff.len(),
            }
        }),
{
}

/// What stands in for a picture is upright and stands for the size that the picture itself will
/// have, or for its own where that is not known. It is never taken for the picture.
pub proof fn law_a_stand_in_is_upright(
    p: Picture,
    size: (u32, u32),
    orientation: Orientation,
    full_size: Option<(u32, u32)>,
)
    ensures
        ({
            let image = standing_in(p, size, orientation, full_size);
            &&& image.picture == orientation.of(p)
            &&& image.stage is Preview
            &&& image.shots is None
            &&& image.orientation == orientation
            &&& full_size is Some ==> image.full_size == full_size->0
            &&& full_size is None && !orientation.turns() ==> image.full_size == size
            &&& full_size is None && orientation.turns() ==> image.full_size == (size.1, size.0)
        }),
{
}

/// The first stage of opening a photo is the thumbnail in its EXIF block, read as a JPEG and
/// turned as the photo will be. A photo without one has no first stage.
pub proof fn law_the_first_stage_is_the_thumbnail(path: Seq<char>, file: Seq<u8>)
    ensures
        match preview_in(path, file) {
            Some(image) => {
                let tiff = tags::block_of(file)->0;
                let map = decoders::jpeg_picture(thumbnail_in(tiff)->0)->0;
                &&& tags::block_of(file) is Some && thumbnail_in(tiff) is Some
                &&& decoders::jpeg_picture(thumbnail_in(tiff)->0) is Some
                &&& image.picture == metadata::orientation_of(file).of(
                    raster::picture_of(
                        map.width as nat,
                        map.height as nat,
                        map.pixels.take(map.width * map.height * 4),
                    ),
                )
                &&& image.stage is Preview
            },
            None => tags::block_of(file) matches Some(tiff) ==> thumbnail_in(tiff) matches Some(
                thumbnail,
            ) ==> decoders::jpeg_picture(thumbnail) matches Some(map) ==> map.width * map.height
                * 4 > map.pixels.len() || map.width * map.height * 4 > isize::MAX,
        },
{
}

/// What can be opened, by the extension alone and in either case: these fifteen, and nothing
/// without one.
pub proof fn law_fifteen_extensions_can_be_opened(path: Seq<char>)
    ensures
        path::extension_of(path) is None ==> !openable(path),
        path::extension_of(path) matches Some(ext) ==> {
            let small = ext.map_values(|c: char| text::lower(c));
            openable(path) == (small == "png"@ || small == "jpg"@ || small == "jpeg"@ || small
                == "gif"@ || small == "bmp"@ || small == "webp"@ || small == "tif"@ || small
                == "tiff"@ || small == "ico"@ || small == "ff"@ || small == "svg"@ || small
                == "svgz"@ || small == "psd"@ || small == "jxl"@ || small == "avif"@)
        },
{
    let all = SUPPORTED_EXTENSIONS@;
    lemma_extensions();
    if let Some(ext) = path::extension_of(path) {
        let small = text::lowered(ext);
        if openable(path) {
            let i = choose|i: int|
                0 <= i < 15 && small == text::lowered((#[trigger] all[i])@);
            assert(text::lowered(all[i]@) == all[i]@);
        }
        assert(small == "png"@ ==> small == text::lowered(all[0]@));
        assert(small == "jpg"@ ==> small == text::lowered(all[1]@));
        assert(small == "jpeg"@ ==> small == text::lowered(all[2]@));
        assert(small == "gif"@ ==> small == text::lowered(all[3]@));
        assert(small == "bmp"@ ==> small == text::lowered(all[4]@));
        assert(small == "webp"@ ==> small == text::lowered(all[5]@));
        assert(small == "tif"@ ==> small == text::lowered(all[6]@));
        assert(small == "tiff"@ ==> small == text::lowered(all[7]@));
        assert(small == "ico"@ ==> small == text::lowered(all[8]@));
        assert(small == "ff"@ ==> small == text::lowered(all[9]@));
        assert(small == "svg"@ ==> small == text::lowered(all[10]@));
        assert(small == "svgz"@ ==> small == text::lowered(all[11]@));
        assert(small == "psd"@ ==> small == text::lowered(all[12]@));
        assert(small == "jxl"@ ==> small == text::lowered(all[13]@));
        assert(small == "avif"@ ==> small == text::lowered(all[14]@));
    }
}

/// The extensions are written in lower case.
proof fn lemma_extensions()
    ensures
        forall|i: int|
            0 <= i < 15 ==> text::lowered((#[trigger] SUPPORTED_EXTENSIONS@[i])@)
                == SUPPORTED_EXTENSIONS@[i]@,
{
    reveal_strlit("png");
    reveal_strlit("jpg");
    reveal_strlit("jpeg");
    reveal_strlit("gif");
    reveal_strlit("bmp");
    reveal_strlit("webp");
    reveal_strlit("tif");
    reveal_strlit("tiff");
    reveal_strlit("ico");
    reveal_strlit("ff");
    reveal_strlit("svg");
    reveal_strlit("svgz");
    reveal_strlit("psd");
    reveal_strlit("jxl");
    reveal_strlit("avif");
    assert forall|i: int| 0 <= i < 15 implies text::lowered((#[trigger] SUPPORTED_EXTENSIONS@[i])@)
        == SUPPORTED_EXTENSIONS@[i]@ by {
        assert(text::lowered(SUPPORTED_EXTENSIONS@[i]@) =~= SUPPORTED_EXTENSIONS@[i]@);
    }
}

/// An image weighs what its pixels take, an animation what all its frames do.
pub proof fn law_an_image_weighs_its_pixels<A>(image: Decoded<A>, frames: Seq<Arc<Raster>>)
    ensures
        image.animation is None ==> image.weight() == image.pixels.pixels@.len(),
        image.animation matches Some(animation) ==> image.weight() == bytes_of(
            animation.frames@,
            animation.frames@.len() as int,
        ),
        bytes_of(frames, 0) == 0,
        frames.len() > 0 ==> bytes_of(frames, frames.len() as int) == bytes_of(
            frames,
            frames.len() - 1,
        ) + frames[frames.len() - 1].pixels@.len(),
{
}

/// The size of a file whose header can be read is the size it is shown at: turned on its side, the
/// sides change places. A file without an extension has none.
pub proof fn law_the_header_gives_the_size_shown(
    path: Seq<char>,
    file: Seq<u8>,
    orientation: Orientation,
    width: u32,
    height: u32,
)
    ensures
        path::extension_of(path) is None ==> oriented_size(path, file, orientation) is None,
        path::extension_of(path) matches Some(ext) ==> {
            &&& ext.len() == 0 ==> oriented_size(path, file, orientation) is None
            &&& ext.len() > 0 && decoders::header_size(file, ext) is None ==> oriented_size(
                path,
                file,
                orientation,
            ) is None
            &&& ext.len() > 0 && decoders::header_size(file, ext) == Some((width, height))
                ==> oriented_size(path, file, orientation) == Some(
                if orientation is Transpose || orientation is Rotate90 || orientation is Transverse
                    || orientation is Rotate270 {
                    (height, width)
                } else {
                    (width, height)
                },
            )
        },
{
}

/// What cannot be opened says which file and why, and what does not hold as many samples as its
/// size takes is no picture.
pub proof fn law_a_failure_names_its_file(
    path: Seq<char>,
    reason: Seq<char>,
    map: Bitmap,
    file: Seq<u8>,
    orientation: Orientation,
)
    ensures
        still_verdict(path, Err(reason), orientation) == Verdict::Failed(
            Fault::Image,
            path,
            reason,
        ),
        !usable(map) ==> still_verdict(path, Ok(map), orientation) == Verdict::Failed(
            Fault::Image,
            path,
            "the picture does not match its size"@,
        ),
        ({
            let (width, height, channels) = decoders::jxl_shape_of(file);
            let unreadable = decoders::jxl_unreadable(file);
            let undrawable = decoders::jxl_undrawable(file);
            &&& unreadable matches Some(why) ==> jxl_reason(path, file) == Some(
                (Fault::Jxl, path, why),
            )
            &&& unreadable is None ==> (undrawable matches Some(why) ==> jxl_reason(path, file)
                == Some((Fault::Jxl, path, why)))
            &&& unreadable is None && undrawable is None ==> (jxl_reason(path, file) is None
                <==> 1 <= channels <= 4 && raster::addressable(width as int, height as int))
        }),
{
}

/// Samples are a picture if there are one to four of them for each pixel, and it can be held.
pub proof fn law_samples_must_match_their_size(
    width: u32,
    height: u32,
    channels: u32,
    samples: Seq<u8>,
)
    ensures
        shaped(width, height, channels, samples) <==> 1 <= channels <= 4 && samples.len() == (width
            * height) * channels && raster::addressable(width as int, height as int),
{
}

/// An animation opens if its first frame can be shown, as that frame. One that cannot be read, or
/// that has no frame to show, is refused.
pub proof fn law_an_animation_opens_if_its_first_frame_does(
    left: Seq<Option<Cel>>,
    reason: Seq<char>,
    orientation: Orientation,
)
    ensures
        animation_verdict(Err(reason), orientation) == Verdict::Failed(
            Fault::Image,
            ""@,
            reason,
        ),
        animation_verdict(Ok(left), orientation) is Image <==> left.len() > 0 && (left[0] matches Some(
            cel,
        ) && usable(cel.canvas)),
        !(animation_verdict(Ok(left), orientation) is Image) ==> animation_verdict(
            Ok(left),
            orientation,
        ) == Verdict::Failed(Fault::Image, ""@, "no decodable frames"@),
        animation_verdict(Ok(left), orientation) matches Verdict::Image(image) ==> image.picture
            == orientation.of(pictured(left[0]->0.canvas)),
{
    if left.len() > 0 && (left[0] matches Some(cel) && usable(cel.canvas)) {
        let shots = gathered(left, 0).0;
        assert(shots.len() > 0 && shots[0].picture == pictured(left[0]->0.canvas));
    }
}

/// A file that is not what it looks like says so: an AVIF with a fault in it, a document that
/// cannot be shown, an animation that contradicts itself.
pub proof fn law_a_faulty_file_says_so(path: Seq<char>, file: Seq<u8>, want_animation: bool)
    ensures
        route_of(file, want_animation) is Avif ==> {
            &&& avif::fault_in(file) matches Some(reason) ==> opening(path, file, want_animation)
                == Verdict::Failed(Fault::Avif, path, "not valid AVIF: "@ + reason)
            &&& avif::fault_in(file) is None ==> opening(path, file, want_animation)
                == Verdict::Avif(metadata::orientation_of(file))
        },
        route_of(file, want_animation) is Still && !decoders::can_still(file) ==> opening(
            path,
            file,
            want_animation,
        ) == Verdict::Failed(Fault::Image, path, "a frame and its picture differ in size"@),
        route_of(file, want_animation) is Psd ==> opening(path, file, want_animation)
            == psd_verdict(file, metadata::orientation_of(file)),
{
}

} // verus!
