//! Opening files, from their bytes.

use std::io::Cursor;
use std::sync::Arc;

use image::codecs::gif::GifEncoder;
use image::{Delay, DynamicImage, Frame, ImageBuffer, ImageFormat, RgbImage, RgbaImage};
use imaginer::avif;
use imaginer::decode::{
    decode_full, decode_full_static, decode_preview, decode_thumb, effective_delay, finish_jxl,
    finish_vector, for_upload, is_supported, oriented_dimensions, route, stand_in, DecodeError,
    Decoded, Fault, Opened, Route, Stage,
};
use imaginer::decoders::frames_agree;
use imaginer::edit::Applied;
use imaginer::export;
use imaginer::fit::{can_fit, fit_scale, fit_within, fitted_size, UNIT};
use imaginer::metadata::Orientation;
use imaginer::raster::Raster;

fn encoded(img: &DynamicImage, format: ImageFormat) -> Vec<u8> {
    let mut bytes = Cursor::new(Vec::new());
    img.write_to(&mut bytes, format).expect("encoding failed");
    bytes.into_inner()
}

fn solid(width: u32, height: u32, colour: [u8; 4]) -> RgbaImage {
    RgbaImage::from_pixel(width, height, image::Rgba(colour))
}

fn png(img: RgbaImage) -> Vec<u8> {
    encoded(&DynamicImage::ImageRgba8(img), ImageFormat::Png)
}

/// Opens a file that holds pixels.
fn opened(path: &str, file: &[u8]) -> Result<Decoded<()>, DecodeError> {
    match decode_full(path, file)? {
        Opened::Image(decoded) => Ok(decoded),
        other => panic!("{path} was handed on: {other:?}"),
    }
}

fn opened_static(path: &str, file: &[u8]) -> Result<Decoded<()>, DecodeError> {
    match decode_full_static(path, file)? {
        Opened::Image(decoded) => Ok(decoded),
        other => panic!("{path} was handed on: {other:?}"),
    }
}

#[test]
fn decodes_a_png_at_native_size() {
    let file = png(solid(7, 3, [10, 20, 30, 255]));
    let decoded = opened("basic.png", &file).unwrap();
    assert_eq!(decoded.stage, Stage::Full);
    assert_eq!(decoded.size(), (7, 3));
    assert_eq!(decoded.full_size, (7, 3));
    assert_eq!(decoded.orientation, Orientation::Normal);
    assert_eq!(decoded.pixels.get_pixel(0, 0), [10, 20, 30, 255]);
    assert_eq!(decoded.rgba_bytes().len(), 7 * 3 * 4);
}

#[test]
fn no_exif_thumbnail_yields_no_preview() {
    let file = png(solid(4, 4, [0, 0, 0, 255]));
    assert!(decode_preview::<()>("nothumb.png", &file).is_none());
}

#[test]
fn garbage_bytes_are_a_decode_error() {
    // Nothing recognises them, so they are handed on as possible artwork, which a renderer
    // then refuses; a damaged image is refused here.
    let result: Result<Opened<()>, DecodeError> = decode_full("garbage.png", b"not an image");
    assert!(matches!(result, Ok(Opened::Vector(_))));

    let mut file = png(solid(9, 9, [1, 2, 3, 255]));
    file.truncate(40);
    let error = opened("garbage.png", &file).unwrap_err();
    assert!(matches!(error, DecodeError::Image { .. }));
    assert!(error.message().starts_with("could not decode garbage.png: "));
}

#[test]
fn images_within_the_texture_limit_are_not_scaled() {
    assert_eq!(fit_scale(1920, 1080, 16384), None);
    assert_eq!(fit_scale(16384, 16384, 16384), None);
}

#[test]
fn oversized_images_scale_by_their_longest_side() {
    let landscape = fit_scale(32768, 1000, 16384).unwrap();
    assert!((landscape as f64 / UNIT as f64 - 0.5).abs() < 1e-9);

    let portrait = fit_scale(1000, 32768, 16384).unwrap();
    assert!((portrait as f64 / UNIT as f64 - 0.5).abs() < 1e-9);
}

#[test]
fn for_upload_borrows_when_it_fits_and_scales_when_it_does_not() {
    let pixels = Raster::from_raw(64, 16, [1, 2, 3, 255].repeat(64 * 16)).unwrap();
    let decoded: Decoded<()> = Decoded {
        pixels: Arc::new(pixels),
        stage: Stage::Full,
        orientation: Orientation::Normal,
        full_size: (64, 16),
        animation: None,
        has_transparency: false,
        svg: None,
    };

    let whole = decoded.for_upload(16384);
    assert_eq!(whole.as_raster().dimensions(), (64, 16));
    assert!(matches!(whole, Applied::Borrowed(_)));

    let small = decoded.for_upload(32);
    assert_eq!(small.as_raster().dimensions(), (32, 8));
    assert!(matches!(small, Applied::Owned(_)));
    assert_eq!(small.as_raster().pixels.len(), 32 * 8 * 4);
    assert_eq!(small.as_raster().get_pixel(3, 3), [1, 2, 3, 255]);
}

#[test]
fn detects_format_by_content_not_extension() {
    let img =
        DynamicImage::ImageRgb8(RgbImage::from_pixel(8, 8, image::Rgb([200, 100, 50])));
    let file = encoded(&img, ImageFormat::Jpeg);
    assert_eq!(opened("liar.png", &file).unwrap().size(), (8, 8));
}

#[test]
fn recognises_supported_extensions_whatever_their_case() {
    assert!(is_supported("holiday.JPG"));
    assert!(is_supported("scan.png"));
    assert!(is_supported("scan.TIFF"));
    assert!(is_supported("app.ico"));
    assert!(!is_supported("notes.txt"));
    assert!(!is_supported("no-extension"));
}

#[test]
fn transparency_is_reported_only_when_a_pixel_sees_through() {
    let mut img = solid(8, 8, [10, 20, 30, 255]);
    assert!(!opened("alpha.png", &png(img.clone())).unwrap().has_transparency);

    img.put_pixel(3, 3, image::Rgba([10, 20, 30, 0]));
    assert!(opened("alpha.png", &png(img)).unwrap().has_transparency);
}

/// A minimal PSD: header, three empty sections, and the flattened composite.
fn synthetic_psd(width: u32, height: u32, channels: u16, compression: u16, body: &[u8]) -> Vec<u8> {
    let mut file = Vec::new();
    file.extend_from_slice(b"8BPS");
    file.extend_from_slice(&1u16.to_be_bytes());
    file.extend_from_slice(&[0; 6]);
    file.extend_from_slice(&channels.to_be_bytes());
    file.extend_from_slice(&height.to_be_bytes());
    file.extend_from_slice(&width.to_be_bytes());
    file.extend_from_slice(&8u16.to_be_bytes());
    file.extend_from_slice(&3u16.to_be_bytes());
    file.extend_from_slice(&0u32.to_be_bytes());
    file.extend_from_slice(&0u32.to_be_bytes());
    file.extend_from_slice(&0u32.to_be_bytes());
    file.extend_from_slice(&compression.to_be_bytes());
    file.extend_from_slice(body);
    file
}

#[test]
fn reads_a_flattened_psd() {
    let file = synthetic_psd(2, 1, 3, 0, &[200, 40, 220, 90, 10, 20]);
    let decoded = opened("flat.psd", &file).unwrap();
    assert_eq!(decoded.size(), (2, 1));
    assert_eq!(decoded.pixels.get_pixel(0, 0), [200, 220, 10, 255]);
    assert_eq!(decoded.pixels.get_pixel(1, 0), [40, 90, 20, 255]);
    assert!(!decoded.has_transparency);
}

#[test]
fn reads_a_psd_with_alpha() {
    let file = synthetic_psd(1, 2, 4, 0, &[1, 4, 2, 5, 3, 6, 255, 128]);
    let decoded = opened("alpha.psd", &file).unwrap();
    assert_eq!(decoded.pixels.get_pixel(0, 0), [1, 2, 3, 255]);
    assert_eq!(decoded.pixels.get_pixel(0, 1), [4, 5, 6, 128]);
    assert!(decoded.has_transparency);
}

#[test]
fn a_truncated_psd_is_an_error_not_a_crash() {
    let file = synthetic_psd(8, 8, 3, 0, &[0; 10]);
    assert!(opened("short.psd", &file).is_err());
}

#[test]
fn reads_an_rle_psd_the_way_photoshop_writes_it() {
    let mut body = Vec::new();
    for _ in 0..3 {
        body.extend_from_slice(&2u16.to_be_bytes());
    }
    body.extend_from_slice(&[255, 200, 255, 220, 255, 10]);
    let file = synthetic_psd(2, 1, 3, 1, &body);

    let decoded = opened("rle.psd", &file).unwrap();
    assert_eq!(decoded.pixels.get_pixel(0, 0), [200, 220, 10, 255]);
    assert_eq!(decoded.pixels.get_pixel(1, 0), [200, 220, 10, 255]);
}

#[test]
fn reads_tiff() {
    let src = DynamicImage::ImageRgba8(RgbaImage::from_fn(6, 4, |x, y| {
        image::Rgba([(x * 40) as u8, (y * 60) as u8, 90, 255])
    }));
    let decoded = opened("format.tiff", &encoded(&src, ImageFormat::Tiff)).unwrap();

    assert_eq!(decoded.size(), (6, 4));
    assert_eq!(decoded.pixels.get_pixel(2, 1), [80, 60, 90, 255]);
}

#[test]
fn reads_farbfeld() {
    let src = DynamicImage::ImageRgba16(ImageBuffer::from_pixel(
        3,
        2,
        image::Rgba([0xabab, 0x1010, 0xffff, 0xffff]),
    ));
    let decoded = opened("format.ff", &encoded(&src, ImageFormat::Farbfeld)).unwrap();

    assert_eq!(decoded.size(), (3, 2));
    assert_eq!(decoded.pixels.get_pixel(0, 0), [0xab, 0x10, 0xff, 0xff]);
}

#[test]
fn a_jxl_extension_is_listed_as_openable() {
    assert!(is_supported("photo.jxl"));
    assert!(is_supported("PHOTO.JXL"));
}

const JXL_CONTAINER: [u8; 12] =
    [0x00, 0x00, 0x00, 0x0c, 0x4a, 0x58, 0x4c, 0x20, 0x0d, 0x0a, 0x87, 0x0a];

#[test]
fn a_jxl_file_with_a_broken_codestream_is_a_jxl_error_not_an_svg_parse() {
    for signature in [JXL_CONTAINER.to_vec(), vec![0xff, 0x0a]] {
        let file = [signature, b"certainly not jxl".to_vec()].concat();
        match opened("probe.jxl", &file) {
            Err(DecodeError::Jxl { .. }) => {}
            other => panic!("expected a Jxl error, got {other:?}"),
        }
    }
}

/// A JPEG XL codestream of two pixels by two: white above, black below.
const TINY_JXL: [u8; 35] = [
    0xff, 0x0a, 0x08, 0x10, 0xb0, 0x12, 0x08, 0x08, 0x10, 0x00, 0x5c, 0x00, 0x4b, 0x12, 0xc5, 0x82,
    0x45, 0x80, 0x1c, 0xbd, 0x31, 0xaa, 0x70, 0x81, 0x09, 0x5d, 0x2a, 0x0e, 0x9f, 0x74, 0xd5, 0x37,
    0xbf, 0xe5, 0x03,
];

#[test]
fn a_jxl_codestream_is_decoded() {
    let decoded = opened("probe.jxl", &TINY_JXL).unwrap();
    assert_eq!(decoded.stage, Stage::Full);
    assert_eq!(decoded.full_size, (2, 2));
    assert_eq!((decoded.pixels.width, decoded.pixels.height), (2, 2));
    assert!(!decoded.has_transparency);
    assert!(decoded.animation.is_none());
    // The format is lossy, so a channel is near its value and not on it.
    for x in 0..2 {
        let above = decoded.pixels.get_pixel(x, 0);
        let below = decoded.pixels.get_pixel(x, 1);
        assert!(above[..3].iter().all(|channel| *channel > 240), "{above:?}");
        assert!(below[..3].iter().all(|channel| *channel < 15), "{below:?}");
        assert_eq!((above[3], below[3]), (255, 255));
    }
}

#[test]
fn a_jxl_codestream_cut_short_is_an_error() {
    match opened("probe.jxl", &TINY_JXL[..12]) {
        Err(DecodeError::Jxl { .. }) => {}
        other => panic!("expected a Jxl error, got {other:?}"),
    }
}

#[test]
fn a_file_that_is_neither_raster_nor_svg_says_so() {
    // Words are handed to the renderer as artwork, and its refusal is an error of that kind.
    let file = b"just some words, not markup at all";
    let result: Result<Opened<()>, DecodeError> = decode_full("prose.svg", file);
    assert!(matches!(result, Ok(Opened::Vector(Orientation::Normal))));

    let error = DecodeError::new(Fault::Svg, "prose.svg", "no markup");
    assert!(matches!(error, DecodeError::Svg { .. }));
    assert_eq!(error.message(), "could not render prose.svg: no markup");
}

#[test]
fn reads_back_an_icon_this_crate_wrote() {
    let mut bytes = Vec::new();
    for y in 0..256u32 {
        for x in 0..256u32 {
            bytes.extend_from_slice(&[x as u8, y as u8, 128, 255]);
        }
    }
    let src = Raster::from_raw(256, 256, bytes).unwrap();
    let settings = export::Settings {
        format: export::Format::Ico,
        ..export::Settings::default()
    };
    let file = export::encode(&src, &settings).expect("writing the icon failed");

    let decoded = opened("written.ico", &file).expect("decoding the icon failed");
    assert_eq!(decoded.size(), (256, 256));
    assert_eq!(decoded.pixels.get_pixel(17, 99), [17, 99, 128, 255]);
}

/// A GIF whose frames are solid rectangles. Frames after the first have a dark corner, so
/// that they can be told apart.
fn animated_gif(colours: &[[u8; 4]], delays_ms: &[u32]) -> Vec<u8> {
    let mut file = Vec::new();
    {
        let mut encoder = GifEncoder::new(&mut file);
        for ((index, colour), delay_ms) in colours.iter().enumerate().zip(delays_ms) {
            let mut buffer = solid(6, 4, *colour);
            if index > 0 {
                buffer.put_pixel(0, 0, image::Rgba([9, 9, 9, 255]));
            }
            encoder
                .encode_frame(Frame::from_parts(
                    buffer,
                    0,
                    0,
                    Delay::from_numer_denom_ms(*delay_ms, 1),
                ))
                .unwrap();
        }
    }
    file
}

#[test]
fn an_animated_gif_comes_back_with_its_frames() {
    let file = animated_gif(&[[255, 0, 0, 255], [0, 0, 255, 255]], &[200, 200]);

    let decoded = opened("anim.gif", &file).unwrap();
    let animation = decoded.animation.as_ref().expect("should be animated");
    assert_eq!(animation.len(), 2);
    assert!(animation.frames.iter().all(|f| f.dimensions() == (6, 4)));
    assert_eq!(decoded.pixels.get_pixel(0, 0), [255, 0, 0, 255]);
    assert_eq!(
        animation.frames[1].get_pixel(0, 0),
        [9, 9, 9, 255],
        "frame identity must survive the round trip"
    );
}

#[test]
fn animation_bytes_are_counted_across_every_frame() {
    let file = animated_gif(&[[1, 2, 3, 255], [4, 5, 6, 255]], &[200, 200]);

    let decoded = opened("anim-bytes.gif", &file).unwrap();
    let per_frame = 6 * 4 * 4;
    assert_eq!(decoded.byte_size(), per_frame * 2);

    let static_only = opened_static("anim-bytes.gif", &file).unwrap();
    assert!(static_only.animation.is_none());
    assert_eq!(static_only.byte_size(), per_frame);
}

#[test]
fn a_single_frame_gif_is_a_still_not_an_animation() {
    let file = animated_gif(&[[7, 7, 7, 255]], &[100]);

    let decoded = opened("one.gif", &file).unwrap();
    assert!(decoded.animation.is_none());
    assert_eq!(decoded.size(), (6, 4));
}

#[test]
fn a_broken_gif_tail_still_shows_its_head_as_a_still() {
    let mut file = animated_gif(&[[1, 1, 1, 255], [2, 2, 2, 255]], &[200, 200]);
    file.truncate(file.len() - 3);

    let decoded = opened("tail.gif", &file).unwrap();
    assert!(decoded.animation.is_none(), "a truncated frame set must not animate");
    assert_eq!(decoded.size(), (6, 4));
}

#[test]
fn gif_delays_of_ten_ms_or_less_settle_at_one_hundred() {
    let file = animated_gif(&[[1, 1, 1, 255], [2, 2, 2, 255]], &[8, 300]);

    let decoded = opened("fast.gif", &file).unwrap();
    let delays = &decoded.animation.as_ref().unwrap().delays;
    assert_eq!(delays[0], 100);
    assert_eq!(delays[1], 300);
}

#[test]
fn a_delay_is_whole_milliseconds_and_never_too_short() {
    assert_eq!(effective_delay(10, 1), 100);
    assert_eq!(effective_delay(11, 1), 11);
    assert_eq!(effective_delay(1000, 3), 333);
    assert_eq!(effective_delay(0, 1), 100);
}

#[test]
fn a_still_webp_opens_as_a_still() {
    let src = DynamicImage::ImageRgba8(solid(5, 4, [40, 80, 120, 255]));
    let file = encoded(&src, ImageFormat::WebP);
    let decoded = opened("photo.webp", &file).unwrap();
    assert!(decoded.animation.is_none());
    assert_eq!(decoded.size(), (5, 4));
    assert_eq!(decoded.pixels.get_pixel(2, 2), [40, 80, 120, 255]);
    assert_eq!(opened_static("photo.webp", &file).unwrap().size(), (5, 4));
}

/// A chunk of a WebP: its name, its length, and its bytes.
fn chunk(name: &[u8; 4], bytes: &[u8]) -> Vec<u8> {
    assert_eq!(bytes.len() % 2, 0);
    let length = u32::try_from(bytes.len()).unwrap().to_le_bytes();
    [&name[..], &length[..], bytes].concat()
}

/// The picture of a still WebP of one colour, as the chunk it is in, on a canvas of 4 by 2.
fn webp_picture(colour: [u8; 4]) -> Vec<u8> {
    let file = encoded(&DynamicImage::ImageRgba8(solid(4, 2, colour)), ImageFormat::WebP);
    assert_eq!(file[12..16], *b"VP8L");
    file[12..].to_vec()
}

/// A WebP with a header of its own: these marks, a canvas of 4 by 2, and these chunks.
fn webp(marks: u8, chunks: &[Vec<u8>]) -> Vec<u8> {
    let header = chunk(b"VP8X", &[marks, 0, 0, 0, 3, 0, 0, 1, 0, 0]);
    let body = [b"WEBP".to_vec(), header, chunks.concat()].concat();
    chunk(b"RIFF", &body)
}

/// A frame that replaces the canvas, for so many milliseconds.
fn webp_frame(colour: [u8; 4], ms: u8) -> Vec<u8> {
    let place = vec![0, 0, 0, 0, 0, 0, 3, 0, 0, 1, 0, 0, ms, 0, 0, 2];
    chunk(b"ANMF", &[place, webp_picture(colour)].concat())
}

#[test]
fn an_animated_webp_opens_with_its_frames() {
    let file = webp(
        2,
        &[
            chunk(b"ANIM", &[0; 6]),
            webp_frame([200, 0, 0, 255], 40),
            webp_frame([0, 0, 200, 255], 5),
        ],
    );
    let decoded = opened("moving.webp", &file).unwrap();
    assert_eq!(decoded.size(), (4, 2));
    let animation = decoded.animation.clone().unwrap();
    assert_eq!(animation.delays, [40, 100]);
    assert_eq!(animation.frames[0].get_pixel(3, 1), [200, 0, 0, 255]);
    assert_eq!(animation.frames[1].get_pixel(3, 1), [0, 0, 200, 255]);
    assert_eq!(decoded.pixels.get_pixel(0, 0), [200, 0, 0, 255]);
    assert!(opened_static("moving.webp", &file).unwrap().animation.is_none());
}

#[test]
fn a_webp_with_a_frame_but_no_mark_of_an_animation_is_a_still() {
    let file = webp(0, &[webp_picture([40, 80, 120, 255]), webp_frame([200, 0, 0, 255], 40)]);
    let decoded = opened("odd.webp", &file).unwrap();
    assert!(decoded.animation.is_none());
    assert_eq!(decoded.size(), (4, 2));
    assert_eq!(decoded.pixels.get_pixel(2, 1), [40, 80, 120, 255]);
}

/// A frame of 4 by 2 with its alpha apart: nine bytes and one to make them even, and then a
/// picture.
fn alpha_frame(size: [u8; 2], picture: &[u8]) -> Vec<u8> {
    let [width, height] = size;
    let place = vec![0, 0, 0, 0, 0, 0, width - 1, 0, 0, height - 1, 0, 0, 50, 0, 0, 2];
    let mut alpha = b"ALPH".to_vec();
    alpha.extend_from_slice(&9u32.to_le_bytes());
    alpha.extend_from_slice(&[0, 10, 20, 30, 40, 50, 60, 70, 80, 0]);
    chunk(b"ANMF", &[place, alpha, picture.to_vec()].concat())
}

/// A lossy picture of 4 by 2, as the chunk it is in.
fn lossy_picture() -> Vec<u8> {
    let pixels = Raster::from_raw(4, 2, [90, 90, 90, 255].repeat(8)).unwrap();
    let settings = export::Settings {
        format: export::Format::WebP,
        quality: 80,
        ..export::Settings::default()
    };
    let file = export::encode(&pixels, &settings).unwrap();
    assert_eq!(file[12..16], *b"VP8 ");
    file[12..].to_vec()
}

#[test]
fn a_frame_with_its_alpha_apart_is_put_together() {
    let frame = alpha_frame([4, 2], &lossy_picture());
    let file = webp(0x12, &[chunk(b"ANIM", &[0; 6]), frame]);
    assert!(frames_agree(&file));
    for decoded in [opened("a.webp", &file), opened_static("a.webp", &file)] {
        let decoded = decoded.unwrap();
        assert_eq!(decoded.size(), (4, 2));
        assert_eq!(decoded.pixels.get_pixel(0, 0)[3], 10);
        assert_eq!(decoded.pixels.get_pixel(3, 1)[3], 80);
    }
}

#[test]
fn a_frame_smaller_than_its_picture_is_an_error() {
    let frame = alpha_frame([1, 1], &lossy_picture());
    let file = webp(0x12, &[chunk(b"ANIM", &[0; 6]), frame.clone()]);
    assert!(!frames_agree(&file));
    for decoded in [opened("a.webp", &file), opened_static("a.webp", &file)] {
        match decoded {
            Err(error @ DecodeError::Image { .. }) => {
                assert!(error.message().ends_with("a frame and its picture differ in size"));
            }
            other => panic!("expected an image error, got {other:?}"),
        }
    }
    // A still has no frames that are looked at.
    let file = webp(0, &[webp_picture([40, 80, 120, 255]), frame]);
    assert_eq!(opened("a.webp", &file).unwrap().size(), (4, 2));
}

#[test]
fn a_name_changes_nothing_about_what_opens() {
    let picture = png(solid(3, 2, [9, 8, 7, 255]));
    let broken = [&b"\x89PNG\r\n\x1a\n"[..], &[0; 12]].concat();
    for name in ["a.png", "a.jpg", "a.svg", "a.jxl", "a"] {
        let decoded = opened(name, &picture).unwrap();
        assert_eq!(decoded.size(), (3, 2));
        assert_eq!(decoded.pixels.get_pixel(1, 1), [9, 8, 7, 255]);
        assert!(matches!(opened(name, &broken), Err(DecodeError::Image { .. })));
        let artwork: Result<Opened<()>, DecodeError> = decode_full(name, b"<svg width='4'/>");
        assert!(matches!(artwork, Ok(Opened::Vector(Orientation::Normal))));
    }
}

#[test]
fn each_signature_goes_its_own_way() {
    assert_eq!(route(b"8BPS and more", true), Route::Psd);
    assert_eq!(route(b"\xff\x0a and then some more", true), Route::Jxl);
    assert_eq!(route(&[0xff, 0x0a], true), Route::TooShort);
    assert_eq!(route(&JXL_CONTAINER, false), Route::Jxl);
    assert_eq!(route(b"GIF89a and more", true), Route::Gif);
    assert_eq!(route(b"GIF89a and more", false), Route::Still);
    assert_eq!(route(b"RIFF\0\0\0\0WEBPVP8L", true), Route::WebP);
    assert_eq!(route(b"\0\0\0\x1cftypavif", true), Route::Avif);
    assert_eq!(route(b"<svg width=\"4\"/>", true), Route::Vector);
}

#[test]
fn an_avif_picture_is_handed_on() {
    let file = avif_file();
    match decode_full::<()>("a.avif", &file) {
        Ok(Opened::Avif(container, Orientation::Normal)) => assert_eq!(container.data(), &file),
        other => panic!("{other:?}"),
    }
    assert!(avif::open("a.avif", &file).is_ok());
}

/// A box of an ISO media file.
fn iso_box(kind: &[u8; 4], body: &[u8]) -> Vec<u8> {
    let mut out = (body.len() as u32 + 8).to_be_bytes().to_vec();
    out.extend_from_slice(kind);
    out.extend_from_slice(body);
    out
}

/// The boxes of an AVIF with one item and no coded picture.
fn avif_file() -> Vec<u8> {
    let hdlr = iso_box(b"hdlr", b"\0\0\0\0\0\0\0\0pict\0\0\0\0\0\0\0\0\0\0\0\0\0");
    let pitm = iso_box(b"pitm", b"\0\0\0\0\0\x01");
    let infe = iso_box(b"infe", b"\x02\0\0\0\0\x01\0\0av01\0");
    let iinf = iso_box(b"iinf", &[&b"\0\0\0\0\0\x01"[..], &infe].concat());
    let meta = iso_box(b"meta", &[&b"\0\0\0\0"[..], &hdlr, &pitm, &iinf].concat());
    [iso_box(b"ftyp", b"avif\0\0\0\0avifmif1miaf"), meta].concat()
}

#[test]
fn a_file_without_its_boxes_is_not_valid_avif() {
    let ftyp = iso_box(b"ftyp", b"avif\0\0\0\0avifmif1miaf");
    let error = decode_full::<()>("a.avif", &ftyp).err().expect("no picture");
    assert!(matches!(error, DecodeError::Avif { .. }));
    assert_eq!(
        error.message(),
        "could not decode a.avif: not valid AVIF: invalid input: ISOBMFF: missing meta \
         [origin: gamut-isobmff]"
    );
}

#[test]
fn something_that_is_not_avif_is_an_error_rather_than_a_panic() {
    assert!(avif::open("a.avif", b"certainly not avif").is_err());
    assert!(avif::open("a.avif", &[0xFF, 0xD8, 0xFF, 0xE0, 0, 16, b'J', b'F', b'I', b'F']).is_err());
}

#[test]
fn a_truncated_file_is_an_error_rather_than_a_panic() {
    let file = avif_file();
    for cut in [4, 16, 64, file.len() - 1] {
        assert!(avif::open("a.avif", &file[..cut]).is_err(), "cut at {cut} should fail");
        let result: Result<Opened<()>, DecodeError> = decode_full("a.avif", &file[..cut]);
        assert!(!matches!(result, Ok(Opened::Avif(..))), "cut at {cut} should fail");
    }
}

#[test]
fn what_a_decoder_hands_over_becomes_an_image() {
    let grey: Decoded<()> = finish_jxl(2, 1, 1, &vec![7, 9]).unwrap();
    assert_eq!(grey.pixels.get_pixel(0, 0), [7, 7, 7, 255]);
    assert_eq!(grey.pixels.get_pixel(1, 0), [9, 9, 9, 255]);
    let veiled: Decoded<()> = finish_jxl(1, 1, 2, &vec![7, 9]).unwrap();
    assert_eq!(veiled.pixels.get_pixel(0, 0), [7, 7, 7, 9]);
    assert!(veiled.has_transparency);
    let colour: Decoded<()> = finish_jxl(1, 1, 3, &vec![1, 2, 3]).unwrap();
    assert_eq!(colour.pixels.get_pixel(0, 0), [1, 2, 3, 255]);
    let whole: Decoded<()> = finish_jxl(1, 1, 4, &vec![1, 2, 3, 4]).unwrap();
    assert_eq!(whole.pixels.get_pixel(0, 0), [1, 2, 3, 4]);
    assert!(finish_jxl::<()>(2, 2, 3, &vec![1, 2, 3]).is_err());
    assert!(finish_jxl::<()>(1, 1, 5, &vec![1, 2, 3, 4, 5]).is_err());
}

#[test]
fn drawn_artwork_keeps_what_it_was_drawn_from() {
    let drawn = Raster::from_raw(2, 1, vec![1, 2, 3, 255, 4, 5, 6, 0]).unwrap();
    let decoded = finish_vector(drawn, "artwork", Orientation::Normal);
    assert_eq!(decoded.svg.as_deref(), Some(&"artwork"));
    assert!(decoded.has_transparency);
    assert_eq!(decoded.full_size, (2, 1));
}

#[test]
fn a_stand_in_is_laid_out_at_the_size_of_the_image() {
    let file = png(solid(640, 480, [5, 6, 7, 255]));
    let thumbnail = Raster::from_raw(4, 3, [5, 6, 7, 255].repeat(12)).unwrap();
    let preview: Decoded<()> = decode_thumb("a.png", &file, thumbnail).unwrap();
    assert_eq!(preview.stage, Stage::Preview);
    assert_eq!(preview.full_size, (640, 480));
    assert_eq!(preview.size(), (4, 3));

    let small = Raster::from_raw(1, 1, vec![1, 2, 3, 4]).unwrap();
    let other: Decoded<()> = stand_in(small, Orientation::Rotate90, Some((9, 8)));
    assert_eq!(other.full_size, (9, 8));
    assert_eq!(other.stage, Stage::Preview);
}

#[test]
fn the_size_of_a_turned_image_is_turned_too() {
    let file = png(solid(6, 2, [5, 6, 7, 255]));
    assert_eq!(oriented_dimensions("a.png", &file, Orientation::Normal), Some((6, 2)));
    assert_eq!(oriented_dimensions("a.png", &file, Orientation::Rotate90), Some((2, 6)));
    assert_eq!(oriented_dimensions("a.png", b"nothing", Orientation::Normal), None);
}

/// A JPEG with an orientation and a thumbnail in its EXIF block.
fn camera_jpeg(orientation: u16, thumbnail: &[u8]) -> Vec<u8> {
    let img = DynamicImage::ImageRgb8(RgbImage::from_pixel(16, 8, image::Rgb([90, 120, 160])));
    let jpeg = encoded(&img, ImageFormat::Jpeg);

    let mut tiff = b"II*\0\x08\0\0\0".to_vec();
    // The first directory: the orientation.
    tiff.extend_from_slice(&1u16.to_le_bytes());
    tiff.extend_from_slice(&0x0112u16.to_le_bytes());
    tiff.extend_from_slice(&3u16.to_le_bytes());
    tiff.extend_from_slice(&1u32.to_le_bytes());
    tiff.extend_from_slice(&u32::from(orientation).to_le_bytes());
    let second = tiff.len() as u32 + 4;
    tiff.extend_from_slice(&second.to_le_bytes());
    // The second: where the thumbnail is.
    let data = second + 2 + 2 * 12 + 4;
    tiff.extend_from_slice(&2u16.to_le_bytes());
    for (tag, value) in [(0x0201u16, data), (0x0202u16, thumbnail.len() as u32)] {
        tiff.extend_from_slice(&tag.to_le_bytes());
        tiff.extend_from_slice(&4u16.to_le_bytes());
        tiff.extend_from_slice(&1u32.to_le_bytes());
        tiff.extend_from_slice(&value.to_le_bytes());
    }
    tiff.extend_from_slice(&0u32.to_le_bytes());
    tiff.extend_from_slice(thumbnail);

    let mut payload = b"Exif\0\0".to_vec();
    payload.extend_from_slice(&tiff);
    let mut segment = vec![0xff, 0xe1];
    segment.extend_from_slice(&((payload.len() + 2) as u16).to_be_bytes());
    segment.extend_from_slice(&payload);
    let (soi, rest) = jpeg.split_at(2);
    [soi, &segment, rest].concat()
}

#[test]
fn a_camera_file_is_shown_upright_from_its_thumbnail_on() {
    let small = DynamicImage::ImageRgb8(RgbImage::from_pixel(4, 2, image::Rgb([90, 120, 160])));
    let file = camera_jpeg(6, &encoded(&small, ImageFormat::Jpeg));

    let preview: Decoded<()> = decode_preview("photo.jpg", &file).expect("there is a thumbnail");
    assert_eq!(preview.stage, Stage::Preview);
    assert_eq!(preview.size(), (2, 4));
    assert_eq!(preview.full_size, (8, 16));

    let whole = opened("photo.jpg", &file).unwrap();
    assert_eq!(whole.orientation, Orientation::Rotate90);
    assert_eq!(whole.size(), (8, 16));
    assert_eq!(whole.full_size, preview.full_size);
}

#[test]
fn fitted_sizes_are_what_floating_point_makes_of_them() {
    for limit in [1u32, 7, 100, 255, 256, 1024, 4096, 16384] {
        for (width, height) in [
            (1u32, 1u32),
            (17, 300),
            (1920, 1080),
            (6000, 4000),
            (4000, 6000),
            (20000, 3),
            (33333, 12345),
            (65535, 65535),
            (4097, 4095),
        ] {
            let longest = width.max(height);
            let expected = if longest <= limit {
                (width, height)
            } else {
                let scale = f64::from(limit) / f64::from(longest);
                let side = |side: u32| ((f64::from(side) * scale).round() as u32).max(1);
                (side(width), side(height))
            };
            assert_eq!(fitted_size(width, height, limit), expected, "{width}x{height} in {limit}");
        }
    }
}

#[test]
fn a_fitted_picture_has_the_fitted_size() {
    let pixels = Raster::from_raw(30, 10, [200, 100, 50, 255].repeat(300)).unwrap();
    let small = fit_within(&pixels, 10);
    assert_eq!(small.as_raster().dimensions(), (10, 3));
    assert_eq!(small.as_raster().get_pixel(5, 1), [200, 100, 50, 255]);
    assert!(matches!(fit_within(&pixels, 30), Applied::Borrowed(_)));
    assert!(matches!(for_upload(&pixels, 40), Applied::Borrowed(_)));
}

#[test]
fn a_side_too_long_to_sample_is_not_fitted_close_to_its_length() {
    assert!(can_fit((1, 16_777_217), 16_384));
    assert!(can_fit((1, 16_777_217), 16_777_217));
    assert!(!can_fit((1, 16_777_217), 16_777_216));
    assert!(can_fit((1, 8_388_608), 8_388_607));
    assert!(!can_fit((1, 8_388_609), 8_388_607));
    assert!(can_fit((0, u32::MAX), 5));
}

#[test]
fn the_longest_side_that_can_be_sampled_is_sampled() {
    let count = 8_388_608;
    let pixels = Raster::from_raw(1, count, [200, 100, 50, 255].repeat(count as usize)).unwrap();
    let small = fit_within(&pixels, count - 1);
    assert_eq!(small.as_raster().dimensions(), (1, count - 1));
    assert_eq!(small.as_raster().get_pixel(0, count - 2), [200, 100, 50, 255]);
}

#[test]
fn an_error_names_the_file_and_what_was_being_done() {
    for (fault, words) in [
        (Fault::Io, "could not read a.png: why"),
        (Fault::Image, "could not decode a.png: why"),
        (Fault::Svg, "could not render a.png: why"),
        (Fault::Jxl, "could not decode a.png: why"),
        (Fault::Avif, "could not decode a.png: why"),
    ] {
        assert_eq!(DecodeError::new(fault, "a.png", "why").message(), words);
    }
}
