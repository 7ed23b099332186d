//! Writing files.

use image::ImageReader;
use std::io::Cursor;

use imaginer::export::{
    assemble_icon, bmp_entry, can_export, encode, flatten_onto_white, icon_sizes, scale,
    square_canvas, webp_answer, webp_request, ExportError, Format, Settings, ICON_SIZES, LARGEST_BMP_ENTRY,
};
use imaginer::raster::Raster;

fn drawn(width: u32, height: u32, f: impl Fn(u32, u32) -> [u8; 4]) -> Raster {
    let mut bytes = Vec::new();
    for y in 0..height {
        for x in 0..width {
            bytes.extend_from_slice(&f(x, y));
        }
    }
    Raster::from_raw(width, height, bytes).unwrap()
}

fn opaque(width: u32, height: u32) -> Raster {
    drawn(width, height, |_, _| [12, 200, 90, 255])
}

/// A gradient with a little structure.
fn artwork(width: u32, height: u32) -> Raster {
    drawn(width, height, |x, y| {
        let r = (x * 255 / width.max(1)) as u8;
        let g = (y * 255 / height.max(1)) as u8;
        [r, g, r ^ g, 255]
    })
}

fn with_format(format: Format) -> Settings {
    Settings { format, ..Settings::default() }
}

fn dimensions(file: &[u8]) -> (u32, u32) {
    ImageReader::new(Cursor::new(file))
        .with_guessed_format()
        .unwrap()
        .into_dimensions()
        .unwrap()
}

fn read_back(file: &[u8]) -> image::RgbaImage {
    image::load_from_memory(file).unwrap().to_rgba8()
}

#[test]
fn recognises_the_formats_it_can_write() {
    assert_eq!(Format::from_path("a.PNG"), Some(Format::Png));
    assert_eq!(Format::from_path("a.jpeg"), Some(Format::Jpeg));
    assert_eq!(Format::from_path("a.jpg"), Some(Format::Jpeg));
    assert_eq!(Format::from_path("a.WEBP"), Some(Format::WebP));
    assert_eq!(Format::from_path("a.ico"), Some(Format::Ico));
    assert_eq!(Format::from_path("a.tiff"), None);
}

#[test]
fn webp_quality_is_a_dial_that_actually_moves_the_file_size() {
    let src = artwork(200, 150);
    let at = |quality: u8| {
        encode(&src, &Settings { format: Format::WebP, quality, ..Settings::default() }).unwrap()
    };
    let (low, high) = (at(20), at(95));
    assert!(
        low.len() < high.len(),
        "quality 20 gave {}B, quality 95 gave {}B",
        low.len(),
        high.len()
    );
    assert_eq!(dimensions(&high), (200, 150));
}

#[test]
fn webp_at_full_quality_is_lossless_rather_than_merely_expensive() {
    let src = artwork(64, 64);
    let settings = Settings { format: Format::WebP, quality: 100, ..Settings::default() };
    let file = encode(&src, &settings).unwrap();
    assert_eq!(*read_back(&file).as_raw(), src.pixels);
}

/// One entry of an icon's directory.
struct Entry {
    size: u32,
    bytes: usize,
    is_png: bool,
}

fn entries(file: &[u8]) -> Vec<Entry> {
    let count = u16::from_le_bytes([file[4], file[5]]) as usize;
    (0..count)
        .map(|i| {
            let at = 6 + i * 16;
            let field = |o: usize| {
                u32::from_le_bytes(file[at + o..at + o + 4].try_into().unwrap()) as usize
            };
            let offset = field(12);
            Entry {
                size: if file[at] == 0 { 256 } else { u32::from(file[at]) },
                bytes: field(8),
                is_png: file[offset..offset + 4] == [0x89, b'P', b'N', b'G'],
            }
        })
        .collect()
}

fn icon(src: &Raster) -> Vec<u8> {
    encode(src, &with_format(Format::Ico)).unwrap()
}

fn sizes(file: &[u8]) -> Vec<u32> {
    entries(file).iter().map(|e| e.size).collect()
}

#[test]
fn an_icon_holds_the_whole_ladder_and_stays_small() {
    let file = icon(&artwork(512, 512));
    assert_eq!(dimensions(&file), (256, 256));
    assert_eq!(sizes(&file), ICON_SIZES);
    assert!(file.len() < 128 * 1024, "icon is {}B, which is not small", file.len());
}

#[test]
fn only_the_largest_entry_is_png_because_gdi_cannot_read_the_others() {
    for entry in entries(&icon(&artwork(512, 512))) {
        assert_eq!(
            entry.is_png,
            entry.size > LARGEST_BMP_ENTRY,
            "the {}px entry is stored as {}",
            entry.size,
            if entry.is_png { "PNG" } else { "BMP" },
        );
    }
}

#[test]
fn bmp_entries_are_byte_for_byte_the_size_windows_writes() {
    let expected = [
        (16, 1_128),
        (20, 1_720),
        (24, 2_440),
        (32, 4_264),
        (40, 6_760),
        (48, 9_640),
        (64, 16_936),
    ];
    let written = entries(&icon(&artwork(512, 512)));
    for (size, bytes) in expected {
        let entry = written
            .iter()
            .find(|e| e.size == size)
            .unwrap_or_else(|| panic!("no {size}px entry"));
        assert_eq!(entry.bytes, bytes, "the {size}px entry is the wrong size");
    }
}

#[test]
fn a_bmp_entry_declares_double_height_and_runs_bottom_up_in_bgra() {
    let src = drawn(1, 1, |_, _| [10, 20, 30, 255]);
    let entry = bmp_entry(&src);

    assert_eq!(u32::from_le_bytes(entry[0..4].try_into().unwrap()), 40);
    assert_eq!(i32::from_le_bytes(entry[4..8].try_into().unwrap()), 1);
    assert_eq!(i32::from_le_bytes(entry[8..12].try_into().unwrap()), 2);
    assert_eq!(u16::from_le_bytes(entry[14..16].try_into().unwrap()), 32);

    assert_eq!(entry[40..44], [30, 20, 10, 255]);

    assert_eq!(entry.len(), 40 + 4 + 4);
    assert_eq!(entry[44..48], [0, 0, 0, 0]);

    // Two rows, to see which comes first.
    let tall = drawn(1, 2, |_, y| [y as u8, 0, 0, 255]);
    assert_eq!(bmp_entry(&tall)[40..48], [0, 0, 1, 255, 0, 0, 0, 255]);
}

#[test]
fn the_mask_marks_transparent_pixels_for_the_paths_that_ignore_alpha() {
    let src = drawn(2, 1, |x, _| if x == 0 { [0, 0, 0, 0] } else { [1, 2, 3, 255] });
    let entry = bmp_entry(&src);
    let mask = entry[entry.len() - 4..].to_vec();
    assert_eq!(mask[0], 0b1000_0000);
}

#[test]
fn a_source_smaller_than_the_ladder_does_not_invent_pixels() {
    assert_eq!(sizes(&icon(&artwork(20, 20))), [20, 16]);
}

#[test]
fn a_source_smaller_than_every_rung_still_produces_an_icon() {
    assert_eq!(sizes(&icon(&artwork(9, 9))), [9]);
}

#[test]
fn a_non_square_source_is_padded_rather_than_squashed() {
    let src = artwork(40, 10);
    let square = square_canvas(&src);
    let square = square.as_raster();

    assert_eq!(square.dimensions(), (40, 40));
    assert_eq!(square.get_pixel(0, 15), src.get_pixel(0, 0));
    assert_eq!(square.get_pixel(0, 0)[3], 0);
}

#[test]
fn an_icon_ignores_the_scale_slider() {
    let settings = Settings { format: Format::Ico, scale_percent: 25, ..Settings::default() };
    assert_eq!(settings.size_after((512, 512)), (512, 512));
}

#[test]
fn writes_a_png_at_the_original_size() {
    let src = opaque(6, 4);
    let file = encode(&src, &Settings::default()).unwrap();
    assert_eq!(dimensions(&file), (6, 4));
    assert_eq!(*read_back(&file).as_raw(), src.pixels);
}

#[test]
fn scaling_is_applied_on_the_way_out() {
    let settings = Settings { scale_percent: 50, ..Settings::default() };
    let file = encode(&opaque(10, 8), &settings).unwrap();
    assert_eq!(dimensions(&file), (5, 4));
}

#[test]
fn a_transparent_pixel_lands_on_white_in_a_jpeg() {
    let pixels = drawn(8, 8, |x, y| {
        if (x, y) == (0, 0) {
            [0, 0, 0, 0]
        } else {
            [12, 200, 90, 255]
        }
    });
    let file = encode(&pixels, &with_format(Format::Jpeg)).unwrap();
    let [r, g, b, _] = read_back(&file).get_pixel(0, 0).0;
    assert!(r > 200 && g > 200 && b > 200, "got {r},{g},{b}");
}

#[test]
fn scale_of_one_hundred_percent_changes_nothing() {
    let settings = Settings::default();
    assert_eq!(settings.size_after((37, 11)), (37, 11));
}

#[test]
fn scaling_never_rounds_a_dimension_away() {
    let settings = Settings { scale_percent: 1, ..Settings::default() };
    assert_eq!(settings.size_after((10, 10)), (1, 1));
}

#[test]
fn every_scaled_side_is_what_floating_point_makes_of_it() {
    for percent in [1u32, 5, 7, 33, 50, 66, 99, 101, 150, 199, 200] {
        let settings = Settings { scale_percent: percent, ..Settings::default() };
        let factor = f64::from(percent) / 100.0;
        for side in [1u32, 2, 3, 9, 10, 37, 255, 1001, 4096, 65535, 1_000_000, u32::MAX] {
            let expected = ((f64::from(side) * factor).round() as u32).max(1);
            assert_eq!(settings.size_after((side, 1)).0, expected, "{side} at {percent}%");
        }
    }
}

#[test]
fn a_bmp_keeps_every_pixel() {
    let src = artwork(13, 7);
    let file = encode(&src, &with_format(Format::Bmp)).unwrap();
    assert_eq!(*read_back(&file).as_raw(), src.pixels);
}

#[test]
fn a_picture_without_pixels_cannot_be_written() {
    let nothing = Raster::from_raw(0, 0, Vec::new()).unwrap();
    assert!(encode(&nothing, &Settings::default()).is_err());
    assert!(encode(&nothing, &with_format(Format::Jpeg)).is_err());
}

#[test]
fn formats_say_what_they_are() {
    assert_eq!(Format::all().len(), 5);
    assert_eq!(Format::Jpeg.extension(), "jpg");
    assert_eq!(Format::WebP.label(), "WebP");
    assert!(Format::Jpeg.is_lossy() && Format::WebP.is_lossy());
    assert!(!Format::Png.is_lossy() && !Format::Bmp.is_lossy() && !Format::Ico.is_lossy());
    assert!(!Format::Jpeg.keeps_alpha() && Format::Png.keeps_alpha());
    assert!(Format::Ico.has_fixed_sizes() && !Format::Png.has_fixed_sizes());
    assert_eq!(Format::from_name(".webp"), Some(Format::WebP));
    assert_eq!(Format::from_name("gif"), None);
    for format in Format::all() {
        assert_eq!(Format::from_name(format.extension()), Some(format));
    }
}

#[test]
fn an_export_error_names_the_file() {
    let error = ExportError::at("out.png", "no room");
    assert_eq!(error.message(), "could not write out.png: no room");
}

#[test]
fn an_icon_takes_the_rungs_its_source_can_fill() {
    assert_eq!(icon_sizes(512), ICON_SIZES);
    assert_eq!(icon_sizes(48), [48, 40, 32, 24, 20, 16]);
    assert_eq!(icon_sizes(3), [3]);
}

#[test]
fn an_icon_is_its_frames_in_order() {
    let frames = vec![artwork(16, 16), artwork(9, 9)];
    let file = assemble_icon(&frames).unwrap();
    assert_eq!(sizes(&file), [16, 9]);
    assert_eq!(file[..6], [0, 0, 1, 0, 2, 0]);
}

#[test]
fn flattening_mixes_with_white() {
    let src = Raster::from_raw(3, 1, vec![10, 20, 30, 255, 0, 0, 0, 0, 100, 0, 200, 128]).unwrap();
    let rgb = flatten_onto_white(&src);
    assert_eq!(rgb[..6], [10, 20, 30, 255, 255, 255]);
    let mixed = |c: u32| ((c * 128 + 255 * 127) / 255) as u8;
    assert_eq!(rgb[6..], [mixed(100), mixed(0), mixed(200)]);
}

#[test]
fn webp_is_lossless_only_at_full_quality() {
    assert!(webp_request(100).0);
    assert!(!webp_request(99).0);
    assert_eq!(webp_request(80), (false, 80));
}

#[test]
fn scaling_keeps_a_flat_colour_flat() {
    let src = opaque(10, 8);
    let settings = Settings { scale_percent: 150, ..Settings::default() };
    let scaled = scale(&src, &settings);
    assert_eq!(scaled.as_raster().dimensions(), (15, 12));
    assert_eq!(scaled.as_raster().get_pixel(7, 6), [12, 200, 90, 255]);
    assert!(can_export(&settings, (10, 8)));
}

#[test]
fn a_side_too_long_to_sample_is_not_exported_at_another_size() {
    let half = Settings { scale_percent: 50, ..Settings::default() };
    assert!(can_export(&half, (1, 8_388_608)));
    assert!(!can_export(&half, (1, 8_388_609)));
    assert!(!can_export(&half, (8_388_609, 1)));
    // At its own size there is nothing to sample.
    assert!(can_export(&Settings::default(), (1, 8_388_609)));
    let double = Settings { scale_percent: 200, ..Settings::default() };
    assert!(can_export(&double, (1, 4_194_304)));
    assert!(!can_export(&double, (1, 4_194_305)));
    assert!(!can_export(&with_format(Format::Ico), (1, 8_388_609)));
    assert!(can_export(&with_format(Format::Ico), (1, 4096)));
}

#[test]
fn a_webp_encoder_that_says_nothing_has_failed() {
    assert_eq!(webp_answer(Ok(Vec::new())).unwrap_err(), "libwebp produced no data");
    assert_eq!(webp_answer(Ok(vec![7])).unwrap(), [7]);
    assert_eq!(webp_answer(Err("why".to_owned())).unwrap_err(), "why");
}

#[test]
fn a_webp_has_sides_of_at_most_16383() {
    let wide = encode(&opaque(16384, 1), &with_format(Format::WebP));
    assert_eq!(wide.unwrap_err(), "VP8_ENC_ERROR_BAD_DIMENSION");
    let tall = encode(&opaque(1, 16384), &with_format(Format::WebP));
    assert_eq!(tall.unwrap_err(), "VP8_ENC_ERROR_BAD_DIMENSION");
    let widest = encode(&opaque(16383, 1), &with_format(Format::WebP)).unwrap();
    assert_eq!(dimensions(&widest), (16383, 1));
}

#[test]
fn a_webp_starts_as_one() {
    let file = encode(&artwork(9, 5), &with_format(Format::WebP)).unwrap();
    assert_eq!(file[..4], *b"RIFF");
    assert_eq!(file[8..12], *b"WEBP");
}

#[test]
fn a_png_gives_see_through_pixels_back() {
    let src = drawn(7, 5, |x, y| [x as u8, y as u8, 200, (x * y) as u8]);
    let file = encode(&src, &with_format(Format::Png)).unwrap();
    assert_eq!(*read_back(&file).as_raw(), src.pixels);
}
