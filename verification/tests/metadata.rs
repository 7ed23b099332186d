//! What a camera records.

use image::{DynamicImage, ImageFormat, RgbImage};
use imaginer::coordinates::decimal_degrees;
use imaginer::decode::{decode_full, Opened};
use imaginer::metadata::{orientation_from_exif, read_orientation, Info, Orientation};
use imaginer::raster::Raster;
use std::io::Cursor;

const MAKE: u16 = 0x010f;
const MODEL: u16 = 0x0110;
const SOFTWARE: u16 = 0x0131;

fn text_block(fields: &[(u16, &[u8; 4])]) -> Vec<u8> {
    let mut block = b"II*\0\x08\0\0\0".to_vec();
    block.extend_from_slice(&(fields.len() as u16).to_le_bytes());
    for &(tag, value) in fields {
        block.extend_from_slice(&tag.to_le_bytes());
        block.extend_from_slice(&2u16.to_le_bytes());
        block.extend_from_slice(&4u32.to_le_bytes());
        block.extend_from_slice(value);
    }
    block.extend_from_slice(&0u32.to_le_bytes());
    block
}

fn exif_with_text(fields: &[(u16, &[u8; 4])]) -> exif::Exif {
    exif::Reader::new().read_raw(text_block(fields)).expect("hand-built EXIF should parse")
}

fn in_a_jpeg(block: &[u8]) -> Vec<u8> {
    let mut payload = b"Exif\0\0".to_vec();
    payload.extend_from_slice(block);

    let mut jpeg = Vec::new();
    DynamicImage::ImageRgb8(RgbImage::from_pixel(8, 8, image::Rgb([90, 120, 160])))
        .write_to(&mut Cursor::new(&mut jpeg), ImageFormat::Jpeg)
        .expect("encoding a solid 8x8 JPEG cannot fail");

    let mut segment = vec![0xff, 0xe1];
    segment.extend_from_slice(&((payload.len() + 2) as u16).to_be_bytes());
    segment.extend_from_slice(&payload);

    let (soi, rest) = jpeg.split_at(2);
    [soi, &segment, rest].concat()
}

#[test]
fn maps_known_exif_values() {
    assert_eq!(Orientation::from_exif_value(1), Orientation::Normal);
    assert_eq!(Orientation::from_exif_value(6), Orientation::Rotate90);
    assert_eq!(Orientation::from_exif_value(8), Orientation::Rotate270);
}

#[test]
fn out_of_range_orientation_falls_back_to_normal() {
    assert_eq!(Orientation::from_exif_value(0), Orientation::Normal);
    assert_eq!(Orientation::from_exif_value(99), Orientation::Normal);
}

#[test]
fn quarter_turns_swap_axes() {
    assert!(Orientation::Rotate90.swaps_axes());
    assert!(Orientation::Rotate270.swaps_axes());
    assert!(!Orientation::Rotate180.swaps_axes());
    assert!(!Orientation::FlipH.swaps_axes());
}

#[test]
fn rotate90_transposes_dimensions() {
    let rotated = Orientation::Rotate90.apply(Raster::new(4, 2));
    assert_eq!(rotated.dimensions(), (2, 4));
}

#[test]
fn a_file_with_no_exif_has_nothing_to_show() {
    assert!(Info::default().is_empty());
    assert!(Info::read(b"").is_empty());
    assert!(Info::read(b"definitely not an image").is_empty());
}

#[test]
fn reads_text_fields_into_the_section_they_belong_to() {
    let exif = exif_with_text(&[(MAKE, b"AB\0\0"), (MODEL, b"CD\0\0")]);
    let info = Info::from_exif(&exif);

    assert_eq!(info.sections.len(), 1, "only Camera has any tags present");
    let camera = &info.sections[0];
    assert_eq!(camera.title, "Camera");
    assert_eq!(camera.rows, vec![("Make", "AB".to_owned()), ("Model", "CD".to_owned())]);
}

#[test]
fn sections_come_out_in_a_fixed_order_whatever_the_file_holds() {
    let exif = exif_with_text(&[(MAKE, b"AB\0\0"), (SOFTWARE, b"XY\0\0")]);
    let titles: Vec<_> = Info::from_exif(&exif).sections.iter().map(|s| s.title).collect();
    assert_eq!(titles, vec!["Camera", "Image"]);
}

#[test]
fn text_is_stripped_of_the_padding_cameras_write() {
    let exif = exif_with_text(&[(MAKE, b"AB \0"), (MODEL, b"   \0")]);
    let camera = &Info::from_exif(&exif).sections[0];
    assert_eq!(camera.rows, vec![("Make", "AB".to_owned())]);
}

#[test]
fn finds_the_exif_block_inside_a_real_jpeg() {
    let file = in_a_jpeg(&text_block(&[(MAKE, b"AB\0\0")]));

    let info = Info::read(&file);
    assert_eq!(info.sections.len(), 1);
    assert_eq!(info.sections[0].rows, vec![("Make", "AB".to_owned())]);

    match decode_full::<()>("info.jpg", &file) {
        Ok(Opened::Image(decoded)) => assert_eq!(decoded.size(), (8, 8)),
        other => panic!("expected an image, got {other:?}"),
    }
}

#[test]
fn coordinates_are_signed_by_their_hemisphere() {
    let south = decimal_degrees((6, 1), (10, 1), (314112, 10000), true);
    assert_eq!(south, "-6.175392");

    let east = decimal_degrees((106, 1), (49, 1), (377508, 10000), false);
    assert_eq!(east, "106.827153");

    assert_eq!(
        format!("-{}", decimal_degrees((12, 1), (30, 1), (0, 1), false)),
        decimal_degrees((12, 1), (30, 1), (0, 1), true)
    );
}

#[test]
fn coordinates_are_what_floating_point_makes_of_them() {
    for (degrees, minutes, seconds) in [
        ((0u32, 1u32), (0u32, 1u32), (0u32, 1u32)),
        ((51, 1), (30, 1), (2634, 100)),
        ((7, 1), (59, 1), (599999, 10000)),
        ((123456789, 1000000), (0, 1), (1, 3)),
        ((89, 1), (1, 7), (22, 7)),
        ((179, 1), (595959, 10000), (1, 99)),
    ] {
        let part = |p: (u32, u32)| f64::from(p.0) / f64::from(p.1);
        let value = part(degrees) + part(minutes) / 60.0 + part(seconds) / 3600.0;
        assert_eq!(decimal_degrees(degrees, minutes, seconds, false), format!("{value:.6}"));
        assert_eq!(decimal_degrees(degrees, minutes, seconds, true), format!("{:.6}", -value));
    }
}

#[test]
fn an_orientation_turns_every_pixel_upright() {
    // Four corners of a 2x1 picture, told apart by their red.
    let stored = || Raster::from_raw(2, 1, vec![1, 0, 0, 255, 2, 0, 0, 255]).unwrap();
    let reds = |raster: &Raster| raster.pixels.chunks_exact(4).map(|p| p[0]).collect::<Vec<u8>>();
    let cases = [
        (1, (2, 1), vec![1, 2]),
        (2, (2, 1), vec![2, 1]),
        (3, (2, 1), vec![2, 1]),
        (4, (2, 1), vec![1, 2]),
        (5, (1, 2), vec![1, 2]),
        (6, (1, 2), vec![1, 2]),
        (7, (1, 2), vec![2, 1]),
        (8, (1, 2), vec![2, 1]),
    ];
    for (value, size, expected) in cases {
        let upright = Orientation::from_exif_value(value).apply(stored());
        assert_eq!(upright.dimensions(), size, "orientation {value}");
        assert_eq!(reds(&upright), expected, "orientation {value}");
    }
}

#[test]
fn the_diagonal_orientations_mirror_along_their_own_diagonal() {
    // Three by two, every pixel told apart by its red:
    //   1 2 3
    //   4 5 6
    let stored = || {
        let bytes = (1..=6).flat_map(|red| [red, 0, 0, 255]).collect();
        Raster::from_raw(3, 2, bytes).unwrap()
    };
    let reds = |raster: &Raster| raster.pixels.chunks_exact(4).map(|p| p[0]).collect::<Vec<u8>>();

    let transposed = Orientation::from_exif_value(5).apply(stored());
    assert_eq!(transposed.dimensions(), (2, 3));
    assert_eq!(reds(&transposed), [1, 4, 2, 5, 3, 6]);

    let transverse = Orientation::from_exif_value(7).apply(stored());
    assert_eq!(transverse.dimensions(), (2, 3));
    assert_eq!(reds(&transverse), [6, 3, 5, 2, 4, 1]);
}

#[test]
fn an_orientation_is_read_from_its_tag() {
    let mut block = b"II*\0\x08\0\0\0".to_vec();
    block.extend_from_slice(&1u16.to_le_bytes());
    block.extend_from_slice(&0x0112u16.to_le_bytes());
    block.extend_from_slice(&3u16.to_le_bytes());
    block.extend_from_slice(&1u32.to_le_bytes());
    block.extend_from_slice(&8u32.to_le_bytes());
    block.extend_from_slice(&0u32.to_le_bytes());
    let exif = exif::Reader::new().read_raw(block.clone()).unwrap();
    assert_eq!(orientation_from_exif(&exif), Orientation::Rotate270);
    assert_eq!(read_orientation(&in_a_jpeg(&block)), Orientation::Rotate270);
    assert_eq!(read_orientation(b"nothing"), Orientation::Normal);
}

fn gps_block(latitude_ref: &[u8; 4], longitude_ref: &[u8; 4]) -> Vec<u8> {
    let mut block = b"II*\0\x08\0\0\0".to_vec();
    block.extend_from_slice(&1u16.to_le_bytes());
    block.extend_from_slice(&0x8825u16.to_le_bytes());
    block.extend_from_slice(&4u16.to_le_bytes());
    block.extend_from_slice(&1u32.to_le_bytes());
    let gps = block.len() as u32 + 8;
    block.extend_from_slice(&gps.to_le_bytes());
    block.extend_from_slice(&0u32.to_le_bytes());
    let data = gps + 2 + 4 * 12 + 4;
    block.extend_from_slice(&4u16.to_le_bytes());
    for (tag, kind, count, value) in [
        (1u16, 2u16, 2u32, *latitude_ref),
        (2, 5, 3, data.to_le_bytes()),
        (3, 2, 2, *longitude_ref),
        (4, 5, 3, (data + 24).to_le_bytes()),
    ] {
        block.extend_from_slice(&tag.to_le_bytes());
        block.extend_from_slice(&kind.to_le_bytes());
        block.extend_from_slice(&count.to_le_bytes());
        block.extend_from_slice(&value);
    }
    block.extend_from_slice(&0u32.to_le_bytes());
    for number in [6u32, 1, 10, 1, 314112, 10000, 106, 1, 49, 1, 377508, 10000] {
        block.extend_from_slice(&number.to_le_bytes());
    }
    block
}

#[test]
fn a_place_is_shown_in_signed_degrees() {
    let exif = exif::Reader::new().read_raw(gps_block(b"S\0\0\0", b"E\0\0\0")).unwrap();
    let info = Info::from_exif(&exif);
    let place = info.sections.last().expect("there is a place");
    assert_eq!(place.title, "Location");
    let shown: Vec<&str> = place.rows.iter().map(|row| row.1.as_str()).collect();
    assert!(shown.iter().any(|text| text.contains("-6.175392")), "{shown:?}");
    assert!(shown.iter().any(|text| text.contains("106.827153")), "{shown:?}");
}
