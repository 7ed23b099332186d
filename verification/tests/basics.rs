//! Paths, texts, raw pictures, and the formats read byte by byte.

use imaginer::avif::{
    at, finish_avif, layout, narrow, narrow_row, refused, thread_count, AvifError, Layout,
};
use imaginer::decode::{DecodeError, Decoded};
use imaginer::metadata::Orientation;
use imaginer::path;
use imaginer::psd::{composite, unpack_rle, Reader};
use imaginer::raster::Raster;
use imaginer::text::{is_whitespace, parse_number, to_decimal, trim_text, Trim};

#[test]
fn a_path_is_taken_apart() {
    assert_eq!(path::file_name(r"C:\a\b.tar.gz"), Some("b.tar.gz".to_owned()));
    assert_eq!(path::file_stem(r"C:\a\b.tar.gz"), Some("b.tar".to_owned()));
    assert_eq!(path::extension(r"C:\a\b.tar.gz"), Some("gz".to_owned()));
    assert_eq!(path::parent(r"C:\a\b.tar.gz"), Some(r"C:\a".to_owned()));
    assert_eq!(path::extension(".hidden"), None);
    assert_eq!(path::file_name(r"C:\"), None);
    assert_eq!(path::parent(r"C:\"), None);
    assert_eq!(path::file_name("a/b.png"), Some("b.png".to_owned()));
}

#[test]
fn a_name_is_put_in_a_folder() {
    assert_eq!(path::join(r"C:\a", "b.png"), r"C:\a\b.png");
    assert_eq!(path::join(r"C:\a\", "b.png"), r"C:\a\b.png");
    assert_eq!(path::join("", "b.png"), "b.png");
}

#[test]
fn one_place_has_one_spelling() {
    assert_eq!(path::canonical(r"C:\a\.\b"), path::canonical(r"C:\a\b"));
    assert_eq!(path::canonical(r"C:\a\\b\"), path::canonical("C:/a/b"));
    assert_ne!(path::canonical(r"C:\a\b"), path::canonical(r"C:\a\c"));
}

#[test]
fn a_verbatim_path_is_taken_as_it_is_written() {
    let name = |path: &str| path::file_name(path);
    assert_eq!(name(r"\\?\C:\a\b.png"), Some("b.png".to_owned()));
    assert_eq!(name(r"\\?\UNC\srv\share"), None);
    assert_eq!(name(r"\\?\UNC\srv\share\b.png"), Some("b.png".to_owned()));
    assert_eq!(name(r"\\?\thing"), None);
    assert_eq!(name(r"\\?\C:\a/b.png"), Some("a/b.png".to_owned()));
    assert_eq!(name(r"\\?\C:\a\."), None);
    assert_eq!(name(r"\\.\COM1"), None);
    assert_eq!(name(r"\\srv\share\b.png"), Some("b.png".to_owned()));
    assert_eq!(path::parent(r"\\?\C:\a\b.png"), Some(r"\\?\C:\a".to_owned()));
    assert_eq!(path::parent(r"\\?\UNC\srv\share"), None);
    assert_eq!(path::parent("C:."), None);
    assert_eq!(path::join(r"\\?\C:\a/", "b.png"), r"\\?\C:\a/\b.png");

    assert_eq!(path::canonical(r"\\?\c:\x"), path::canonical(r"\\?\C:\x"));
    assert_eq!(path::canonical(r"\\?\UNC/s\h\x"), path::canonical(r"\\?\UNC\s\h\x"));
    assert_ne!(path::canonical(r"\\?\C:\a\.\b"), path::canonical(r"\\?\C:\a\b"));
    assert_ne!(path::canonical(r"\\?\C:\x"), path::canonical(r"C:\x"));
    assert_eq!(path::canonical("//./COM1"), path::canonical(r"\\.\COM1"));
    assert_eq!(path::canonical("//s/h"), path::canonical(r"\\s\h\"));
}

#[test]
fn white_space_is_what_unicode_says() {
    for n in 0..0x11_0000u32 {
        if let Some(c) = char::from_u32(n) {
            assert_eq!(is_whitespace(c), c.is_whitespace(), "{n:x}");
        }
    }
}

#[test]
fn numbers_are_read_as_they_are_written() {
    let read = |text: &str, limit: u64| {
        parse_number(&text.chars().collect::<Vec<char>>(), limit)
    };
    for text in ["0", "7", "007", "+9", "255", "256", "18446744073709551615", "", "+", "-1", "1a"] {
        assert_eq!(read(text, u64::MAX), text.parse::<u64>().ok(), "{text}");
        assert_eq!(read(text, 255), text.parse::<u8>().ok().map(u64::from), "{text}");
    }
    assert_eq!(read("18446744073709551616", u64::MAX), None);
    for n in [0u64, 1, 9, 10, 1234567890, u64::MAX] {
        assert_eq!(to_decimal(n), n.to_string());
    }
}

#[test]
fn ends_are_trimmed() {
    assert_eq!(trim_text(" \t a b \n", Trim::Space), "a b");
    assert_eq!(trim_text("\"\"a\"b\"", Trim::Quotes), "a\"b");
    assert_eq!(trim_text("ab \0\0", Trim::SpaceOrNul), "ab");
}

#[test]
fn bytes_are_a_picture_only_if_there_are_enough() {
    assert!(Raster::from_raw(2, 2, vec![0; 15]).is_none());
    let raster = Raster::from_raw(2, 1, vec![1, 2, 3, 4, 5, 6, 7, 8, 9]).unwrap();
    assert_eq!(raster.get_pixel(1, 0), [5, 6, 7, 8]);
    assert!(raster.has_transparency());
    assert!(!Raster::from_raw(1, 1, vec![0, 0, 0, 255]).unwrap().has_transparency());
    assert!(Raster::from_raw(u32::MAX, u32::MAX, Vec::new()).is_none());
}

#[test]
fn packed_rows_are_unpacked() {
    assert_eq!(unpack_rle(&[2, 1, 2, 3], 3).unwrap(), [1, 2, 3]);
    assert_eq!(unpack_rle(&[254, 9], 3).unwrap(), [9, 9, 9]);
    // A code that stands for nothing.
    assert_eq!(unpack_rle(&[128, 0, 7], 1).unwrap(), [7]);
    assert!(unpack_rle(&[5, 1], 6).is_err());
    assert!(unpack_rle(&[254], 3).is_err());
    assert!(unpack_rle(&[0, 1], 2).is_err());
}

#[test]
fn a_reader_takes_only_what_is_there() {
    let data = [0x12, 0x34, 0, 0, 0, 2, 8, 9, 7];
    let mut reader = Reader::new(&data);
    assert_eq!(reader.u16be(), Some(0x1234));
    assert_eq!(reader.skip_section(), Some(()));
    assert_eq!(reader.take(1), Some(&[7u8][..]));
    assert_eq!(reader.take(1), None);
    assert_eq!(Reader::new(&data[..3]).u32be(), None);
}

fn psd(mode: u16, channels: u16, depth: u16, body: &[u8]) -> Vec<u8> {
    let mut file = b"8BPS\0\x01".to_vec();
    file.extend_from_slice(&[0; 6]);
    file.extend_from_slice(&channels.to_be_bytes());
    file.extend_from_slice(&1u32.to_be_bytes());
    file.extend_from_slice(&1u32.to_be_bytes());
    file.extend_from_slice(&depth.to_be_bytes());
    file.extend_from_slice(&mode.to_be_bytes());
    file.extend_from_slice(&[0; 12]);
    file.extend_from_slice(&0u16.to_be_bytes());
    file.extend_from_slice(body);
    file
}

#[test]
fn a_composite_is_read_in_each_colour_mode() {
    let rgb = composite(&psd(3, 3, 8, &[1, 2, 3])).unwrap();
    assert_eq!(rgb.pixels, [1, 2, 3, 255]);
    let grey = composite(&psd(1, 1, 8, &[9])).unwrap();
    assert_eq!(grey.pixels, [9, 9, 9, 255]);
    assert!(composite(&psd(3, 3, 5, &[1, 2, 3])).is_err());
    assert!(composite(b"8BPX").is_err());
    assert!(composite(&psd(4, 3, 8, &[1, 2, 3])).is_err());
}

#[test]
fn deep_samples_are_narrowed_to_eight_bits() {
    assert_eq!(narrow(1023, 10), 255);
    assert_eq!(narrow(0, 10), 0);
    assert_eq!(narrow(4095, 12), 255);
    assert_eq!(narrow(77, 8), 77);
    assert_eq!(narrow_row(&[0, 512, 1023], 10), [0, narrow(512, 10), 255]);
}

#[test]
fn an_avif_error_says_what_happened() {
    assert_eq!(AvifError::Container("x".to_owned()).message(), "not valid AVIF: x");
    assert_eq!(AvifError::Codec("x".to_owned()).message(), "cannot decode the AV1 picture: x");
    assert_eq!(AvifError::Unavailable.message(), "the AV1 decoder could not be started");
    assert_eq!(AvifError::TimedOut.message(), "the AV1 decoder did not finish within 20s");
    assert_eq!(
        AvifError::Size { width: 3, height: 0 }.message(),
        "decoded to 3x0, which is not an image"
    );
    assert!(matches!(refused(true, "late".to_owned()), AvifError::TimedOut));
    assert!(matches!(refused(false, "x".to_owned()), AvifError::Codec(_)));
    let error = at("a.avif", &AvifError::TimedOut);
    assert!(matches!(error, DecodeError::Avif { .. }));
    assert_eq!(
        error.message(),
        "could not decode a.avif: the AV1 decoder did not finish within 20s"
    );
}

#[test]
fn an_avif_picture_is_finished_upright() {
    let decoded: Decoded<()> =
        finish_avif(2, 1, vec![1, 0, 0, 255, 2, 0, 0, 255], Orientation::Rotate90).unwrap();
    assert_eq!(decoded.full_size, (1, 2));
    assert_eq!(decoded.pixels.get_pixel(0, 0), [1, 0, 0, 255]);
    assert!(finish_avif::<()>(2, 2, vec![0; 4], Orientation::Normal).is_err());
}

#[test]
fn an_av1_picture_has_a_known_layout() {
    assert_eq!(layout(0), Layout::Monochrome);
    assert_eq!(layout(3), Layout::Yuv444);
    assert_eq!(thread_count(64), 4);
    assert_eq!(thread_count(2), 2);
}
