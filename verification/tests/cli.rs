//! The command line, and what a conversion reports.

use imaginer::cli::{parse, progress_line, report, Launch, Request};
use imaginer::convert::{convert_all, convert_file, destination_for, outcome, Outcome};
use imaginer::decode::{decode_full, DecodeError, Fault, Opened};
use imaginer::export::{Format, Settings};
use imaginer::path;
use imaginer::raster::Raster;
use imaginer::sizes::{human_bytes, saving};

fn parse_args(args: &[&str]) -> Result<Launch, String> {
    let full: Vec<String> =
        std::iter::once("imaginer").chain(args.iter().copied()).map(str::to_owned).collect();
    parse(&full)
}

fn convert_request(args: &[&str]) -> Request {
    match parse_args(args).unwrap() {
        Launch::Convert(request) => request,
        Launch::Viewer(_) => panic!("expected a conversion, got the viewer"),
    }
}

#[test]
fn no_arguments_opens_an_empty_viewer() {
    assert!(matches!(parse_args(&[]).unwrap(), Launch::Viewer(None)));
}

#[test]
fn a_bare_path_still_opens_the_viewer() {
    match parse_args(&[r"C:\photos\a.png"]).unwrap() {
        Launch::Viewer(Some(path)) => assert_eq!(path, r"C:\photos\a.png"),
        _ => panic!("expected the viewer on a file"),
    }
}

#[test]
fn convert_collects_every_file_and_defaults_the_quality() {
    let request = convert_request(&["--convert", "webp", "a.png", "b.jpg"]);

    assert_eq!(request.format, Format::WebP);
    assert_eq!(request.quality, Settings::default().quality);
    assert!(request.out_dir.is_none(), "the dialog should be the default");
    assert_eq!(request.files, ["a.png", "b.jpg"]);
}

#[test]
fn options_are_accepted_after_the_files_as_well_as_before() {
    let request = convert_request(&["--convert", "ico", "a.png", "--quality", "80"]);
    assert_eq!(request.quality, 80);
    assert_eq!(request.files, ["a.png"]);
}

#[test]
fn a_format_may_be_written_with_or_without_its_dot() {
    assert_eq!(convert_request(&["--convert", ".WEBP", "a.png"]).format, Format::WebP);
    assert_eq!(convert_request(&["--convert", "jpeg", "a.png"]).format, Format::Jpeg);
}

#[test]
fn out_skips_the_dialog() {
    let request = convert_request(&["--convert", "png", "--out", r"D:\web", "a.bmp"]);
    assert_eq!(request.out_dir, Some(r"D:\web".to_owned()));
}

#[test]
fn a_format_this_build_cannot_write_is_rejected_up_front() {
    let err = parse_args(&["--convert", "tiff", "a.png"]).unwrap_err();
    assert!(err.contains("tiff"), "unhelpful message: {err}");
    // Named in quotes, with what does not print escaped.
    let odd = parse_args(&["--convert", "t\"\n", "a.png"]).unwrap_err();
    assert!(odd.contains(&format!("{:?}", "t\"\n")), "unhelpful message: {odd}");
}

#[test]
fn quality_outside_the_dial_is_rejected() {
    assert!(parse_args(&["--convert", "webp", "--quality", "0", "a.png"]).is_err());
    assert!(parse_args(&["--convert", "webp", "--quality", "101", "a.png"]).is_err());
    assert!(parse_args(&["--convert", "webp", "--quality", "eighty", "a.png"]).is_err());
}

#[test]
fn convert_without_a_file_is_an_error_rather_than_a_silent_success() {
    assert!(parse_args(&["--convert", "webp"]).is_err());
}

#[test]
fn an_option_missing_its_value_says_so() {
    assert!(parse_args(&["--convert"]).is_err());
    assert!(parse_args(&["--convert", "webp", "a.png", "--out"]).is_err());
}

#[test]
fn an_unknown_option_is_not_mistaken_for_a_filename() {
    let err = parse_args(&["--convert", "webp", "--lossless", "a.png"]).unwrap_err();
    assert!(err.contains("--lossless"), "unhelpful message: {err}");
}

#[test]
fn byte_sizes_read_the_way_a_person_would_write_them() {
    assert_eq!(human_bytes(512), "512B");
    assert_eq!(human_bytes(1024), "1.0KB");
    assert_eq!(human_bytes(1024 * 1024 + 1024 * 512), "1.50MB");
}

#[test]
fn a_saving_is_only_claimed_when_the_file_actually_shrank() {
    assert_eq!(saving(1000, 250), " (75% smaller)");
    assert_eq!(saving(1000, 1000), "");
    assert_eq!(saving(1000, 2000), "");
    assert_eq!(saving(0, 100), "");
}

#[test]
fn sizes_in_words_are_what_floating_point_makes_of_them() {
    for bytes in [
        0u64,
        1,
        1023,
        1024,
        1075,
        1076,
        1536,
        51_712,
        1_048_575,
        1_048_576,
        1_053_818,
        5_242_879,
        1_073_741_823,
        1_073_741_824,
        123_456_789_012,
        9_007_199_254_740_993,
        u64::MAX,
    ] {
        let kb = bytes as f64 / 1024.0;
        let expected = if bytes < 1024 {
            format!("{bytes}B")
        } else if kb < 1024.0 {
            format!("{kb:.1}KB")
        } else {
            format!("{:.2}MB", kb / 1024.0)
        };
        assert_eq!(human_bytes(bytes), expected, "{bytes}");
    }
}

#[test]
fn savings_are_what_floating_point_makes_of_them() {
    for before in [1u64, 3, 7, 8, 40, 200, 1000, 12_345, 99_999, 1 << 40, u64::MAX] {
        for share in [0u64, 1, 5, 25, 50, 125, 333, 425, 500, 575, 875, 995, 999] {
            let after = (before as u128 * share as u128 / 1000) as u64;
            if after >= before {
                continue;
            }
            let percent = 100.0 - (after as f64 / before as f64) * 100.0;
            assert_eq!(
                saving(before, after),
                format!(" ({percent:.0}% smaller)"),
                "{before} to {after}"
            );
        }
    }
}

#[test]
fn the_destination_keeps_the_stem_and_takes_the_new_extension() {
    let out = destination_for(r"C:\photos\holiday.jpeg", r"D:\web", Format::WebP);
    assert_eq!(path::file_name(&out).unwrap(), "holiday.webp");
    assert_eq!(path::parent(&out).unwrap(), r"D:\web");
}

#[test]
fn a_dotted_stem_is_not_mistaken_for_an_extension() {
    let out = destination_for("logo.v2.png", "out", Format::Ico);
    assert_eq!(path::file_name(&out).unwrap(), "logo.v2.ico");
}

fn artwork(width: u32, height: u32) -> Raster {
    let mut bytes = Vec::new();
    for y in 0..height {
        for x in 0..width {
            bytes.extend_from_slice(&[(x * 5) as u8, (y * 7) as u8, 90, 255]);
        }
    }
    Raster::from_raw(width, height, bytes).unwrap()
}

fn settings(format: Format) -> Settings {
    Settings { format, ..Settings::default() }
}

fn png(raster: &Raster) -> Vec<u8> {
    imaginer::export::encode(raster, &Settings::default()).unwrap()
}

/// Converts a file that is there in memory.
fn convert(
    source: &str,
    file: &[u8],
    directory: &str,
    settings: &Settings,
) -> Result<(String, Vec<u8>), String> {
    let decoded = match decode_full::<()>(source, file) {
        Ok(Opened::Image(decoded)) => Ok(decoded),
        Ok(_) => Err(DecodeError::new(Fault::Svg, source, "not markup")),
        Err(error) => Err(error),
    };
    let product = match decoded {
        Ok(decoded) => convert_file(source, Ok(&decoded.pixels), directory, settings),
        Err(error) => convert_file(source, Err(error), directory, settings),
    };
    product.map(|product| (product.destination, product.file))
}

#[test]
fn converts_a_file_into_the_chosen_directory() {
    let file = png(&artwork(48, 32));
    let (written, webp) = convert("source.png", &file, "out", &settings(Format::WebP)).unwrap();

    assert_eq!(written, path::join("out", "source.webp"));
    assert_eq!(image::load_from_memory(&webp).unwrap().width(), 48);
    assert_eq!(image::load_from_memory(&webp).unwrap().height(), 32);
}

#[test]
fn one_bad_file_does_not_abandon_the_rest_of_the_batch() {
    let good = png(&artwork(20, 20));
    let sources: [(&str, &[u8]); 3] =
        [("one.png", &good), ("broken.png", b"not an image at all"), ("two.png", &good)];

    let mut batch = convert_all(sources.iter().map(|(source, _)| (*source).to_owned()).collect());
    let mut seen = 0;
    let mut written = Vec::new();
    while let Some(source) = batch.source() {
        let (name, file) = sources[seen];
        assert_eq!(source, name);
        let product = convert(source, file, "out", &settings(Format::Bmp));
        let bytes = product.as_ref().ok().map(|(_, file)| file.len() as u64);
        let destination = product.map(|(path, _)| path);
        written.extend(destination.clone());
        let (done, total) = batch.record(destination, bytes, Some(file.len() as u64));
        seen += 1;
        assert_eq!(total, 3);
        assert_eq!(done, seen);
    }

    assert_eq!(seen, 3);
    let outcomes = batch.outcomes();
    assert!(!outcomes[0].is_failure());
    assert!(outcomes[1].is_failure());
    assert_eq!(outcomes[1].source(), "broken.png");
    assert!(!outcomes[2].is_failure());
    assert_eq!(written, [path::join("out", "one.bmp"), path::join("out", "two.bmp")]);
}

#[test]
fn the_outcome_carries_both_sizes_so_the_saving_can_be_reported() {
    let bmp = imaginer::export::encode(&artwork(128, 128), &settings(Format::Bmp)).unwrap();
    let (path, webp) = convert("big.bmp", &bmp, "", &settings(Format::WebP)).unwrap();
    match outcome("big.bmp", Ok(path), Some(webp.len() as u64), Some(bmp.len() as u64)) {
        Outcome::Converted { bytes, source_bytes, .. } => {
            assert!(source_bytes > 0 && bytes > 0);
            assert!(bytes < source_bytes, "{bytes}B was not under {source_bytes}B");
        }
        other => panic!("expected a conversion, got {other:?}"),
    }
}

#[test]
fn a_missing_source_fails_that_file_and_names_it() {
    let error = DecodeError::new(Fault::Io, "nope.png", "no such file");
    let reason = convert_file("nope.png", Err(error), "out", &settings(Format::Png)).unwrap_err();
    match outcome("nope.png", Err(reason), None, None) {
        Outcome::Failed { source, reason } => {
            assert_eq!(source, "nope.png");
            assert!(reason.contains("nope.png"), "unhelpful reason: {reason}");
        }
        other => panic!("expected a failure, got {other:?}"),
    }
}

#[test]
fn a_conversion_reports_each_file_and_then_all() {
    let outcomes = vec![
        outcome("C:\\p\\one.png", Ok("D:\\one.webp".to_owned()), Some(512), Some(1024)),
        outcome("C:\\p\\two.png", Err("could not read it".to_owned()), None, None),
    ];
    assert_eq!(
        progress_line(1, 2, &outcomes[0]),
        "[1/2] D:\\one.webp \u{2014} 1.0KB to 512B (50% smaller)"
    );
    assert_eq!(
        progress_line(2, 2, &outcomes[1]),
        "[2/2] C:\\p\\two.png \u{2014} FAILED: could not read it"
    );

    let told = report(&outcomes, "D:\\");
    assert!(told.warning.is_some());
    let fine = report(&vec![outcome("a.png", Ok("b.webp".to_owned()), None, None)], "D:\\");
    assert!(fine.warning.is_none());
    assert!(!fine.summary.is_empty());
}

#[test]
fn a_request_says_how_its_files_are_written() {
    let request = convert_request(&["--convert", "jpg", "--quality", "71", r"C:\p\a.png", "b.png"]);
    let settings = request.settings();
    assert_eq!(settings.format, Format::Jpeg);
    assert_eq!(settings.quality, 71);
    assert_eq!(settings.scale_percent, 100);
    assert_eq!(request.starting_folder(), Some(r"C:\p".to_owned()));
    assert!(request.heading().contains('2'), "{}", request.heading());
    assert!(request.question().contains("JPEG"), "{}", request.question());
}

#[test]
fn runs_of_one_kind_share_a_batch() {
    let key = |args: &[&str]| convert_request(args).batch_key();
    assert_eq!(key(&["--convert", "jpg", "--quality", "85", "a.png"]), "jpg-85");
    assert_eq!(key(&["--convert", "jpg", "--quality", "85", "b.png"]), "jpg-85");
    assert_eq!(key(&["--convert", "webp", "--quality", "7", "a.png"]), "webp-7");
}
