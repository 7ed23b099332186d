//! Colour adjustments.

use imaginer::adjust::{Adjust, LIMIT};
use imaginer::raster::Raster;

fn pixel(r: u8, g: u8, b: u8, a: u8) -> Raster {
    Raster::from_raw(1, 1, vec![r, g, b, a]).unwrap()
}

fn adjusted(adjust: Adjust, r: u8, g: u8, b: u8) -> [u8; 4] {
    let mut image = pixel(r, g, b, 128);
    adjust.apply(&mut image);
    image.get_pixel(0, 0)
}

fn only_brightness(brightness: i16) -> Adjust {
    Adjust { brightness, contrast: 0, saturation: 0 }
}

fn only_contrast(contrast: i16) -> Adjust {
    Adjust { brightness: 0, contrast, saturation: 0 }
}

fn only_saturation(saturation: i16) -> Adjust {
    Adjust { brightness: 0, contrast: 0, saturation }
}

/// The adjustment in the machine's own floating point.
fn in_floats(adjust: Adjust, rgb: [u8; 3]) -> [u8; 3] {
    let brightness = adjust.brightness as f32 / 100.0;
    let contrast = 1.0 + adjust.contrast as f32 / 100.0;
    let saturation = 1.0 + adjust.saturation as f32 / 100.0;
    let tone = |value: u8| ((value as f32 / 255.0 + brightness) - 0.5) * contrast + 0.5;
    let byte = |value: f32| (value.clamp(0.0, 1.0) * 255.0).round() as u8;
    let toned = [tone(rgb[0]), tone(rgb[1]), tone(rgb[2])];
    if adjust.saturation == 0 {
        return [byte(toned[0]), byte(toned[1]), byte(toned[2])];
    }
    let luma = 0.2126f32 * toned[0] + 0.7152f32 * toned[1] + 0.0722f32 * toned[2];
    [
        byte(luma + (toned[0] - luma) * saturation),
        byte(luma + (toned[1] - luma) * saturation),
        byte(luma + (toned[2] - luma) * saturation),
    ]
}

#[test]
fn no_adjustment_changes_nothing() {
    let before = pixel(10, 120, 250, 77);
    let mut after = before.clone();
    Adjust::none().apply(&mut after);
    assert_eq!(after, before);
}

#[test]
fn alpha_is_never_touched() {
    let out = adjusted(Adjust { brightness: 50, contrast: 40, saturation: -80 }, 10, 120, 250);
    assert_eq!(out[3], 128);
}

#[test]
fn full_brightness_reaches_white_and_full_darkness_reaches_black() {
    assert_eq!(adjusted(only_brightness(LIMIT), 10, 120, 250)[..3], [255, 255, 255]);
    assert_eq!(adjusted(only_brightness(-LIMIT), 10, 120, 250)[..3], [0, 0, 0]);
}

#[test]
fn contrast_pivots_about_mid_grey() {
    let up = only_contrast(50);
    let middle = adjusted(up, 128, 128, 128);
    assert!(middle[0].abs_diff(128) <= 1, "mid grey moved to {}", middle[0]);
    assert!(adjusted(up, 200, 200, 200)[0] > 200);
    assert!(adjusted(up, 60, 60, 60)[0] < 60);
}

#[test]
fn flattening_contrast_takes_everything_to_mid_grey() {
    assert_eq!(adjusted(only_contrast(-LIMIT), 0, 128, 255)[..3], [128, 128, 128]);
}

#[test]
fn removing_all_saturation_leaves_luma() {
    let out = adjusted(only_saturation(-LIMIT), 255, 0, 0);
    assert_eq!(out[0], out[1]);
    assert_eq!(out[1], out[2]);
    assert_eq!(out[0], (0.2126f32 * 255.0).round() as u8);
}

#[test]
fn saturation_leaves_a_grey_pixel_grey() {
    assert_eq!(adjusted(only_saturation(LIMIT), 90, 90, 90)[..3], [90, 90, 90]);
}

#[test]
fn values_from_outside_the_dial_are_clamped_rather_than_trusted() {
    let wild = Adjust { brightness: 9000, contrast: -9000, saturation: 9000 };
    assert_eq!(
        wild.clamped(),
        Adjust { brightness: LIMIT, contrast: -LIMIT, saturation: LIMIT }
    );
    let out = adjusted(wild, 10, 120, 250);
    assert_eq!(out[..3], [128, 128, 128]);
}

#[test]
fn the_saturation_shortcut_agrees_with_the_general_path() {
    let adjust = Adjust { brightness: 17, contrast: -23, saturation: 0 };
    let mut bytes = Vec::new();
    for y in 0..16u32 {
        for x in 0..16u32 {
            bytes.extend_from_slice(&[(x * 16) as u8, (y * 16) as u8, 200, 255]);
        }
    }
    let mut shortcut = Raster::from_raw(16, 16, bytes.clone()).unwrap();
    adjust.apply(&mut shortcut);
    for pixel in bytes.chunks_exact_mut(4) {
        let toned = in_floats(adjust, [pixel[0], pixel[1], pixel[2]]);
        pixel[..3].copy_from_slice(&toned);
    }
    assert_eq!(shortcut.pixels, bytes);
}

#[test]
fn a_setting_is_none_only_when_all_three_are() {
    assert!(Adjust::none().is_none());
    assert!(!only_brightness(1).is_none());
    assert!(!only_contrast(-1).is_none());
    assert!(!only_saturation(1).is_none());
}

#[test]
fn every_tone_is_what_floating_point_makes_of_it() {
    let mut bytes = Vec::new();
    for value in 0..=255u8 {
        bytes.extend_from_slice(&[value, 255 - value, value ^ 0x55, 9]);
    }
    for brightness in (-100..=100).step_by(7) {
        for contrast in (-100..=100).step_by(3) {
            let adjust = Adjust { brightness, contrast, saturation: 0 };
            let mut raster = Raster::from_raw(256, 1, bytes.clone()).unwrap();
            adjust.apply(&mut raster);
            for (out, source) in raster.pixels.chunks_exact(4).zip(bytes.chunks_exact(4)) {
                let expected = in_floats(adjust, [source[0], source[1], source[2]]);
                assert_eq!(out[..3], expected, "{adjust:?} of {source:?}");
                assert_eq!(out[3], 9);
            }
        }
    }
}

#[test]
fn every_colour_is_what_floating_point_makes_of_it() {
    let mut bytes = Vec::new();
    for r in (0..=255u32).step_by(15) {
        for g in (0..=255u32).step_by(15) {
            for b in (0..=255u32).step_by(51) {
                bytes.extend_from_slice(&[r as u8, g as u8, b as u8, 200]);
            }
        }
    }
    let count = (bytes.len() / 4) as u32;
    for saturation in [-100, -63, -30, -1, 1, 17, 50, 99, 100] {
        for (brightness, contrast) in [(0, 0), (20, 15), (-33, 70), (100, -100), (5, -41)] {
            let adjust = Adjust { brightness, contrast, saturation };
            let mut raster = Raster::from_raw(count, 1, bytes.clone()).unwrap();
            adjust.apply(&mut raster);
            for (out, source) in raster.pixels.chunks_exact(4).zip(bytes.chunks_exact(4)) {
                let expected = in_floats(adjust, [source[0], source[1], source[2]]);
                assert_eq!(out[..3], expected, "{adjust:?} of {source:?}");
            }
        }
    }
}
