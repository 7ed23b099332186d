//! The settings file, as text.

use imaginer::order::{Order, SortKey};
use imaginer::settings::{default_path, load, order_key, parse, parse_order, render, Settings};

#[test]
fn a_round_trip_preserves_every_setting() {
    let settings = Settings {
        slideshow_secs: 9,
        order: Order { key: SortKey::Modified, descending: true },
    };
    let text = settings.save();
    assert_eq!(Settings::load(Some(text.as_str())), settings);
}

#[test]
fn a_missing_file_is_the_defaults() {
    assert_eq!(Settings::load(None), Settings::default());
    assert_eq!(load(None), Settings::default());
}

#[test]
fn a_corrupt_file_falls_back_per_key() {
    let settings = load(Some("slideshow_secs = banana\norder = size-desc\nnonsense line\n"));
    assert_eq!(settings.slideshow_secs, 4, "bad value keeps the default");
    assert_eq!(
        settings.order,
        Order { key: SortKey::Size, descending: true },
        "a good key survives a bad sibling"
    );
}

#[test]
fn absurd_slideshow_lengths_are_clamped_into_sense() {
    assert_eq!(parse("slideshow_secs = 0\n").slideshow_secs, 1);
    assert_eq!(parse("slideshow_secs = 99999\n").slideshow_secs, 120);
}

#[test]
fn every_order_spells_and_parses_back() {
    for key in SortKey::all() {
        for descending in [false, true] {
            let order = Order { key, descending };
            assert_eq!(parse_order(&order_key(order)), Some(order));
        }
    }
}

#[test]
fn an_order_that_is_misspelt_is_none() {
    assert_eq!(parse_order("size"), None);
    assert_eq!(parse_order("colour-asc"), None);
    assert_eq!(parse_order("size-down"), None);
    assert_eq!(parse_order(""), None);
}

#[test]
fn lines_are_read_whatever_stands_around_them() {
    let settings = parse("  slideshow_secs=7  \r\n# a remark\n\norder   =   date-desc\r\nnew_key = 3");
    assert_eq!(settings.slideshow_secs, 7);
    assert_eq!(settings.order, Order { key: SortKey::Modified, descending: true });
}

#[test]
fn every_setting_in_range_reads_back() {
    for secs in [1, 2, 4, 59, 60, 119, 120] {
        for key in SortKey::all() {
            for descending in [false, true] {
                let settings = Settings { slideshow_secs: secs, order: Order { key, descending } };
                assert_eq!(parse(&render(&settings)), settings);
            }
        }
    }
}

#[test]
fn the_file_lives_among_the_applications_data() {
    assert_eq!(default_path(r"C:\Users\me\AppData"), r"C:\Users\me\AppData\imaginer\settings.txt");
}
