//! What each part of the window shows.

use imaginer::decode::{Stage, SUPPORTED_EXTENSIONS};
use imaginer::edit::{Edits, Op};
use imaginer::export::{Format, Settings};
use imaginer::order::{Order, SortKey};
use imaginer::raster::Raster;
use imaginer::sizes::human_size;
use imaginer::texture::{
    checker_pixels, diagonal_pixels, ground, samples_transparency, uploaded, Ground, Uploaded, DARK,
    LIGHT,
};
use imaginer::titlebar::colorref;
use imaginer::views::about::formats;
use imaginer::views::crop::{Aspect, Selection};
use imaginer::views::info::{closing_words, file_facts};
use imaginer::views::settings;
use imaginer::views::settings::SHORTCUTS;
use imaginer::views::sidebar::{
    changes_summary, offers, save_hint, save_label, transforms, writes_new_file,
};
use imaginer::views::statusbar::{downscaled_hint, facts, order_summary, Status, Tone};
use imaginer::views::timeline;
use imaginer::views::timeline::Playback;
use imaginer::views::toolbar;
use imaginer::views::toolbar::{Bar, Control};
use imaginer::views::viewer::{
    chevron_step, chevrons_shown, drop_text, lit_segments, slideshow_segments, Step,
    PROGRESS_MAX_SEGMENTS,
};

fn tone(pixels: &[u8], side: usize, x: usize, y: usize) -> u8 {
    pixels[(y * side + x) * 4]
}

#[test]
fn the_bands_are_diagonal_and_seamless() {
    const SIDE: usize = 16;
    let pixels = diagonal_pixels(SIDE);

    for y in 0..SIDE {
        for x in 0..SIDE {
            assert_eq!(
                tone(&pixels, SIDE, x, y),
                tone(&pixels, SIDE, (x + 1) % SIDE, (y + SIDE - 1) % SIDE),
                "texel {x},{y} breaks the diagonal"
            );
        }
    }
}

#[test]
fn the_two_tones_are_evenly_split() {
    const SIDE: usize = 16;
    let pixels = diagonal_pixels(SIDE);
    let light = pixels.chunks_exact(4).filter(|px| px[0] == LIGHT).count();

    assert_eq!(light, SIDE * SIDE / 2);
    assert!(pixels.chunks_exact(4).all(|px| px[0] == px[1] && px[1] == px[2] && px[3] == 255));
}

#[test]
fn every_fourth_pixel_is_looked_at() {
    let mut bytes = [9, 9, 9, 255].repeat(12);
    assert!(!samples_transparency(&Raster::from_raw(12, 1, bytes.clone()).unwrap()));
    bytes[4 * 5 + 3] = 0;
    assert!(!samples_transparency(&Raster::from_raw(12, 1, bytes.clone()).unwrap()));
    bytes[4 * 8 + 3] = 254;
    assert!(samples_transparency(&Raster::from_raw(12, 1, bytes).unwrap()));
}

#[test]
fn an_upload_that_had_to_shrink_says_so() {
    let small = uploaded((800, 600), (400, 300), (1600, 1200), true);
    assert_eq!(small.source_size, (1600, 1200));
    assert_eq!(small.uploaded_size, (400, 300));
    assert!(small.downscaled && small.has_transparency);
    assert!(!uploaded((800, 600), (800, 600), (1600, 1200), false).downscaled);
}

#[test]
fn every_supported_format_is_named() {
    let listed = formats();
    for extension in SUPPORTED_EXTENSIONS {
        assert!(listed.contains(extension), "{extension} is missing from the about box");
    }
}

#[test]
fn the_list_is_alphabetical() {
    let listed = formats();
    let mut names: Vec<&str> = listed.split(", ").collect();
    let given = names.clone();
    names.sort_unstable();
    assert_eq!(given, names);
    assert_eq!(given.len(), SUPPORTED_EXTENSIONS.len());
}

fn labels(facts: &[(&'static str, String)]) -> Vec<&'static str> {
    facts.iter().map(|(label, _)| *label).collect()
}

#[test]
fn a_file_is_described_by_its_name_folder_size_and_shape() {
    let facts = file_facts(Some(r"C:\photos\holiday.jpg"), Some(2048), Some((4000, 3000)));

    assert_eq!(labels(&facts), ["Name", "Folder", "Size", "Dimensions"]);
    assert_eq!(facts[0].1, "holiday.jpg");
    assert_eq!(facts[1].1, r"C:\photos");
    assert_eq!(facts[2].1, "2.0 KB (2048 bytes)");
    assert_eq!(facts[3].1, "4000 × 3000 px");
}

#[test]
fn pixels_from_the_clipboard_have_no_file_to_describe() {
    let facts = file_facts(None, None, Some((16, 16)));

    assert_eq!(labels(&facts), ["Name", "Dimensions"]);
    assert_eq!(facts[0].1, "Unsaved image");
}

#[test]
fn nothing_is_claimed_before_the_decode_lands() {
    let facts = file_facts(Some("bare.png"), None, None);
    assert_eq!(labels(&facts), ["Name"]);
}

#[test]
fn an_empty_panel_says_so_only_once_it_is_certain() {
    assert_eq!(closing_words(true, true), Some("No EXIF metadata in this file"));
    assert_eq!(closing_words(false, true), None);
    assert_eq!(closing_words(true, false), None);
}

#[test]
fn the_change_count_reads_as_english() {
    let mut edits = Edits::default();
    assert_eq!(changes_summary(&edits), "No changes");

    edits.push(Op::RotateCw);
    assert_eq!(changes_summary(&edits), "1 change");

    edits.push(Op::FlipVertical);
    assert_eq!(changes_summary(&edits), "2 changes");
}

#[test]
fn formats_sizes_at_each_scale() {
    assert_eq!(human_size(0), "0 B");
    assert_eq!(human_size(512), "512 B");
    assert_eq!(human_size(2048), "2.0 KB");
    assert_eq!(human_size(5 * 1024 * 1024), "5.0 MB");
    assert_eq!(human_size(3 * 1024 * 1024 * 1024), "3.00 GB");
}

#[test]
fn sizes_round_as_floating_point_does() {
    for bytes in [1023u64, 1024, 1126, 1075, 1_048_575, 1_100_000, 1_073_741_823, 5_368_709_120] {
        let b = bytes as f64;
        const KB: f64 = 1024.0;
        let expected = if b < KB {
            format!("{b:.0} B")
        } else if b < KB * KB {
            format!("{:.1} KB", b / KB)
        } else if b < KB * KB * KB {
            format!("{:.1} MB", b / (KB * KB))
        } else {
            format!("{:.2} GB", b / (KB * KB * KB))
        };
        assert_eq!(human_size(bytes), expected);
    }
}

#[test]
fn a_hold_is_one_segment_per_second_until_that_stops_being_readable() {
    assert_eq!(slideshow_segments(4), 4, "the default hold, a segment a second");
    assert_eq!(slideshow_segments(1), 1);
    assert_eq!(slideshow_segments(24), 24);
    assert_eq!(
        slideshow_segments(60),
        PROGRESS_MAX_SEGMENTS,
        "a minute is not sixty slivers"
    );
    assert_eq!(slideshow_segments(0), 1);
}

#[test]
fn chevrons_step_the_way_they_point() {
    assert_eq!(chevron_step(true, false), Some(Step::Prev));
    assert_eq!(chevron_step(false, true), Some(Step::Next));
    assert_eq!(chevron_step(false, false), None);
    assert!(chevrons_shown(false, true) && !chevrons_shown(false, false));
}

#[test]
fn a_drop_is_announced_by_name() {
    assert_eq!(drop_text(Some("a.png")), "Drop to open a.png");
    assert_eq!(drop_text(None), "Drop to open");
}

#[test]
fn a_selection_smaller_than_a_stray_click_is_not_a_rectangle() {
    let tiny = Selection { x: 0, y: 0, width: 2, height: 2 };
    assert_eq!(tiny.rectangle(), None);

    let real = Selection { x: 3, y: 4, width: 20, height: 10 };
    assert_eq!(real.rectangle(), Some(real));
    assert_eq!(Selection { width: 7, ..real }.rectangle(), None);
    assert!(Selection { width: 8, height: 8, ..real }.rectangle().is_some());
}

#[test]
fn ratios_are_named_and_known() {
    let labels: Vec<&str> = Aspect::all().iter().map(|aspect| aspect.label()).collect();
    assert_eq!(labels, ["Free", "1:1", "4:3", "3:2", "16:9"]);
    assert_eq!(Aspect::default().ratio(), None);
    assert_eq!(Aspect::SixteenNine.ratio(), Some((16, 9)));
    assert_eq!(Aspect::Square.ratio(), Some((1, 1)));
}

fn status<'a>() -> Status<'a> {
    Status {
        path: Some(r"C:\p\a.png"),
        texture: Some(uploaded((640, 480), (640, 480), (640, 480), false)),
        stage: Some(Stage::Full),
        zoom: "87%",
        file_size: Some(2048),
        position: Some((3, 128)),
        order: Order::default(),
        error: None,
    }
}

fn said(status: &Status) -> Vec<String> {
    facts(status).into_iter().map(|label| label.words).collect()
}

#[test]
fn the_status_bar_says_what_is_known() {
    assert_eq!(
        said(&status()),
        ["a.png", "3 / 128", "·", "640 × 480", "·", "87%", "·", "2.0 KB"]
    );
    let ordered =
        Status { order: Order { key: SortKey::Modified, descending: true }, ..status() };
    assert_eq!(said(&ordered)[..3], ["a.png", "3 / 128", "by date, newest first"]);

    let preview = Status { stage: Some(Stage::Preview), file_size: None, ..status() };
    assert_eq!(said(&preview).last().unwrap(), "preview…");

    let failed = Status { error: Some("it broke"), ..status() };
    let labels = facts(&failed);
    assert_eq!(labels.len(), 1);
    assert_eq!(labels[0].tone, Tone::Alarm);

    let empty = Status { path: None, texture: None, position: None, ..status() };
    assert_eq!(said(&empty), ["No image"]);
    let pasted = Status { path: None, position: None, ..status() };
    assert_eq!(said(&pasted)[0], "Unsaved image");
}

#[test]
fn a_shrunk_upload_is_explained() {
    let shrunk: Uploaded = uploaded((9000, 10), (4096, 5), (9000, 10), false);
    let labels = said(&Status { texture: Some(shrunk), ..status() });
    assert_eq!(labels.last().unwrap(), "downscaled to fit GPU limit");
    assert!(downscaled_hint(shrunk).ends_with("displaying at 4096 × 5"));
}

#[test]
fn orders_read_as_words() {
    assert_eq!(order_summary(Order { key: SortKey::Name, descending: true }), "by name, Z first");
    assert_eq!(
        order_summary(Order { key: SortKey::Size, descending: false }),
        "by size, smallest first"
    );
}

fn bar() -> Bar {
    Bar {
        has_image: true,
        fullscreen: false,
        slideshow: false,
        has_neighbours: true,
        sidebar_open: false,
        info_open: false,
        settings_open: false,
        order: Order::default(),
    }
}

#[test]
fn the_toolbar_offers_what_can_be_done() {
    assert!(Control::all().iter().all(|control| bar().is_enabled(*control)));

    let empty = Bar { has_image: false, has_neighbours: false, ..bar() };
    let live: Vec<Control> =
        Control::all().into_iter().filter(|control| empty.is_enabled(*control)).collect();
    assert_eq!(live, [Control::Open, Control::OpenFolder, Control::Settings]);

    let alone = Bar { has_neighbours: false, ..bar() };
    assert!(!alone.is_enabled(Control::Slideshow) && !alone.is_enabled(Control::Sort));
}

#[test]
fn a_button_says_what_it_does_next() {
    assert_eq!(bar().tooltip(Control::Fullscreen), "Fullscreen (F11)");
    let full = Bar { fullscreen: true, slideshow: true, ..bar() };
    assert_eq!(full.tooltip(Control::Fullscreen), "Leave fullscreen (F11 or Esc)");
    assert_eq!(full.tooltip(Control::Slideshow), "Stop the slideshow (Space)");
    assert_eq!(Control::Delete.action(), Some(toolbar::Action::Delete));
    assert_eq!(Control::Fit.action(), None);
}

#[test]
fn the_playback_bar_says_where_it_is() {
    let playback = Playback { frame: 11, count: 48, playing: true };
    assert_eq!(playback.place(), "12 / 48");
    assert_eq!(playback.tooltip(), "Pause (Space)");
    assert!(playback.is_worth_a_bar());
    let single = Playback { frame: 0, count: 1, playing: false };
    assert!(!single.is_worth_a_bar());

    let moved = timeline::Touched {
        button: false,
        drag_started: true,
        moved_to: Some(7),
        drag_stopped: false,
    };
    assert_eq!(playback.asked(moved), Some(timeline::Action::Scrub(7)));
    assert_eq!(single.asked(moved), None);
    let let_go = timeline::Touched { drag_stopped: true, ..moved };
    assert_eq!(playback.asked(let_go), Some(timeline::Action::ScrubEnd));
}

#[test]
fn the_settings_panel_asks_for_one_thing() {
    let untouched = settings::Touched {
        close: false,
        moved_to: None,
        drag_stopped: false,
        picked: None,
        reversed: false,
    };
    let order = Order::default();
    assert_eq!(settings::asked(untouched, order), None);
    let dragged = settings::Touched { moved_to: Some(9), ..untouched };
    assert_eq!(settings::asked(dragged, order), Some(settings::Action::SetSlideshow(9)));
    let let_go = settings::Touched { drag_stopped: true, ..dragged };
    assert_eq!(settings::asked(let_go, order), Some(settings::Action::CommitSlideshow));
    let picked = settings::Touched { picked: Some(SortKey::Size), ..untouched };
    assert_eq!(
        settings::asked(picked, order),
        Some(settings::Action::SetOrder(Order { key: SortKey::Size, descending: false }))
    );
    let reversed = settings::Touched { reversed: true, ..untouched };
    assert_eq!(
        settings::asked(reversed, order),
        Some(settings::Action::SetOrder(Order { key: SortKey::Name, descending: true }))
    );
    assert_eq!(SHORTCUTS.len(), 20);
}

#[test]
fn the_sidebar_says_whether_saving_replaces_the_file() {
    let settings = Settings { format: Format::Jpeg, ..Settings::default() };
    assert!(!writes_new_file(Some(Format::Jpeg), settings));
    assert!(writes_new_file(Some(Format::Png), settings));
    assert!(writes_new_file(None, settings));
    assert!(writes_new_file(Some(Format::Jpeg), Settings { scale_percent: 99, ..settings }));
    assert_eq!(save_label(true), "Save as…");
    assert_eq!(save_label(false), "Save");
    assert_eq!(save_hint(false), "Overwrite the original file (Ctrl+S)");

    let mut edits = Edits::default();
    edits.push(Op::RotateCw);
    let half = Settings { scale_percent: 50, ..settings };
    let offers = offers(&edits, half, Some((100, 40)), Some(Format::Jpeg));
    assert!(offers.undo && !offers.redo && offers.quality && offers.new_file);
    assert_eq!(offers.size, Some((50, 20)));
}

#[test]
fn every_transform_has_a_button() {
    let ops: Vec<Op> = transforms().iter().map(|button| button.op).collect();
    assert_eq!(
        ops,
        [
            Op::FlipHorizontal,
            Op::FlipVertical,
            Op::RotateCcw,
            Op::RotateCw,
            Op::MirrorHorizontal,
            Op::MirrorVertical,
        ]
    );
    assert_eq!(transforms()[3].tooltip, "Rotate 90° clockwise (R)");
}

#[test]
fn a_colour_is_turned_round_for_the_shell() {
    assert_eq!(colorref(0x11, 0x22, 0x33), 0x0033_2211);
    assert_eq!(colorref(255, 255, 255), 0x00ff_ffff);
}

#[test]
fn see_through_pixels_stand_on_squares_and_artwork_on_bands() {
    assert_eq!(ground(false, false), None);
    assert_eq!(ground(false, true), None);
    assert_eq!(ground(true, false), Some(Ground::Checker));
    assert_eq!(ground(true, true), Some(Ground::Diagonals));
}

#[test]
fn the_checker_is_two_squares_by_two() {
    let tones: Vec<u8> = checker_pixels().chunks_exact(4).map(|px| px[0]).collect();
    assert_eq!(tones, vec![LIGHT, DARK, DARK, LIGHT]);
    assert!(checker_pixels().chunks_exact(4).all(|px| px[3] == 255));
}

#[test]
fn the_progress_line_fills_up_while_a_slide_is_held() {
    assert_eq!(lit_segments(4, 10_000, 6_000), 0);
    assert_eq!(lit_segments(4, 10_000, 6_999), 0);
    assert_eq!(lit_segments(4, 10_000, 7_000), 1);
    assert_eq!(lit_segments(4, 10_000, 9_999), 3);
    assert_eq!(lit_segments(4, 10_000, 10_000), 4);
    assert_eq!(lit_segments(4, 10_000, 99_000), 4);
    assert_eq!(lit_segments(4, 10_000, 0), 0, "due later than one hold from now");
    assert_eq!(lit_segments(60, 60_000, 30_000), 12);
    assert_eq!(lit_segments(0, 1_000, 1_000), 1);
    assert_eq!(lit_segments(u32::MAX, u64::MAX, u64::MAX), 24);
}
