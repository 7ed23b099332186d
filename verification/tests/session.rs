//! The window's state: showing, editing, moving about, saving.

use std::sync::Arc;

use imaginer::adjust::Adjust;
use imaginer::browsing::cache_budget;
use imaginer::cache::{Stamp, DEFAULT_BUDGET};
use imaginer::clipboard::Pasted;
use imaginer::decode::{Animation, Decoded, Stage};
use imaginer::edit::Op;
use imaginer::editing::Effect;
use imaginer::export::Format;
use imaginer::folder::Found;
use imaginer::loading::{Came, Load};
use imaginer::metadata::Orientation;
use imaginer::notice::NOTICE_DURATION;
use imaginer::order::{Order, SortKey};
use imaginer::panels::Panels;
use imaginer::playback::{Beat, Player};
use imaginer::raster::Raster;
use imaginer::saving::{ClipboardResult, Next, Target};
use imaginer::session::{export_defaults, Session};
use imaginer::settings::Settings;
use imaginer::shortcuts::{handle_shortcuts, Command, Keys, Situation};
use imaginer::slideshow::{Event, Slideshow, Turn};
use imaginer::startup::{flag, flag_disabled, NavTrace, StartupTrace};
use imaginer::vector::{Drawing, Glance, Wanted, Zoom};
use imaginer::views::crop::{Aspect, Selection};
use imaginer::views::{settings, sidebar, timeline, toolbar};
use imaginer::window::{command_for, Sharpen};

fn stamp() -> Option<Stamp> {
    Some(Stamp { file_size: 77, modified: None })
}

fn session() -> Session {
    Session::new(None, None, Settings::default())
}

fn still(width: u32, height: u32) -> Decoded<()> {
    Decoded {
        pixels: Arc::new(Raster::new(width, height)),
        stage: Stage::Full,
        orientation: Orientation::Normal,
        full_size: (width, height),
        animation: None,
        has_transparency: true,
        svg: None,
    }
}

fn film(delays: &[u64]) -> Decoded<()> {
    let frames: Vec<Arc<Raster>> = (0..delays.len())
        .map(|i| Arc::new(Raster::from_raw(1, 1, vec![i as u8, 0, 0, 255]).unwrap()))
        .collect();
    Decoded {
        pixels: Arc::clone(&frames[0]),
        animation: Some(Arc::new(Animation { frames, delays: delays.to_vec() })),
        full_size: (1, 1),
        ..still(1, 1)
    }
}

fn showing(path: &str, decoded: &Decoded<()>) -> Session {
    let mut session = session();
    session.show(path.to_owned(), stamp(), Some(decoded), 0);
    session
}

fn found(names: &[&str]) -> Vec<Found> {
    names
        .iter()
        .map(|name| Found {
            path: format!(r"C:\p\{name}"),
            is_file: true,
            len: 1,
            modified: None,
        })
        .collect()
}

#[test]
fn an_image_that_is_ready_goes_up_at_once() {
    let mut session = session();
    let accepted = session.show("a.png".to_owned(), stamp(), Some(&still(4, 2)), 5).unwrap();
    assert!(accepted.refit && accepted.arrived && accepted.store);
    assert_eq!(session.canvas, Some((4, 2)));
    assert!(!session.loading);

    let waiting: Option<&Decoded<()>> = None;
    assert!(session.show("b.png".to_owned(), stamp(), waiting, 6).is_none());
    assert!(session.loading);
    // The last image stays up until the next is there.
    assert_eq!(session.canvas, Some((4, 2)));
    assert!(session.source.is_none());
}

#[test]
fn a_preview_is_replaced_without_a_jump() {
    let mut session = session();
    let waiting: Option<&Decoded<()>> = None;
    session.show("a.png".to_owned(), stamp(), waiting, 0);

    let preview = Decoded { stage: Stage::Preview, full_size: (400, 200), ..still(4, 2) };
    let first = session.accept(&preview, 1);
    assert!(first.refit && !first.arrived && !first.store);
    assert!(session.source.is_none());

    let second = session.accept(&still(400, 200), 2);
    assert!(!second.refit && second.arrived && second.store);
    assert_eq!(session.canvas, Some((400, 200)));
    session.decode_ended();
    assert!(!session.loading);
}

#[test]
fn a_file_that_will_not_open_takes_the_last_image_down() {
    let mut session = showing("a.png", &still(4, 2));
    let waiting: Option<&Decoded<()>> = None;
    session.show("bad.png".to_owned(), stamp(), waiting, 1);
    assert!(session.decode_failed("could not decode bad.png".to_owned()));
    assert_eq!(session.canvas, None);
    assert_eq!(session.messages.error.as_deref(), Some("could not decode bad.png"));
    assert!(!session.loading);
}

#[test]
fn nothing_of_one_image_reaches_the_next() {
    let mut session = showing("a.jpg", &film(&[100, 100]));
    session.push_op(Op::RotateCw);
    session.adjust = Adjust { brightness: 9, contrast: 0, saturation: 0 };
    session.start_crop();
    session.read_info();

    session.show("b.png".to_owned(), stamp(), Some(&still(3, 3)), 9);
    assert!(session.edits.is_empty());
    assert!(session.adjust.is_none());
    assert!(session.crop.is_none() && session.animation.is_none() && !session.info_read);
    assert!(!session.applying && !session.player.playing);
    assert_eq!(session.export.format, Format::Png);
    // The panel that was opened belongs to the window.
    assert!(session.panels.sidebar);
}

#[test]
fn an_animation_plays_from_its_first_frame() {
    let mut session = showing("a.gif", &film(&[100, 50]));
    assert_eq!(session.player, Player {
        frame: 0,
        playing: true,
        due: Some(100),
        scrubbing: false,
        resume: false,
    });
    assert_eq!(session.tick_animation(40), Beat::Wait(60));
    assert_eq!(session.tick_animation(100), Beat::Show(1, 50));
    assert_eq!(session.source.as_ref().unwrap().get_pixel(0, 0), [1, 0, 0, 255]);
    assert_eq!(session.tick_animation(150), Beat::Show(0, 100));
    session.play_pause(160);
    assert_eq!(session.tick_animation(10_000), Beat::Still);
}

#[test]
fn dragging_the_scrubber_holds_playback_and_gives_it_back() {
    let mut session = showing("a.gif", &film(&[100, 50, 70]));
    assert_eq!(session.apply_timeline(timeline::Action::ScrubStart, 10), None);
    assert_eq!(session.tick_animation(5_000), Beat::Still);
    assert_eq!(session.apply_timeline(timeline::Action::Scrub(9), 20), Some(2));
    assert_eq!(session.source.as_ref().unwrap().get_pixel(0, 0), [2, 0, 0, 255]);
    session.apply_timeline(timeline::Action::ScrubEnd, 30);
    assert!(session.player.playing);
    assert_eq!(session.player.due, Some(100));
}

#[test]
fn an_edit_pauses_the_film_and_undo_takes_it_back() {
    let mut session = showing("a.gif", &film(&[100, 50]));
    assert!(session.push_op(Op::RotateCw));
    assert!(!session.player.playing && session.applying);
    assert!(session.edited((7, 7)));
    assert!(!session.edited((7, 7)));
    assert!(!session.applying);
    assert!(session.undo());
    assert!(session.edits.is_empty());
    assert!(!session.undo());
    assert!(session.redo());
}

#[test]
fn nothing_is_edited_while_nothing_is_there() {
    let mut session = session();
    assert!(!session.push_op(Op::RotateCw));
    assert!(!session.start_crop());
    assert!(!session.request_trim());
    assert!(!session.copy_image());
    assert!(matches!(session.save_target(), Target::Nothing));
    assert_eq!(session.edited_size(), None);
}

#[test]
fn a_slider_is_recorded_when_it_is_let_go() {
    let mut session = showing("a.png", &still(4, 2));
    session.commit_adjust();
    assert!(session.edits.is_empty());
    session.adjust = Adjust { brightness: 5, contrast: 0, saturation: 0 };
    session.commit_adjust();
    session.commit_adjust();
    assert_eq!(session.edits.len(), 1);
    session.reset_adjust();
    assert_eq!(session.edits.len(), 2);
    session.undo();
    assert_eq!(session.adjust.brightness, 5);
}

#[test]
fn a_crop_is_applied_only_if_it_is_meant() {
    let mut session = showing("a.png", &still(40, 30));
    assert!(session.start_crop());
    assert_eq!(session.crop, Some(Aspect::Free));
    assert!(session.panels.sidebar);
    let tiny = Selection { x: 0, y: 0, width: 3, height: 3 };
    assert!(!session.apply_crop(Some(tiny)));
    assert!(session.crop.is_some());
    let meant = Selection { x: 1, y: 2, width: 20, height: 10 };
    assert!(session.apply_crop(Some(meant)));
    assert!(session.crop.is_none());
    assert_eq!(session.edited_size(), Some((20, 10)));
}

#[test]
fn trimming_says_when_there_is_nothing_to_do() {
    let mut session = showing("a.png", &still(4, 2));
    assert!(session.request_trim() && session.trimming);
    assert!(!session.trimmed(Some((0, 0, 4, 2)), 0));
    assert_eq!(session.messages.notice.as_ref().unwrap().text, "Nothing to trim");
    assert!(!session.trimming);
    assert!(!session.trimmed(None, 0));
    assert_eq!(
        session.messages.notice.as_ref().unwrap().text,
        "The whole image is transparent"
    );
    assert!(session.trimmed(Some((1, 0, 2, 2)), 0));
    assert_eq!(session.edited_size(), Some((2, 2)));
}

#[test]
fn the_sidebar_is_answered() {
    let mut session = showing("a.png", &still(40, 30));
    assert_eq!(session.apply_sidebar(sidebar::Action::Apply(Op::RotateCw), None), Effect::Apply);
    assert_eq!(session.apply_sidebar(sidebar::Action::Undo, None), Effect::Apply);
    assert_eq!(session.apply_sidebar(sidebar::Action::Undo, None), Effect::Nothing);
    assert_eq!(session.apply_sidebar(sidebar::Action::Save, None), Effect::Save);
    assert_eq!(session.apply_sidebar(sidebar::Action::Trim, None), Effect::Measure);
    assert_eq!(session.apply_sidebar(sidebar::Action::StartCrop, None), Effect::Fit);
    assert_eq!(
        session.apply_sidebar(sidebar::Action::SetAspect(Aspect::Square), None),
        Effect::Recut((40, 30))
    );
    assert_eq!(session.crop, Some(Aspect::Square));
    assert_eq!(session.apply_sidebar(sidebar::Action::CancelCrop, None), Effect::Nothing);
    assert_eq!(session.crop, None);
    session.apply_sidebar(sidebar::Action::Close, None);
    assert!(!session.panels.sidebar);
}

#[test]
fn saving_replaces_only_a_like_file() {
    let mut session = showing(r"C:\p\photo.jpg", &still(4, 2));
    assert!(matches!(session.save_target(), Target::Over(path) if path == r"C:\p\photo.jpg"));

    session.export.scale_percent = 50;
    match session.save_target() {
        Target::Ask { folder, name } => {
            assert_eq!(folder.as_deref(), Some(r"C:\p"));
            assert_eq!(name, "photo (edited).jpg");
        }
        other => panic!("expected a question, got {other:?}"),
    }
    session.export.format = Format::WebP;
    assert!(matches!(session.save_target(), Target::Ask { name, .. } if name == "photo.webp"));

    session.save_begun();
    assert!(session.saving);
    assert!(!session.saved(r"C:\p\other.webp"));
    assert!(session.saved(r"C:\p\.\photo.jpg"));
    session.notify_saved(r"C:\p\photo.jpg", 0);
    assert_eq!(session.messages.notice.as_ref().unwrap().text, "Saved photo.jpg");
    session.save_failed("no room".to_owned());
    assert_eq!(session.messages.error.as_deref(), Some("no room"));
}

#[test]
fn pasted_pixels_are_always_a_new_file() {
    let mut session = showing(r"C:\p\photo.jpg", &still(4, 2));
    session.list(found(&["photo.jpg"]));
    let pixels = Raster::from_raw(1, 1, vec![1, 2, 3, 4]).unwrap();
    let (decoded, accepted): (Decoded<()>, _) = session.show_pasted(pixels, 0);
    assert!(accepted.refit && !accepted.store);
    assert!(decoded.has_transparency);
    assert_eq!(session.path, None);
    assert!(session.needs_listing());
    assert!(
        matches!(session.save_target(), Target::Ask { folder: None, name } if name == "pasted.png")
    );
}

#[test]
fn deleting_moves_on_to_the_next_image() {
    let mut session = showing(r"C:\p\b.png", &still(4, 2));
    session.list(found(&["a.png", "b.png"]));
    assert_eq!(session.deleted(), Some(r"C:\p\a.png".to_owned()));
    session.notify_deleted(r"C:\p\b.png", 0);
    assert_eq!(
        session.messages.notice.as_ref().unwrap().text,
        "b.png moved to the Recycle Bin"
    );

    session.show(r"C:\p\a.png".to_owned(), stamp(), Some(&still(1, 1)), 0);
    assert_eq!(session.deleted(), None);
    assert_eq!(session.path, None);
    assert_eq!(session.canvas, None);

    session.delete_failed("in use");
    assert_eq!(session.messages.error.as_deref(), Some("Could not delete: in use"));
}

#[test]
fn the_clipboard_is_answered() {
    let mut session = showing("a.png", &still(4, 2));
    assert!(session.copy_image() && session.clipboard_busy);
    assert!(matches!(session.clipboard_done(ClipboardResult::Copied, 0), Next::Nothing));
    assert!(!session.clipboard_busy);
    assert_eq!(session.messages.notice.as_ref().unwrap().text, "Image copied");

    session.paste_begun();
    let path = ClipboardResult::Pasted(Pasted::Path("b.png".to_owned()));
    assert!(matches!(session.clipboard_done(path, 0), Next::Open(path) if path == "b.png"));
    let image = ClipboardResult::Pasted(Pasted::Image(Raster::new(1, 1)));
    assert!(matches!(session.clipboard_done(image, 0), Next::Show(_)));
    session.clipboard_done(ClipboardResult::Failed("no".to_owned()), 0);
    assert_eq!(session.messages.error.as_deref(), Some("no"));
    session.path_copied(Ok(()), 0);
    assert_eq!(session.messages.notice.as_ref().unwrap().text, "Path copied");
    assert_eq!(session.messages.error, None);
}

#[test]
fn stepping_goes_through_the_folder_and_round() {
    let mut session = showing(r"C:\p\b.png", &still(4, 2));
    assert!(session.neighbours().is_empty());
    assert_eq!(session.step(true), None);
    session.list(found(&["a.png", "b.png", "c.png", "notes.txt"]));
    assert_eq!(session.position(), Some((2, 3)));
    assert_eq!(session.neighbours(), [r"C:\p\c.png", r"C:\p\a.png"]);
    assert_eq!(session.step(true), Some(r"C:\p\c.png".to_owned()));
    assert_eq!(session.step(true), Some(r"C:\p\a.png".to_owned()));
    assert_eq!(session.step(false), Some(r"C:\p\c.png".to_owned()));
    session.leave_folder();
    assert!(!session.has_neighbours());
}

#[test]
fn a_folder_without_images_is_refused() {
    let mut session = session();
    assert_eq!(session.take_folder(r"C:\docs", found(&["readme.txt"])), None);
    assert_eq!(
        session.messages.error.as_deref(),
        Some(r"No images this build can open in C:\docs")
    );
    assert_eq!(
        session.take_folder(r"C:\p", found(&["b.png", "a.png"])),
        Some(r"C:\p\a.png".to_owned())
    );
    assert!(session.has_neighbours());
}

#[test]
fn an_order_lasts_and_keeps_the_image() {
    let mut session = showing(r"C:\p\b.png", &still(4, 2));
    session.list(found(&["a.png", "b.png", "c.png"]));
    let order = Order { key: SortKey::Name, descending: true };
    let (save, picked) = session.apply_settings(settings::Action::SetOrder(order), 0);
    assert!(save);
    session.set_order(picked.unwrap());
    assert_eq!(session.settings.order, order);
    assert_eq!(session.position(), Some((2, 3)));
    assert_eq!(session.step(true), Some(r"C:\p\a.png".to_owned()));
}

#[test]
fn the_slideshow_slider_is_saved_when_it_is_let_go() {
    let mut session = session();
    assert_eq!(session.apply_settings(settings::Action::SetSlideshow(9), 0), (false, None));
    assert_eq!(session.settings.slideshow_secs, 9);
    assert_eq!(session.apply_settings(settings::Action::CommitSlideshow, 0), (true, None));
    assert_eq!(
        session.messages.notice.as_ref().unwrap().text,
        "Slideshow set to 9 seconds per image"
    );
    session.toggle_settings();
    session.apply_settings(settings::Action::Close, 0);
    assert!(!session.panels.settings);
}

#[test]
fn space_stops_and_starts_what_moves() {
    let mut session = showing(r"C:\p\a.png", &still(4, 2));
    session.play_pause(0);
    assert!(!session.slideshow.is_running());
    session.list(found(&["a.png", "b.png"]));
    session.play_pause(0);
    assert!(session.slideshow.is_running());
    assert_eq!(session.tick_slideshow(3_999), Turn::Wait(1));
    assert_eq!(session.tick_slideshow(4_000), Turn::Next);
    assert_eq!(session.tick_slideshow(4_000), Turn::Wait(4_000));
    session.interrupt_slideshow(false, &vec![Event::Other, Event::Pressed { space: true }]);
    assert!(session.slideshow.is_running());
    session.interrupt_slideshow(false, &vec![Event::Other, Event::Copy]);
    assert!(!session.slideshow.is_running());
}

#[test]
fn a_slideshow_stops_for_anything_deliberate() {
    for (scrolled, events, stops) in [
        (false, vec![], false),
        (true, vec![], true),
        (false, vec![Event::Pressed { space: false }], true),
        (false, vec![Event::Paste], true),
        (false, vec![Event::Other], false),
    ] {
        let mut slideshow = Slideshow::new();
        slideshow.toggle(4, 0);
        slideshow.interrupt(scrolled, &events);
        assert_eq!(slideshow.is_running(), !stops);
    }
}

#[test]
fn a_notice_goes_by_itself_and_an_error_stays() {
    let mut session = session();
    session.fail("bad".to_owned());
    session.notify("good", 1_000);
    assert_eq!(session.messages.error, None);
    assert_eq!(session.tick_notice(1_000), Some(NOTICE_DURATION));
    assert_eq!(session.tick_notice(3_999), Some(1));
    assert_eq!(session.tick_notice(4_000), None);
    assert!(session.messages.notice.is_none());
}

#[test]
fn one_panel_at_a_time() {
    let mut panels = Panels::new();
    panels.toggle_info();
    panels.toggle_sidebar();
    assert_eq!(panels, Panels { sidebar: true, info: false, settings: false });
    panels.toggle_settings();
    assert_eq!(panels, Panels { sidebar: false, info: false, settings: true });
    panels.toggle_settings();
    assert_eq!(panels, Panels::new());
}

#[test]
fn the_layout_follows_the_session() {
    let mut session = session();
    session.toggle_info();
    let empty = session.layout(false);
    assert!(empty.chrome && !empty.info && !empty.chevrons && !empty.playback);

    session.show(r"C:\p\a.png".to_owned(), stamp(), Some(&still(4, 2)), 0);
    session.list(found(&["a.png", "b.png"]));
    let shown = session.layout(false);
    assert!(shown.info && shown.chevrons && shown.playback && !shown.crop);

    session.set_fullscreen(true);
    assert!(!session.layout(false).chrome && session.layout(true).chrome);
    session.start_crop();
    let cropping = session.layout(true);
    assert!(cropping.crop && !cropping.chevrons && !cropping.playback && !cropping.info);
    assert!(session.bar().has_image && session.bar().sidebar_open);
}

#[test]
fn the_folder_is_listed_after_the_first_drawing() {
    let mut session = Session::new(Some("a.png".to_owned()), stamp(), Settings::default());
    assert!(session.loading);
    assert!(!session.has_something_to_measure());
    assert!(session.painted());
    assert!(!session.painted());
    let mut empty = Session::new(None, None, Settings::default());
    assert!(!empty.painted());
    assert!(empty.has_something_to_measure());
    assert!(!empty.is_busy() && session.is_busy());
}

#[test]
fn artwork_rests_while_it_is_edited() {
    let mut session = showing("a.svg", &still(4, 2));
    assert_eq!(session.sharpening(), Sharpen::Look);
    session.push_op(Op::RotateCw);
    assert_eq!(session.sharpening(), Sharpen::Rest);
}

#[test]
fn a_file_is_saved_in_its_own_format() {
    assert_eq!(export_defaults(Some("a.JPEG")).format, Format::Jpeg);
    assert_eq!(export_defaults(Some("a.tiff")).format, Format::Png);
    assert_eq!(export_defaults(None).format, Format::Png);
}

#[test]
fn the_budget_is_read_in_megabytes() {
    assert_eq!(cache_budget(Some(" 3 ")), 3 * 1024 * 1024);
    assert_eq!(cache_budget(Some("lots")), DEFAULT_BUDGET);
    assert_eq!(cache_budget(None), DEFAULT_BUDGET);
    assert_eq!(cache_budget(Some("18446744073709551615")), usize::MAX);
    assert_eq!(cache_budget(Some("-1")), DEFAULT_BUDGET);
}

fn no_keys() -> Keys {
    Keys {
        open_folder: false,
        redo: false,
        open: false,
        undo: false,
        save: false,
        copy_image: false,
        copy_path: false,
        paste: false,
        escape: false,
        fullscreen: false,
        delete: false,
        prev: false,
        next: false,
        rotate: false,
        sidebar: false,
        space: false,
        start_crop: false,
        enter: false,
        info: false,
        settings: false,
        fit: false,
        actual_size: false,
        zoom_in: false,
        zoom_out: false,
    }
}

fn looking() -> Situation {
    Situation {
        focused: false,
        has_texture: true,
        cropping: false,
        settings_open: false,
        fullscreen: false,
    }
}

#[test]
fn escape_backs_out_one_place_at_a_time() {
    let keys = Keys { escape: true, save: true, ..no_keys() };
    let deep = Situation { cropping: true, settings_open: true, fullscreen: true, ..looking() };
    assert_eq!(handle_shortcuts(keys, deep), [Command::CancelCrop]);
    let panel = Situation { cropping: false, ..deep };
    assert_eq!(handle_shortcuts(keys, panel), [Command::CloseSettings]);
    let full = Situation { settings_open: false, ..panel };
    assert_eq!(handle_shortcuts(keys, full), [Command::LeaveFullscreen]);
    assert_eq!(handle_shortcuts(keys, looking()), [Command::CloseWindow]);
    // A widget keeps it.
    let focused = Situation { focused: true, ..looking() };
    assert_eq!(handle_shortcuts(keys, focused), [Command::Save]);
}

#[test]
fn keys_become_commands_in_a_fixed_order() {
    let keys = Keys { save: true, rotate: true, next: true, prev: true, zoom_in: true, ..no_keys() };
    assert_eq!(
        handle_shortcuts(keys, looking()),
        [Command::Next, Command::RotateCw, Command::Save, Command::ZoomIn]
    );
    let nothing = Situation { has_texture: false, ..looking() };
    assert!(handle_shortcuts(keys, nothing).is_empty());
    let paste = Keys { paste: true, ..keys };
    assert_eq!(handle_shortcuts(paste, nothing), [Command::Paste]);
    let cropping = Situation { cropping: true, ..looking() };
    assert!(handle_shortcuts(keys, cropping).is_empty());
    let enter = Keys { enter: true, ..keys };
    assert_eq!(handle_shortcuts(enter, cropping), [Command::ApplyCrop]);
}

#[test]
fn a_button_stands_for_a_command() {
    assert_eq!(command_for(toolbar::Action::Delete), Ok(Command::Delete));
    assert_eq!(command_for(toolbar::Action::ToggleSlideshow), Ok(Command::ToggleSlideshow));
    let order = Order { key: SortKey::Size, descending: true };
    assert_eq!(command_for(toolbar::Action::Sort(order)), Err(order));
}

fn near() -> Wanted {
    Wanted { target: 2560, reaches: true, covered: false, outgrown: true }
}

fn resting() -> Glance {
    Glance { steady: true, visible: true, fresh: false }
}

#[test]
fn a_drawing_that_came_out_small_is_not_asked_for_again() {
    let mut zoom = Zoom::new();
    zoom.adopt(true, 1024);
    assert_eq!(zoom.look(near(), resting()), Drawing::Whole(2560));
    assert!(zoom.is_drawing());
    assert_eq!(zoom.look(near(), resting()), Drawing::Nothing);
    zoom.whole_arrived(1024);
    for _ in 0..5 {
        assert_eq!(zoom.look(near(), resting()), Drawing::Nothing);
    }
    assert_eq!(zoom.asked, 2560);
    let larger = Wanted { target: 3000, ..near() };
    assert_eq!(zoom.look(larger, resting()), Drawing::Whole(3000));
}

#[test]
fn a_first_patch_does_not_wait_for_the_view_to_rest() {
    let far = Wanted { target: 4096, reaches: false, covered: false, outgrown: true };
    let moving = Glance { steady: false, ..resting() };
    let mut zoom = Zoom::new();
    zoom.adopt(true, 4096);
    assert_eq!(zoom.look(far, moving), Drawing::Patch);
    zoom.patch_arrived();
    assert_eq!(zoom.look(far, moving), Drawing::Nothing);
    assert_eq!(zoom.look(far, resting()), Drawing::Patch);
    zoom.patch_lost(false);
    let fresh = Glance { fresh: true, ..resting() };
    assert_eq!(zoom.look(far, fresh), Drawing::Nothing);
    // Back out, the whole takes over once it is large enough.
    let close = Wanted { covered: true, outgrown: false, ..near() };
    zoom.look(close, resting());
    assert!(!zoom.tile);
}

#[test]
fn a_failed_drawing_is_the_last_until_something_changes() {
    let mut zoom = Zoom::new();
    zoom.adopt(true, 100);
    zoom.look(near(), resting());
    zoom.whole_lost(true);
    assert_eq!(zoom.look(near(), resting()), Drawing::Nothing);
    zoom.rest();
    assert_eq!(zoom.look(near(), resting()), Drawing::Whole(2560));
    zoom.adopt(false, 100);
    assert_eq!(zoom.look(near(), resting()), Drawing::Nothing);
    let mut refused = Zoom::new();
    refused.adopt(true, 10);
    let far = Wanted { target: 4096, reaches: false, covered: false, outgrown: true };
    assert_eq!(refused.look(far, resting()), Drawing::Patch);
    assert_eq!(refused.patch_refused(far), Drawing::Whole(4096));
}

#[test]
fn a_load_goes_from_fast_to_whole() {
    let fine = Came { unwanted: false, decoded: true };
    let mut load = Load::StandIn;
    let mut steps = Vec::new();
    while load != Load::Done {
        steps.push(load);
        load = load.next(fine);
    }
    assert_eq!(steps, [Load::StandIn, Load::Still, Load::Thumbnail, Load::Frames]);
    assert_eq!(Load::Still.next(Came { decoded: false, ..fine }), Load::Frames);
    assert_eq!(Load::Still.next(Came { unwanted: true, ..fine }), Load::Done);
}

#[test]
fn a_launch_is_reported_only_when_asked_for() {
    let quiet = StartupTrace::new(None, Some("1"));
    assert_eq!(quiet.mark("context_ready", "1.0"), None);
    assert!(quiet.should_exit_after_first_frame());

    let mut trace = StartupTrace::new(Some("yes"), Some("0"));
    assert!(!trace.should_exit_after_first_frame());
    assert_eq!(trace.mark("run_native", "12.5"), Some("startup: run_native 12.5ms".to_owned()));
    assert_eq!(trace.mark_first_frame("20.0"), Some("startup: first_frame 20.0ms".to_owned()));
    assert_eq!(trace.mark_first_frame("21.0"), None);
    assert_eq!(trace.mark_first_image("22.0"), Some("startup: first_image 22.0ms".to_owned()));
    assert_eq!(trace.mark_first_image("23.0"), None);
}

#[test]
fn flags_are_on_off_or_unset() {
    assert!(flag(Some("1")) && !flag(Some("0")) && !flag(Some("")) && !flag(None));
    assert!(flag_disabled(Some("0")) && flag_disabled(Some("false")));
    assert!(!flag_disabled(Some("1")) && !flag_disabled(None));
}

#[test]
fn moving_about_is_reported_by_name() {
    let mut trace = NavTrace::new(Some(""));
    trace.asked(true);
    assert_eq!(
        trace.arrived(Some(r"C:\p\a.png"), "0.4"),
        Some("nav: a.png cached 0.4ms".to_owned())
    );
    trace.asked(false);
    assert_eq!(
        trace.arrived(Some(r"C:\p\a.png"), "80.1"),
        Some("nav: a.png decoded 80.1ms".to_owned())
    );
    assert_eq!(trace.arrived(None, "0.4"), None);
    assert_eq!(NavTrace::new(Some("0")).arrived(Some("a.png"), "1.0"), None);
}
