//! The cache of decoded images, and the shelf built on it.

use std::sync::Arc;

use imaginer::cache::{ImageCache, Moment, Stamp, DEFAULT_BUDGET};
use imaginer::decode::{Animation, Decoded, Stage};
use imaginer::metadata::Orientation;
use imaginer::prefetch::{is_request, Queue, Shelf};
use imaginer::raster::Raster;

fn decoded(side: u32) -> Decoded<()> {
    Decoded {
        pixels: Arc::new(Raster::new(side, side)),
        stage: Stage::Full,
        orientation: Orientation::Normal,
        full_size: (side, side),
        animation: None,
        has_transparency: true,
        svg: None,
    }
}

/// A stamp that is not tied to any file.
fn stamp(file_size: u64) -> Stamp {
    Stamp { file_size, modified: None }
}

/// 16x16 RGBA8, which is one kilobyte exactly.
const KB: usize = 16 * 16 * 4;

fn fill(cache: &mut ImageCache<()>, name: &str) {
    cache.insert(name, stamp(1), decoded(16));
}

#[test]
fn evicts_the_least_recently_used_first() {
    let mut cache = ImageCache::with_budget(2 * KB);
    fill(&mut cache, "a.png");
    fill(&mut cache, "b.png");
    fill(&mut cache, "c.png");

    assert_eq!(cache.len(), 2);
    assert_eq!(cache.used(), 2 * KB);
    assert!(!cache.holds("a.png", &stamp(1)));
    assert!(cache.holds("c.png", &stamp(1)));
}

#[test]
fn a_hit_renews_an_entry_so_the_next_eviction_takes_another() {
    let mut cache = ImageCache::with_budget(2 * KB);
    fill(&mut cache, "a.png");
    fill(&mut cache, "b.png");

    assert!(cache.get("a.png", &stamp(1)).is_some());
    fill(&mut cache, "c.png");

    assert!(cache.holds("a.png", &stamp(1)));
    assert!(!cache.holds("b.png", &stamp(1)));
}

#[test]
fn a_peek_does_not_renew() {
    let mut cache = ImageCache::with_budget(2 * KB);
    fill(&mut cache, "a.png");
    fill(&mut cache, "b.png");

    assert!(cache.holds("a.png", &stamp(1)));
    fill(&mut cache, "c.png");

    assert!(!cache.holds("a.png", &stamp(1)));
}

#[test]
fn a_file_that_changed_on_disk_is_not_served_and_is_dropped() {
    let mut cache = ImageCache::with_budget(8 * KB);
    fill(&mut cache, "a.png");

    assert!(cache.get("a.png", &stamp(2)).is_none());
    assert!(cache.is_empty());
    assert_eq!(cache.used(), 0);
}

#[test]
fn an_image_larger_than_the_whole_budget_is_still_held() {
    let mut cache = ImageCache::with_budget(KB);
    cache.insert("huge.png", stamp(1), decoded(64));

    assert_eq!(cache.len(), 1);
    assert!(cache.used() > cache.budget());
}

#[test]
fn re_inserting_a_path_does_not_double_count_its_bytes() {
    let mut cache = ImageCache::with_budget(8 * KB);
    cache.insert("a.png", stamp(1), decoded(16));
    cache.insert("a.png", stamp(2), decoded(16));

    assert_eq!(cache.len(), 1);
    assert_eq!(cache.used(), KB);
    assert!(cache.holds("a.png", &stamp(2)));
}

#[test]
fn removing_frees_the_budget_it_was_using() {
    let mut cache = ImageCache::with_budget(8 * KB);
    fill(&mut cache, "a.png");
    cache.remove("a.png");

    assert!(cache.is_empty());
    assert_eq!(cache.used(), 0);
    cache.remove("a.png");
    assert_eq!(cache.used(), 0);
}

#[test]
fn a_path_is_found_however_it_is_written() {
    let mut cache = ImageCache::with_budget(8 * KB);
    fill(&mut cache, r"C:\photos\a.png");

    assert!(cache.holds(r"C:\photos\\a.png", &stamp(1)));
    assert!(cache.holds(r"C:\photos\.\a.png", &stamp(1)));
    assert!(!cache.holds(r"C:\photos\b.png", &stamp(1)));
}

#[test]
fn a_new_cache_has_the_default_budget() {
    let cache: ImageCache<()> = ImageCache::default();
    assert_eq!(cache.budget(), DEFAULT_BUDGET);
    assert!(cache.is_empty());
    assert_eq!(DEFAULT_BUDGET, 512 * 1024 * 1024);
}

#[test]
fn a_stamp_tells_the_size_of_its_file() {
    assert_eq!(stamp(77).file_size(), 77);
    let one = Stamp { file_size: 1, modified: Some(Moment { secs: 5, nanos: 6 }) };
    let other = Stamp { file_size: 1, modified: Some(Moment { secs: 5, nanos: 7 }) };
    assert_ne!(one, other);
}

#[test]
fn every_frame_counts_against_the_budget() {
    let frame = Arc::new(Raster::new(16, 16));
    let mut film = decoded(16);
    film.pixels = Arc::clone(&frame);
    film.animation = Some(Arc::new(Animation {
        frames: vec![Arc::clone(&frame), Arc::new(Raster::new(16, 16))],
        delays: vec![100, 100],
    }));
    let mut cache = ImageCache::with_budget(8 * KB);
    cache.insert("film.gif", stamp(1), film);
    assert_eq!(cache.used(), 2 * KB);
}

#[test]
fn a_still_of_an_animated_file_is_not_good_enough_for_the_viewer() {
    let mut shelf: Shelf<()> = Shelf::with_budget(8 * KB);
    shelf.warm("film.gif", stamp(1), decoded(16), true);
    shelf.warm("photo.png", stamp(1), decoded(16), false);

    assert!(shelf.cached("film.gif", &stamp(1), false).is_some());
    assert!(shelf.cached("film.gif", &stamp(1), true).is_none());
    assert!(shelf.cached("photo.png", &stamp(1), true).is_some());

    // Decoded whole, it is.
    shelf.store("film.gif", stamp(1), decoded(16));
    assert!(shelf.cached("film.gif", &stamp(1), true).is_some());
}

#[test]
fn only_a_file_that_is_there_and_not_in_hand_is_decoded_ahead() {
    let mut shelf: Shelf<()> = Shelf::with_budget(8 * KB);
    assert!(shelf.wants("a.png", Some(stamp(1))));
    assert!(!shelf.wants("a.png", None));

    shelf.store("a.png", stamp(1), decoded(16));
    assert!(!shelf.wants("a.png", Some(stamp(1))));
    assert!(shelf.wants("a.png", Some(stamp(2))));

    shelf.forget("a.png");
    assert!(shelf.wants("a.png", Some(stamp(1))));
    assert!(shelf.cached("a.png", &stamp(1), false).is_none());
}

#[test]
fn only_the_newest_request_is_worked_on() {
    let names = |list: &[&str]| list.iter().map(|name| (*name).to_owned()).collect::<Vec<_>>();
    let mut queue = Queue::new();
    assert_eq!(queue.advance(None), None);
    assert_eq!(queue.advance(Some(names(&["a", "b", "c"]))), Some("a".to_owned()));
    assert_eq!(queue.advance(None), Some("b".to_owned()));
    assert_eq!(queue.advance(Some(names(&["x"]))), Some("x".to_owned()));
    assert_eq!(queue.advance(None), None);
    assert!(!is_request(&names(&[])));
    assert!(is_request(&names(&["x"])));
}
