//! The thumbnail store.

use imaginer::cache::{Moment, Stamp};
use imaginer::raster::Raster;
use imaginer::thumbs::{
    cache_dir, encode, entry_name, fnv1a, load, prune, scaled, temporary_name, MAX_SIDE,
};

fn solid(width: u32, height: u32, colour: [u8; 4]) -> Raster {
    Raster::from_raw(width, height, colour.repeat((width * height) as usize)).unwrap()
}

fn stamp(file_size: u64) -> Stamp {
    Stamp { file_size, modified: Some(Moment { secs: 1_700_000_000, nanos: 250 }) }
}

#[test]
fn a_stored_thumbnail_round_trips() {
    let big = solid(800, 400, [10, 20, 30, 255]);
    let file = encode(&big).unwrap();
    let loaded = load(&file).expect("thumbnail should be readable");

    assert_eq!(loaded.dimensions(), (MAX_SIDE, MAX_SIDE / 2));
    assert_eq!(loaded.get_pixel(0, 0), [10, 20, 30, 255]);
}

#[test]
fn small_images_are_stored_at_their_own_size() {
    let small = solid(24, 12, [1, 2, 3, 255]);
    assert_eq!(load(&encode(&small).unwrap()).unwrap().dimensions(), (24, 12));
    assert_eq!(scaled(&small).as_raster().dimensions(), (24, 12));
}

#[test]
fn a_changed_file_maps_to_a_new_entry() {
    let before = entry_name("img.png", Some(stamp(100)));
    let after = entry_name("img.png", Some(stamp(5000)));
    assert!(before.is_some());
    assert_ne!(before, after);

    let touched = Stamp { file_size: 100, modified: Some(Moment { secs: 1_700_000_001, nanos: 250 }) };
    assert_ne!(before, entry_name("img.png", Some(touched)));
    assert_ne!(before, entry_name("other.png", Some(stamp(100))));
    assert_eq!(before, entry_name("img.png", Some(stamp(100))));
}

#[test]
fn a_corrupt_thumbnail_is_not_a_crash() {
    assert!(load(b"not a png at all").is_none());
}

#[test]
fn an_unstampable_source_has_no_entry_name() {
    assert!(entry_name("definitely-not-here.png", None).is_none());
}

#[test]
fn pruning_keeps_the_newest_and_drops_the_oldest() {
    let files: Vec<Moment> = (0..5).map(|i| Moment { secs: i, nanos: 0 }).collect();
    assert_eq!(prune(&files, 4, 3), [true, true, false, false, false]);
    // Nothing goes while there are few enough.
    assert_eq!(prune(&files, 5, 3), [false; 5]);
}

#[test]
fn the_hash_is_the_well_known_one() {
    assert_eq!(fnv1a(b""), 0xcbf2_9ce4_8422_2325);
    assert_eq!(fnv1a(b"a"), 0xaf63_dc4c_8601_ec8c);
    assert_eq!(fnv1a(b"foobar"), 0x8594_4171_f739_67e8);
}

#[test]
fn an_entry_is_named_by_its_hash() {
    let name = entry_name("img.png", Some(stamp(100))).unwrap();
    let mut mixed = b"img.png".to_vec();
    mixed.extend_from_slice(&100u64.to_le_bytes());
    mixed.extend_from_slice(&1_700_000_000u64.to_le_bytes());
    mixed.extend_from_slice(&250u32.to_le_bytes());
    assert_eq!(name, format!("{:016x}.png", fnv1a(&mixed)));
}

#[test]
fn a_thumbnail_is_written_aside_first() {
    assert_eq!(temporary_name("abc.png", 42), "abc.png.tmp-42");
}

#[test]
fn thumbnails_are_kept_where_a_user_says() {
    assert_eq!(cache_dir(Some("D:\\t"), Some("C:\\local")), Some("D:\\t".to_owned()));
    assert_eq!(
        cache_dir(None, Some("C:\\local")),
        Some("C:\\local\\imaginer\\thumbs".to_owned())
    );
    assert_eq!(cache_dir(None, None), None);
}
