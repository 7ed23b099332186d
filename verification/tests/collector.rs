//! Gathering the files of one batch in one process.

use imaginer::collector::{
    decode, encode, gathers_on, join, pipe_name, settle, tries_again, Election, Role, GATHER_LIMIT,
    STRAGGLER_WAIT,
};

fn wide(text: &str) -> Vec<u16> {
    text.encode_utf16().collect()
}

fn narrow(units: &[Vec<u16>]) -> Vec<String> {
    units.iter().map(|path| String::from_utf16(path).unwrap()).collect()
}

fn round_trip(files: &[&str]) -> Vec<String> {
    let units: Vec<Vec<u16>> = files.iter().map(|file| wide(file)).collect();
    narrow(&decode(&encode(&units)))
}

fn names(list: &[&str]) -> Vec<String> {
    list.iter().map(|name| (*name).to_owned()).collect()
}

#[test]
fn paths_survive_the_round_trip() {
    let files = [r"C:\photos\holiday.png", r"D:\a folder with spaces\logo.v2.jpg"];
    assert_eq!(round_trip(&files), files);
}

#[test]
fn non_ascii_paths_are_not_mangled() {
    let files = ["C:\\gambar\\\u{dc}n\u{ef}c\u{f6}d\u{e9} \u{2014} \u{65e5}\u{672c}\u{8a9e}.png"];
    assert_eq!(round_trip(&files), files);
}

#[test]
fn a_single_path_carries_no_separator() {
    let payload = encode(&vec![wide(r"C:\one.png")]);
    assert_eq!(payload.len(), r"C:\one.png".len() * 2);
    assert_eq!(narrow(&decode(&payload)), [r"C:\one.png"]);
}

#[test]
fn an_empty_payload_decodes_to_nothing_rather_than_a_blank_path() {
    assert!(decode(&[]).is_empty());
    assert!(decode(&[0, 0]).is_empty());
}

#[test]
fn an_odd_trailing_byte_is_dropped_rather_than_panicking() {
    let mut payload = encode(&vec![wide("a.png")]);
    payload.push(0x41);
    assert_eq!(narrow(&decode(&payload)), ["a.png"]);
}

#[test]
fn the_pipe_name_is_scoped_to_the_batch() {
    assert_eq!(pipe_name("webp-80"), r"\\.\pipe\imaginer-convert-webp-80");
    assert_ne!(pipe_name("webp-80"), pipe_name("webp-90"));
    assert_ne!(pipe_name("webp-80"), pipe_name("ico-80"));
}

#[test]
fn a_process_that_reaches_nobody_converts_its_own_files() {
    let files = names(&["a.png", "b.png"]);
    for election in [Election::Alone, Election::Lost { reached: false }] {
        match join(files.clone(), election) {
            Role::Collector(all) => assert_eq!(all, files),
            Role::HandedOver => panic!("the files were dropped"),
        }
    }
    assert!(matches!(join(files, Election::Lost { reached: true }), Role::HandedOver));
}

#[test]
fn the_winner_gathers_every_file_once() {
    let handed = vec![names(&["b.png", "c.png"]), names(&["a.png"])];
    match join(names(&["c.png"]), Election::Won(handed)) {
        Role::Collector(all) => assert_eq!(all, ["a.png", "b.png", "c.png"]),
        Role::HandedOver => panic!("the winner collects"),
    }
}

#[test]
fn gathered_files_are_sorted_and_named_once() {
    assert_eq!(
        settle(&names(&[r"C:\b\z.png", r"C:\a\y.png", r"C:\b\z.png"])),
        [r"C:\a\y.png", r"C:\b\z.png"]
    );
}

#[test]
fn paths_that_start_alike_stay_together() {
    let ordered = [
        r"\\?\thing\a.png",
        r"\\?\UNC\s\h\a.png",
        r"\\?\C:\.\a.png",
        r"\\?\C:\a.png",
        r"\\.\COM1\a.png",
        r"\\s\h\a.png",
        r"C:\a.png",
        r"\a.png",
        r".\a.png",
        r"a.png",
    ];
    let mut backwards = ordered;
    backwards.reverse();
    assert_eq!(settle(&names(&backwards)), ordered);
}

#[test]
fn gathering_ends_when_nobody_comes_or_time_is_up() {
    assert!(gathers_on(0, true));
    assert!(!gathers_on(100, false));
    assert!(!gathers_on(GATHER_LIMIT, true));
    assert!(gathers_on(GATHER_LIMIT - 1, true));
    assert!(tries_again(0));
    assert!(!tries_again(u64::MAX));
    assert_eq!(STRAGGLER_WAIT, 500);
}
