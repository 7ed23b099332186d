//! Folder listings, from what was found in them.

use imaginer::cache::Moment;
use imaginer::folder::{Folder, Found};
use imaginer::order::{Order, SortKey};
use imaginer::path;

const DIR: &str = r"C:\photos";

fn at(name: &str) -> String {
    path::join(DIR, name)
}

fn found(files: &[(&str, u64, i64)]) -> Vec<Found> {
    files
        .iter()
        .map(|(name, len, secs)| Found {
            path: at(name),
            is_file: true,
            len: *len,
            modified: Some(Moment { secs: *secs, nanos: 0 }),
        })
        .collect()
}

fn empty_files(names: &[&str]) -> Vec<Found> {
    let files: Vec<(&str, u64, i64)> = names.iter().map(|name| (*name, 0, 0)).collect();
    found(&files)
}

fn by(key: SortKey, descending: bool) -> Order {
    Order { key, descending }
}

fn names(folder: &Folder) -> Vec<String> {
    (0..folder.len()).map(|i| path::file_name(folder.path_at(i)).unwrap()).collect()
}

fn containing(name: &str, files: Vec<Found>) -> Folder {
    Folder::containing(&at(name), files, Order::default())
}

#[test]
fn lists_only_supported_images_sorted_case_insensitively() {
    let files = empty_files(&["Beta.PNG", "alpha.jpg", "notes.txt", "gamma.webp"]);
    let folder = Folder::of_directory(files, Order::default());
    assert_eq!(names(&folder), ["alpha.jpg", "Beta.PNG", "gamma.webp"]);
}

#[test]
fn name_order_reverses_into_z_first() {
    let files = empty_files(&["Beta.PNG", "alpha.jpg", "gamma.webp"]);
    let folder = Folder::of_directory(files, by(SortKey::Name, true));
    assert_eq!(names(&folder), ["gamma.webp", "Beta.PNG", "alpha.jpg"]);
}

#[test]
fn size_order_runs_smallest_to_largest_and_back() {
    let files = [("big.png", 3000, 1), ("small.png", 10, 2), ("mid.png", 900, 3)];
    let up = Folder::of_directory(found(&files), by(SortKey::Size, false));
    assert_eq!(names(&up), ["small.png", "mid.png", "big.png"]);

    let down = Folder::of_directory(found(&files), by(SortKey::Size, true));
    assert_eq!(names(&down), ["big.png", "mid.png", "small.png"]);
}

#[test]
fn date_order_runs_oldest_to_newest_and_back() {
    let files = [("newest.png", 1, 30_000), ("oldest.png", 1, 10_000), ("middle.png", 1, 20_000)];
    let up = Folder::of_directory(found(&files), by(SortKey::Modified, false));
    assert_eq!(names(&up), ["oldest.png", "middle.png", "newest.png"]);

    let down = Folder::of_directory(found(&files), by(SortKey::Modified, true));
    assert_eq!(names(&down), ["newest.png", "middle.png", "oldest.png"]);
}

#[test]
fn files_that_tie_fall_back_to_the_name_rather_than_to_chance() {
    let files = [("c.png", 500, 99), ("a.png", 500, 99), ("b.png", 500, 99)];
    for descending in [false, true] {
        for key in [SortKey::Modified, SortKey::Size] {
            let folder = Folder::of_directory(found(&files), by(key, descending));
            assert_eq!(
                names(&folder),
                ["a.png", "b.png", "c.png"],
                "{key:?} descending={descending}"
            );
        }
    }
}

#[test]
fn reordering_keeps_the_cursor_on_the_image_being_looked_at() {
    let files = [("a.png", 3000, 1), ("b.png", 2000, 2), ("c.png", 100, 3)];
    let mut folder = containing("a.png", found(&files));
    assert_eq!(folder.position(), Some((1, 3)));

    folder.set_order(by(SortKey::Size, false));

    assert_eq!(folder.current(), Some(at("a.png").as_str()));
    assert_eq!(folder.position(), Some((3, 3)));
    assert_eq!(folder.next_image(), Some(at("c.png")));
}

#[test]
fn the_order_already_in_force_leaves_the_listing_in_order() {
    let files = [("b.png", 2000, 2), ("a.png", 3000, 1), ("c.png", 100, 3)];
    let mut folder = Folder::of_directory(found(&files), by(SortKey::Size, true));
    folder.set_order(by(SortKey::Size, true));
    assert_eq!(names(&folder), ["a.png", "b.png", "c.png"]);

    assert_eq!(folder.remove(&at("b.png")), Some(at("c.png")));
    folder.set_order(by(SortKey::Size, true));
    assert_eq!(names(&folder), ["a.png", "c.png"]);
}

#[test]
fn reordering_an_empty_listing_is_harmless() {
    let mut folder = Folder::of_directory(empty_files(&["readme.txt"]), Order::default());
    folder.set_order(by(SortKey::Size, true));

    assert!(folder.is_empty());
    assert_eq!(folder.current(), None);
    assert_eq!(folder.order().key, SortKey::Size);
}

#[test]
fn containing_positions_the_cursor_on_the_opened_file() {
    let folder = containing("b.png", empty_files(&["a.png", "b.png", "c.png"]));
    assert_eq!(folder.position(), Some((2, 3)));
    assert_eq!(folder.current(), Some(at("b.png").as_str()));
}

#[test]
fn stepping_wraps_at_both_ends() {
    let mut folder = containing("a.png", empty_files(&["a.png", "b.png"]));
    assert_eq!(folder.next_image(), Some(at("b.png")));
    assert_eq!(folder.next_image(), Some(at("a.png")));
    assert_eq!(folder.prev_image(), Some(at("b.png")));
}

#[test]
fn removing_lands_on_the_image_that_took_its_place() {
    let mut folder = containing("b.png", empty_files(&["a.png", "b.png", "c.png"]));
    assert_eq!(folder.remove(&at("b.png")), Some(at("c.png")));
    assert_eq!(folder.position(), Some((2, 2)));
}

#[test]
fn removing_the_last_image_leaves_nothing_to_show() {
    let mut folder = containing("only.png", empty_files(&["only.png"]));
    assert_eq!(folder.remove(&at("only.png")), None);
    assert!(folder.is_empty());
    assert_eq!(folder.current(), None);
}

#[test]
fn neighbours_come_back_nearest_first_and_forward_before_back() {
    let files = empty_files(&["a.png", "b.png", "c.png", "d.png", "e.png"]);
    let folder = containing("c.png", files);
    assert_eq!(
        folder.neighbours(2),
        [at("d.png"), at("b.png"), at("e.png"), at("a.png")]
    );
}

#[test]
fn neighbours_wrap_at_the_ends() {
    let folder = containing("c.png", empty_files(&["a.png", "b.png", "c.png"]));
    assert_eq!(folder.neighbours(1), [at("a.png"), at("b.png")]);
}

#[test]
fn neighbours_never_repeat_an_image_or_name_the_current_one() {
    let folder = containing("a.png", empty_files(&["a.png", "b.png"]));
    assert_eq!(folder.neighbours(1), [at("b.png")]);
    assert_eq!(folder.neighbours(9), [at("b.png")]);
}

#[test]
fn a_lone_image_has_no_neighbours() {
    let folder = containing("only.png", empty_files(&["only.png"]));
    assert!(folder.neighbours(2).is_empty());
}

#[test]
fn a_directory_with_no_images_has_no_cursor() {
    let mut folder = Folder::of_directory(empty_files(&["readme.txt"]), Order::default());
    assert!(folder.is_empty());
    assert_eq!(folder.current(), None);
    assert_eq!(folder.next_image(), None);
}

#[test]
fn a_directory_is_not_an_image() {
    let mut files = empty_files(&["a.png", "b.png"]);
    files[1].is_file = false;
    let folder = Folder::of_directory(files, Order::default());
    assert_eq!(names(&folder), ["a.png"]);
}

#[test]
fn names_sort_without_regard_to_case_beyond_english() {
    let files = empty_files(&["\u{c4}pfel.png", "\u{e4}a.png", "zebra.png"]);
    let folder = Folder::of_directory(files, Order::default());
    assert_eq!(names(&folder), ["zebra.png", "\u{e4}a.png", "\u{c4}pfel.png"]);
}

#[test]
fn removing_what_is_not_listed_changes_nothing() {
    let mut folder = containing("a.png", empty_files(&["a.png", "b.png"]));
    assert_eq!(folder.remove(&at("z.png")), None);
    assert_eq!(folder.len(), 2);
    assert_eq!(folder.position(), Some((1, 2)));
}

#[test]
fn a_time_that_is_not_known_comes_first() {
    let mut files = found(&[("known.png", 1, 5), ("unknown.png", 1, 9)]);
    files[1].modified = None;
    let folder = Folder::of_directory(files, by(SortKey::Modified, false));
    assert_eq!(names(&folder), ["unknown.png", "known.png"]);
}

#[test]
fn an_order_says_whether_it_is_the_usual_one() {
    assert!(Order::default().is_default());
    assert!(!by(SortKey::Name, true).is_default());
    assert_eq!(by(SortKey::Name, true).keyed(SortKey::Size), by(SortKey::Size, true));
    assert_eq!(by(SortKey::Size, true).reversed(), by(SortKey::Size, false));
    let labels: Vec<&str> = SortKey::all().iter().map(|key| key.label()).collect();
    assert_eq!(labels, ["Name", "Date", "Size"]);
}

#[test]
fn the_folder_of_a_path_is_its_parent() {
    assert_eq!(Folder::directory_of(&at("a.png")), Some(DIR.to_owned()));
    assert_eq!(Folder::directory_of("a.png"), Some(String::new()));
}

#[test]
fn equal_names_are_ordered_by_the_parts_of_their_paths() {
    let found = |path: &str| Found { path: path.to_owned(), is_file: true, len: 0, modified: None };
    let paths = |folder: &Folder| -> Vec<String> {
        (0..folder.len()).map(|i| folder.path_at(i).to_owned()).collect()
    };

    // By their characters these stand in order: a dot comes before the separator.
    let files = vec![found(r"a.b\x.png"), found(r"a\x.png")];
    let folder = Folder::of_directory(files, Order::default());
    assert_eq!(paths(&folder), [r"a\x.png", r"a.b\x.png"]);

    // Two ways to write one path tie, and stay as they were found.
    let files = vec![found(r"a\\x.png"), found(r"a\x.png"), found(r"a\.\x.png")];
    let folder = Folder::of_directory(files, by(SortKey::Size, true));
    assert_eq!(paths(&folder), [r"a\\x.png", r"a\x.png", r"a\.\x.png"]);
}
