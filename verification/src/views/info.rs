//! The info panel: what this file is, and what the camera recorded about it.

use vstd::prelude::*;
use crate::metadata;
use crate::path;
use crate::sizes;
use crate::text;

verus! {

/// What the panel can ask for.
#[derive(Debug, Clone, Copy, PartialEq, Eq, Structural)]
pub enum Action {
    Close,
}

/// A row for each, if there is one.
pub open spec fn row(label: Seq<char>, value: Option<Seq<char>>) -> Seq<(Seq<char>, Seq<char>)> {
    match value {
        Some(value) => seq![(label, value)],
        None => Seq::empty(),
    }
}

/// The folder that a path names, where it names one.
pub open spec fn folder_of(path: Seq<char>) -> Option<Seq<char>> {
    match path::parent_of(path) {
        Some(folder) => if folder.len() == 0 {
            None
        } else {
            Some(folder)
        },
        None => None,
    }
}

/// What identifies the file: its name and folder, or that it has never been one.
pub open spec fn naming(path: Option<Seq<char>>) -> Seq<(Seq<char>, Seq<char>)> {
    match path {
        Some(path) => row("Name"@, path::name_of(path)) + row("Folder"@, folder_of(path)),
        None => row("Name"@, Some("Unsaved image"@)),
    }
}

pub open spec fn size_words(bytes: u64) -> Seq<char> {
    sizes::size_in_words(bytes) + " ("@ + text::decimal(bytes as nat) + " bytes)"@
}

/// A width and a height, as `640 × 480`.
pub open spec fn area_words(size: (u32, u32)) -> Seq<char> {
    text::decimal(size.0 as nat) + " \u{d7} "@ + text::decimal(size.1 as nat)
}

pub open spec fn facts_of(
    path: Option<Seq<char>>,
    file_size: Option<u64>,
    dimensions: Option<(u32, u32)>,
) -> Seq<(Seq<char>, Seq<char>)> {
    naming(path) + row(
        "Size"@,
        match file_size {
            Some(bytes) => Some(size_words(bytes)),
            None => None,
        },
    ) + row(
        "Dimensions"@,
        match dimensions {
            Some(size) => Some(area_words(size) + " px"@),
            None => None,
        },
    )
}

/// A width and a height in words.
pub fn area(size: (u32, u32)) -> (words: String)
    ensures
        words@ == area_words(size),
{
    let mut words = text::to_decimal(size.0 as u64);
    words.append(" \u{d7} ");
    words.append(text::to_decimal(size.1 as u64).as_str());
    words
}

fn add_row(facts: &mut Vec<(&'static str, String)>, label: &'static str, value: Option<String>)
    ensures
        metadata::rows_of(final(facts)@) == metadata::rows_of(old(facts)@) + row(
            label@,
            match value {
                Some(value) => Some(value@),
                None => None,
            },
        ),
{
    match value {
        Some(value) => {
            let ghost before = facts@;
            facts.push((label, value));
            assert(metadata::rows_of(facts@) =~= metadata::rows_of(before) + row(
                label@,
                Some(value@),
            ));
        },
        None => {
            assert(metadata::rows_of(facts@) =~= metadata::rows_of(facts@) + row(label@, None));
        },
    }
}

/// What is known of the file without reading it again. Nothing is claimed that is not
/// known: no row stands empty.
pub fn file_facts(
    path: Option<&str>,
    file_size: Option<u64>,
    dimensions: Option<(u32, u32)>,
) -> (facts: Vec<(&'static str, String)>)
    ensures
        metadata::rows_of(facts@) == facts_of(
            match path {
                Some(path) => Some(path@),
                None => None,
            },
            file_size,
            dimensions,
        ),
{
    let mut facts: Vec<(&'static str, String)> = Vec::new();
    assert(metadata::rows_of(facts@) =~= Seq::empty());
    match path {
        Some(path) => {
            add_row(&mut facts, "Name", path::file_name(path));
            let folder = match path::parent(path) {
                Some(folder) => if folder.as_str().is_empty() {
                    None
                } else {
                    Some(folder)
                },
                None => None,
            };
            add_row(&mut facts, "Folder", folder);
            assert(metadata::rows_of(facts@) =~= naming(Some(path@)));
        },
        None => {
            add_row(&mut facts, "Name", Some("Unsaved image".to_owned()));
            assert(metadata::rows_of(facts@) =~= naming(None));
        },
    }
    let size = match file_size {
        Some(bytes) => {
            let mut words = sizes::human_size(bytes);
            words.append(" (");
            words.append(text::to_decimal(bytes).as_str());
            words.append(" bytes)");
            Some(words)
        },
        None => None,
    };
    add_row(&mut facts, "Size", size);
    let shape = match dimensions {
        Some(size) => {
            let mut words = area(size);
            words.append(" px");
            Some(words)
        },
        None => None,
    };
    add_row(&mut facts, "Dimensions", shape);
    facts
}

/// What is said below the rows: that nothing was recorded, once that is certain.
pub fn closing_words(ready: bool, nothing_recorded: bool) -> (words: Option<&'static str>)
    ensures
        words is Some <==> ready && nothing_recorded,
        words matches Some(words) ==> words@ == "No EXIF metadata in this file"@,
{
    if ready && nothing_recorded {
        Some("No EXIF metadata in this file")
    } else {
        None
    }
}

/// The name comes first whatever is known, and nothing is claimed of a size or a shape
/// that is not.
pub proof fn law_nothing_is_claimed_that_is_not_known(path: Option<Seq<char>>)
    ensures
        facts_of(path, None, None) == naming(path),
        path is None ==> facts_of(path, None, None) == seq![("Name"@, "Unsaved image"@)],
{
    assert(facts_of(path, None, None) =~= naming(path));
}

/// What is told of a file, it is told with its own label: the name, the folder it is in, its size
/// in bytes and its sides in pixels, width first.
pub proof fn law_facts_stand_behind_their_labels(
    path: Option<Seq<char>>,
    file_size: Option<u64>,
    dimensions: Option<(u32, u32)>,
    i: int,
)
    requires
        0 <= i < facts_of(path, file_size, dimensions).len(),
    ensures
        ({
            let (label, value) = facts_of(path, file_size, dimensions)[i];
            ||| label == "Name"@ && (path matches Some(path) ==> path::name_of(path) == Some(value))
                && (path is None ==> value == "Unsaved image"@)
            ||| label == "Folder"@ && path is Some && path::parent_of(path->0) == Some(value)
                && value.len() > 0
            ||| label == "Size"@ && file_size is Some && value == sizes::size_in_words(file_size->0)
                + seq![' ', '('] + text::decimal(file_size->0 as nat) + seq![
                ' ',
                'b',
                'y',
                't',
                'e',
                's',
                ')',
            ]
            ||| label == "Dimensions"@ && (dimensions matches Some((width, height)) && value
                == text::decimal(width as nat) + seq![' ', '\u{d7}', ' '] + text::decimal(
                height as nat,
            ) + seq![' ', 'p', 'x'])
        }),
{
    reveal_strlit(" (");
    reveal_strlit(" bytes)");
    reveal_strlit(" \u{d7} ");
    reveal_strlit(" px");
    if let Some(bytes) = file_size {
        assert(size_words(bytes) =~= sizes::size_in_words(bytes) + seq![' ', '('] + text::decimal(
            bytes as nat,
        ) + seq![' ', 'b', 'y', 't', 'e', 's', ')']);
    }
    if let Some(size) = dimensions {
        assert(area_words(size) + " px"@ =~= text::decimal(size.0 as nat) + seq![
            ' ',
            '\u{d7}',
            ' ',
        ] + text::decimal(size.1 as nat) + seq![' ', 'p', 'x']);
    }
}

/// All that is known of a file is told.
pub proof fn law_all_that_is_known_is_told(
    path: Seq<char>,
    file_size: Option<u64>,
    dimensions: Option<(u32, u32)>,
)
    ensures
        facts_of(Some(path), file_size, dimensions).len() == (if path::name_of(path) is Some {
            1int
        } else {
            0
        }) + (if path::parent_of(path) is Some && path::parent_of(path)->0.len() > 0 {
            1int
        } else {
            0
        }) + (if file_size is Some { 1int } else { 0 }) + (if dimensions is Some { 1int } else { 0 }),
{
}

} // verus!
