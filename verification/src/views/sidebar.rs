//! The edit sidebar: transforms above, and how the file is written below.

use vstd::prelude::*;
use crate::edit::{Edits, Op};
use crate::export::{Format, Settings};
use crate::text;
use crate::views::crop::Aspect;

verus! {

/// What the sidebar can ask for.
#[derive(Debug, Clone, Copy, PartialEq, Eq)]
pub enum Action {
    Close,
    Apply(Op),
    Undo,
    Redo,
    Save,
    /// Take the transparent border away.
    Trim,
    StartCrop,
    SetAspect(Aspect),
    ApplyCrop,
    CancelCrop,
    /// A colour slider is being dragged.
    Adjusting,
    /// A colour slider was let go.
    CommitAdjust,
    ResetAdjust,
}

/// One button of the transform section.
#[derive(Debug, Clone, Copy)]
pub struct Transform {
    /// The row it stands in.
    pub row: &'static str,
    pub tooltip: &'static str,
    pub op: Op,
}

pub open spec fn transform_ops() -> Seq<Op> {
    seq![
        Op::FlipHorizontal,
        Op::FlipVertical,
        Op::RotateCcw,
        Op::RotateCw,
        Op::MirrorHorizontal,
        Op::MirrorVertical,
    ]
}

pub open spec fn transform_words(op: Op) -> (Seq<char>, Seq<char>) {
    match op {
        Op::FlipHorizontal => ("Flip"@, "Flip horizontally"@),
        Op::FlipVertical => ("Flip"@, "Flip vertically"@),
        Op::RotateCcw => ("Rotate"@, "Rotate 90\u{b0} anticlockwise"@),
        Op::RotateCw => ("Rotate"@, "Rotate 90\u{b0} clockwise (R)"@),
        Op::MirrorHorizontal => ("Mirror"@, "Mirror sideways \u{2014} twice as wide"@),
        Op::MirrorVertical => ("Mirror"@, "Mirror downwards \u{2014} twice as tall"@),
        _ => (Seq::empty(), Seq::empty()),
    }
}

/// The buttons of the transform section, two to a row.
pub fn transforms() -> (buttons: [Transform; 6])
    ensures
        forall|i: int| 0 <= i < 6 ==> (#[trigger] buttons[i]).op == transform_ops()[i],
        forall|i: int|
            0 <= i < 6 ==> ((#[trigger] buttons[i]).row@, buttons[i].tooltip@) == transform_words(
                buttons[i].op,
            ),
{
    [
        Transform { row: "Flip", tooltip: "Flip horizontally", op: Op::FlipHorizontal },
        Transform { row: "Flip", tooltip: "Flip vertically", op: Op::FlipVertical },
        Transform { row: "Rotate", tooltip: "Rotate 90\u{b0} anticlockwise", op: Op::RotateCcw },
        Transform { row: "Rotate", tooltip: "Rotate 90\u{b0} clockwise (R)", op: Op::RotateCw },
        Transform {
            row: "Mirror",
            tooltip: "Mirror sideways \u{2014} twice as wide",
            op: Op::MirrorHorizontal,
        },
        Transform {
            row: "Mirror",
            tooltip: "Mirror downwards \u{2014} twice as tall",
            op: Op::MirrorVertical,
        },
    ]
}

/// The number of changes, as English.
pub open spec fn changes_words(count: nat) -> Seq<char> {
    if count == 0 {
        "No changes"@
    } else if count == 1 {
        "1 change"@
    } else {
        text::decimal(count) + " changes"@
    }
}

pub fn changes_summary(edits: &Edits) -> (words: String)
    ensures
        words@ == changes_words(edits@.applied.len()),
{
    let count: usize = edits.len();
    if count == 0 {
        "No changes".to_owned()
    } else if count == 1 {
        "1 change".to_owned()
    } else {
        let mut words = text::to_decimal(count as u64);
        words.append(" changes");
        words
    }
}

/// Whether saving writes a new file: another format or another size does not take the
/// original's place.
pub open spec fn is_new_file(source_format: Option<Format>, settings: Settings) -> bool {
    source_format != Some(settings.format) || settings.scale_percent != 100
}

pub fn writes_new_file(source_format: Option<Format>, settings: Settings) -> (new: bool)
    ensures
        new == is_new_file(source_format, settings),
{
    let converting = match source_format {
        Some(format) => format != settings.format,
        None => true,
    };
    converting || settings.scale_percent != 100
}

/// What the save button says.
pub fn save_label(new_file: bool) -> (label: &'static str)
    ensures
        label@ == (if new_file {
            "Save as\u{2026}"@
        } else {
            "Save"@
        }),
{
    if new_file {
        "Save as\u{2026}"
    } else {
        "Save"
    }
}

/// What the save button promises.
pub fn save_hint(new_file: bool) -> (hint: &'static str)
    ensures
        hint@ == (if new_file {
            "Write a new file (Ctrl+S)"@
        } else {
            "Overwrite the original file (Ctrl+S)"@
        }),
{
    if new_file {
        "Write a new file (Ctrl+S)"
    } else {
        "Overwrite the original file (Ctrl+S)"
    }
}

/// What the sidebar offers.
#[derive(Debug, Clone, Copy, PartialEq, Eq)]
pub struct Offers {
    pub undo: bool,
    pub redo: bool,
    /// Whether the format has a quality to set.
    pub quality: bool,
    /// The size that would be written.
    pub size: Option<(u32, u32)>,
    /// Whether saving writes a new file.
    pub new_file: bool,
}

/// What is live in the sidebar: the edits there are to take back, a quality only where
/// the format has one, and the size and the file that saving would write.
pub fn offers(
    edits: &Edits,
    settings: Settings,
    edited_size: Option<(u32, u32)>,
    source_format: Option<Format>,
) -> (offers: Offers)
    ensures
        offers.undo == (edits@.applied.len() > 0),
        offers.redo == (edits@.undone.len() > 0),
        offers.quality == (settings.format == Format::Jpeg || settings.format == Format::WebP),
        offers.size == (match edited_size {
            Some(size) => Some(settings.scaled(size)),
            None => None,
        }),
        offers.new_file == is_new_file(source_format, settings),
{
    Offers {
        undo: edits.can_undo(),
        redo: edits.can_redo(),
        quality: settings.format.is_lossy(),
        size: match edited_size {
            Some(size) => Some(settings.size_after(size)),
            None => None,
        },
        new_file: writes_new_file(source_format, settings),
    }
}

/// The buttons are two of each kind, no two alike, and each says what it does: the kind is the
/// row it stands in, and what it turns to is in its words.
pub proof fn law_each_button_says_what_it_does(i: int, j: int)
    requires
        0 <= i < j < 6,
    ensures
        transform_ops().len() == 6,
        transform_ops()[i] != transform_ops()[j],
        transform_words(Op::FlipHorizontal) == ("Flip"@, "Flip horizontally"@),
        transform_words(Op::FlipVertical) == ("Flip"@, "Flip vertically"@),
        transform_words(Op::RotateCcw) == ("Rotate"@, "Rotate 90\u{b0} anticlockwise"@),
        transform_words(Op::RotateCw) == ("Rotate"@, "Rotate 90\u{b0} clockwise (R)"@),
        transform_words(Op::MirrorHorizontal) == (
            "Mirror"@,
            "Mirror sideways \u{2014} twice as wide"@,
        ),
        transform_words(Op::MirrorVertical) == (
            "Mirror"@,
            "Mirror downwards \u{2014} twice as tall"@,
        ),
{
}

/// Changes are counted in words: none, one, or a number of them.
pub proof fn law_changes_are_counted(count: nat)
    ensures
        count == 0 ==> changes_words(count) == "No changes"@,
        count == 1 ==> changes_words(count) == "1 change"@,
        count >= 2 ==> changes_words(count) == text::decimal(count) + " changes"@,
{
}

/// A new file is written unless the file keeps its format and its size.
pub proof fn law_a_changed_format_or_size_is_a_new_file(
    source_format: Option<Format>,
    settings: Settings,
)
    ensures
        !is_new_file(source_format, settings) <==> source_format is Some && source_format->0
            == settings.format && settings.scale_percent == 100,
{
}

} // verus!
