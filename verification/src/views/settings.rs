//! The settings panel: the shortcuts, and the choices that last.

use vstd::prelude::*;
use crate::order::{Order, SortKey};

verus! {

/// What the panel can ask for.
#[derive(Debug, Clone, Copy, PartialEq, Eq, Structural)]
pub enum Action {
    Close,
    /// The slideshow slider moved. Applied live, saved when the drag ends.
    SetSlideshow(u32),
    /// The slider was let go.
    CommitSlideshow,
    /// A sort choice was picked; applied and saved at once.
    SetOrder(Order),
}

/// Every binding there is, as it is shown.
pub const SHORTCUTS: [(&'static str, &'static str); 20] = [
    ("Ctrl+O", "Open an image"),
    ("Ctrl+Shift+O", "Open a folder"),
    ("\u{2190} / \u{2192}", "Previous / next image"),
    ("Space", "Slideshow / animation"),
    ("F11", "Fullscreen"),
    ("Esc", "Back out, or close"),
    ("F or 0", "Fit to window"),
    ("1", "Actual size"),
    ("+ / \u{2212}", "Zoom in / out"),
    ("Ctrl+C", "Copy this image"),
    ("V", "Paste an image or path"),
    ("P", "Copy the file path"),
    ("Del", "Move to Recycle Bin"),
    ("R", "Rotate clockwise"),
    ("C", "Crop"),
    ("E", "Edit sidebar"),
    ("I", "File and EXIF info"),
    ("S", "This panel"),
    ("Ctrl+S", "Save"),
    ("Ctrl+Z / Ctrl+Y", "Undo / redo"),
];

/// What happened to the panel's widgets in one drawing of the window.
#[derive(Debug, Clone, Copy, PartialEq, Eq)]
pub struct Touched {
    pub close: bool,
    /// The slider stands at this many seconds now.
    pub moved_to: Option<u32>,
    pub drag_stopped: bool,
    pub picked: Option<SortKey>,
    /// Whether the direction was changed.
    pub reversed: bool,
}

/// What the panel asks for: the later a widget stands in it, the more it counts, but for
/// the close button, which stands first.
pub open spec fn request(touched: Touched, order: Order) -> Option<Action> {
    if touched.reversed {
        Some(Action::SetOrder(Order { key: order.key, descending: !order.descending }))
    } else if touched.picked is Some {
        Some(Action::SetOrder(Order { key: touched.picked->0, descending: order.descending }))
    } else if touched.drag_stopped {
        Some(Action::CommitSlideshow)
    } else if touched.moved_to is Some {
        Some(Action::SetSlideshow(touched.moved_to->0))
    } else if touched.close {
        Some(Action::Close)
    } else {
        None
    }
}

pub fn asked(touched: Touched, order: Order) -> (action: Option<Action>)
    ensures
        action == request(touched, order),
{
    if touched.reversed {
        return Some(Action::SetOrder(order.reversed()));
    }
    if let Some(key) = touched.picked {
        return Some(Action::SetOrder(order.keyed(key)));
    }
    if touched.drag_stopped {
        return Some(Action::CommitSlideshow);
    }
    if let Some(secs) = touched.moved_to {
        return Some(Action::SetSlideshow(secs));
    }
    if touched.close {
        Some(Action::Close)
    } else {
        None
    }
}

/// A change of the direction turns the order round and keeps what it sorts by. A change of what
/// to sort by keeps the direction.
pub proof fn law_one_half_of_an_order_changes_at_a_time(touched: Touched, order: Order)
    ensures
        request(touched, order) matches Some(Action::SetOrder(new)) ==> {
            &&& touched.reversed ==> new.key == order.key && new.descending != order.descending
            &&& !touched.reversed ==> touched.picked == Some(new.key) && new.descending
                == order.descending
        },
        touched.reversed || touched.picked is Some ==> request(touched, order) is Some && request(
            touched,
            order,
        )->0 is SetOrder,
{
}

/// While the slider moves its value is applied, and when it is let go the value is kept. Nothing
/// that was not touched is asked for.
pub proof fn law_the_slider_is_kept_when_let_go(touched: Touched, order: Order)
    requires
        !touched.reversed,
        touched.picked is None,
    ensures
        touched.drag_stopped ==> request(touched, order) == Some(Action::CommitSlideshow),
        !touched.drag_stopped ==> (touched.moved_to matches Some(secs) ==> request(touched, order)
            == Some(Action::SetSlideshow(secs))),
        !touched.drag_stopped && touched.moved_to is None ==> request(touched, order) == (
        if touched.close {
            Some(Action::Close)
        } else {
            None
        }),
{
}

} // verus!
