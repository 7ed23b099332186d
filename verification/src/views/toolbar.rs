//! The toolbar: which buttons there are, what they offer, and when they are live.

use vstd::prelude::*;
use crate::order::Order;

verus! {

/// What the toolbar can ask for.
#[derive(Debug, Clone, Copy, PartialEq, Eq, Structural)]
pub enum Action {
    Open,
    OpenFolder,
    Sort(Order),
    ToggleInfo,
    CopyPath,
    Delete,
    ToggleFullscreen,
    ToggleSlideshow,
    ToggleSidebar,
    ToggleSettings,
}

/// What the toolbar needs to know to draw itself.
#[derive(Debug, Clone, Copy, PartialEq, Eq, Structural)]
pub struct Bar {
    pub has_image: bool,
    pub fullscreen: bool,
    pub slideshow: bool,
    /// Whether there is anywhere to step to, which is what makes a slideshow worth
    /// offering at all.
    pub has_neighbours: bool,
    pub sidebar_open: bool,
    pub info_open: bool,
    pub settings_open: bool,
    /// What the folder listing is ordered by.
    pub order: Order,
}

/// The buttons, from left to right; the last two stand at the far end, from right to
/// left.
#[derive(Debug, Clone, Copy, PartialEq, Eq, Structural)]
pub enum Control {
    Open,
    OpenFolder,
    Sort,
    Fit,
    ActualSize,
    Fullscreen,
    Slideshow,
    Info,
    CopyPath,
    Delete,
    Settings,
    Sidebar,
}

impl Control {
    pub fn all() -> (all: [Control; 12])
        ensures
            all@ == seq![
                Control::Open,
                Control::OpenFolder,
                Control::Sort,
                Control::Fit,
                Control::ActualSize,
                Control::Fullscreen,
                Control::Slideshow,
                Control::Info,
                Control::CopyPath,
                Control::Delete,
                Control::Settings,
                Control::Sidebar,
            ],
    {
        [
            Control::Open,
            Control::OpenFolder,
            Control::Sort,
            Control::Fit,
            Control::ActualSize,
            Control::Fullscreen,
            Control::Slideshow,
            Control::Info,
            Control::CopyPath,
            Control::Delete,
            Control::Settings,
            Control::Sidebar,
        ]
    }

    /// What pressing it asks for. The sort button opens a menu, and the two that only
    /// change how the image is looked at ask for nothing.
    pub fn action(self) -> (action: Option<Action>)
        ensures
            action == self.asks(),
    {
        match self {
            Control::Open => Some(Action::Open),
            Control::OpenFolder => Some(Action::OpenFolder),
            Control::Fullscreen => Some(Action::ToggleFullscreen),
            Control::Slideshow => Some(Action::ToggleSlideshow),
            Control::Info => Some(Action::ToggleInfo),
            Control::CopyPath => Some(Action::CopyPath),
            Control::Delete => Some(Action::Delete),
            Control::Settings => Some(Action::ToggleSettings),
            Control::Sidebar => Some(Action::ToggleSidebar),
            Control::Sort => None,
            Control::Fit => None,
            Control::ActualSize => None,
        }
    }

    pub open spec fn asks(self) -> Option<Action> {
        match self {
            Control::Open => Some(Action::Open),
            Control::OpenFolder => Some(Action::OpenFolder),
            Control::Fullscreen => Some(Action::ToggleFullscreen),
            Control::Slideshow => Some(Action::ToggleSlideshow),
            Control::Info => Some(Action::ToggleInfo),
            Control::CopyPath => Some(Action::CopyPath),
            Control::Delete => Some(Action::Delete),
            Control::Settings => Some(Action::ToggleSettings),
            Control::Sidebar => Some(Action::ToggleSidebar),
            _ => None,
        }
    }

    /// Whether it acts on the image on screen.
    pub open spec fn needs_image(self) -> bool {
        match self {
            Control::Open | Control::OpenFolder | Control::Sort | Control::Settings => false,
            _ => true,
        }
    }

    /// Whether it acts on the images beside that one.
    pub open spec fn needs_neighbours(self) -> bool {
        self is Sort || self is Slideshow
    }
}

impl Bar {
    pub open spec fn enables(self, control: Control) -> bool {
        &&& control.needs_image() ==> self.has_image
        &&& control.needs_neighbours() ==> self.has_neighbours
    }

    /// Whether a button can be pressed.
    pub fn is_enabled(self, control: Control) -> (enabled: bool)
        ensures
            enabled == self.enables(control),
    {
        match control {
            Control::Open => true,
            Control::OpenFolder => true,
            Control::Settings => true,
            Control::Sort => self.has_neighbours,
            Control::Slideshow => self.has_image && self.has_neighbours,
            Control::Fit => self.has_image,
            Control::ActualSize => self.has_image,
            Control::Fullscreen => self.has_image,
            Control::Info => self.has_image,
            Control::CopyPath => self.has_image,
            Control::Delete => self.has_image,
            Control::Sidebar => self.has_image,
        }
    }

    pub open spec fn hint(self, control: Control) -> Seq<char> {
        match control {
            Control::Open => "Open an image (Ctrl+O)"@,
            Control::OpenFolder => "Open a folder (Ctrl+Shift+O)"@,
            Control::Sort => "Sort this folder"@,
            Control::Fit => "Fit to window (F)"@,
            Control::ActualSize => "Actual size (1)"@,
            Control::Fullscreen => if self.fullscreen {
                "Leave fullscreen (F11 or Esc)"@
            } else {
                "Fullscreen (F11)"@
            },
            Control::Slideshow => if self.slideshow {
                "Stop the slideshow (Space)"@
            } else {
                "Play a slideshow (Space)"@
            },
            Control::Info => if self.info_open {
                "Close the info panel (I)"@
            } else {
                "File and EXIF info (I)"@
            },
            Control::CopyPath => "Copy file path (P)"@,
            Control::Delete => "Move to Recycle Bin (Del)"@,
            Control::Settings => if self.settings_open {
                "Close settings (S)"@
            } else {
                "Settings and shortcuts (S)"@
            },
            Control::Sidebar => if self.sidebar_open {
                "Close the edit sidebar (E)"@
            } else {
                "Edit this image (E)"@
            },
        }
    }

    /// What pressing a button does next.
    pub fn tooltip(self, control: Control) -> (tooltip: &'static str)
        ensures
            tooltip@ == self.hint(control),
    {
        match control {
            Control::Open => "Open an image (Ctrl+O)",
            Control::OpenFolder => "Open a folder (Ctrl+Shift+O)",
            Control::Sort => "Sort this folder",
            Control::Fit => "Fit to window (F)",
            Control::ActualSize => "Actual size (1)",
            Control::Fullscreen => if self.fullscreen {
                "Leave fullscreen (F11 or Esc)"
            } else {
                "Fullscreen (F11)"
            },
            Control::Slideshow => if self.slideshow {
                "Stop the slideshow (Space)"
            } else {
                "Play a slideshow (Space)"
            },
            Control::Info => if self.info_open {
                "Close the info panel (I)"
            } else {
                "File and EXIF info (I)"
            },
            Control::CopyPath => "Copy file path (P)",
            Control::Delete => "Move to Recycle Bin (Del)",
            Control::Settings => if self.settings_open {
                "Close settings (S)"
            } else {
                "Settings and shortcuts (S)"
            },
            Control::Sidebar => if self.sidebar_open {
                "Close the edit sidebar (E)"
            } else {
                "Edit this image (E)"
            },
        }
    }
}

/// With nothing open, only what does not need an image can be pressed.
pub proof fn law_an_empty_window_offers_no_edits(bar: Bar, control: Control)
    requires
        !bar.has_image,
        bar.enables(control),
    ensures
        control is Open || control is OpenFolder || control is Sort || control is Settings,
{
}

/// A button asks for what it is for, and no two ask for the same. What the view does by itself
/// is asked of nobody.
pub proof fn law_each_button_asks_for_its_own(control: Control, other: Control)
    ensures
        control.asks() is None <==> control is Sort || control is Fit || control is ActualSize,
        control.asks() is Some && control.asks() == other.asks() ==> control == other,
        Control::Open.asks() == Some(Action::Open),
        Control::OpenFolder.asks() == Some(Action::OpenFolder),
        Control::Fullscreen.asks() == Some(Action::ToggleFullscreen),
        Control::Slideshow.asks() == Some(Action::ToggleSlideshow),
        Control::Info.asks() == Some(Action::ToggleInfo),
        Control::CopyPath.asks() == Some(Action::CopyPath),
        Control::Delete.asks() == Some(Action::Delete),
        Control::Settings.asks() == Some(Action::ToggleSettings),
        Control::Sidebar.asks() == Some(Action::ToggleSidebar),
{
}

/// With an image among others every button works. With one alone, nothing is offered that needs
/// another.
pub proof fn law_a_button_works_when_it_has_something_to_do(bar: Bar, control: Control)
    ensures
        bar.has_image && bar.has_neighbours ==> bar.enables(control),
        !bar.has_neighbours ==> !bar.enables(Control::Sort) && !bar.enables(Control::Slideshow),
        bar.has_image && !(control is Sort) && !(control is Slideshow) ==> bar.enables(control),
        bar.enables(Control::Open) && bar.enables(Control::OpenFolder) && bar.enables(
            Control::Settings,
        ),
{
}

/// A button that is on says how to turn it off.
pub proof fn law_a_button_that_is_on_offers_to_turn_it_off(bar: Bar)
    ensures
        bar.hint(Control::Fullscreen) == "Leave fullscreen (F11 or Esc)"@ <==> bar.fullscreen,
        bar.hint(Control::Slideshow) == "Stop the slideshow (Space)"@ <==> bar.slideshow,
        bar.hint(Control::Info) == "Close the info panel (I)"@ <==> bar.info_open,
        bar.hint(Control::Settings) == "Close settings (S)"@ <==> bar.settings_open,
        bar.hint(Control::Sidebar) == "Close the edit sidebar (E)"@ <==> bar.sidebar_open,
{
    reveal_strlit("Leave fullscreen (F11 or Esc)");
    reveal_strlit("Fullscreen (F11)");
    reveal_strlit("Stop the slideshow (Space)");
    reveal_strlit("Play a slideshow (Space)");
    reveal_strlit("Close the info panel (I)");
    reveal_strlit("File and EXIF info (I)");
    reveal_strlit("Close settings (S)");
    reveal_strlit("Settings and shortcuts (S)");
    reveal_strlit("Close the edit sidebar (E)");
    reveal_strlit("Edit this image (E)");
    assert("Leave fullscreen (F11 or Esc)"@[0] != "Fullscreen (F11)"@[0]);
    assert("Stop the slideshow (Space)"@[0] != "Play a slideshow (Space)"@[0]);
    assert("Close the info panel (I)"@[0] != "File and EXIF info (I)"@[0]);
    assert("Close settings (S)"@[0] != "Settings and shortcuts (S)"@[0]);
    assert("Close the edit sidebar (E)"@[0] != "Edit this image (E)"@[0]);
}

} // verus!
