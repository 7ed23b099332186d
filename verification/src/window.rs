//! How the window is laid out, and what its parts are told.

use vstd::prelude::*;
use crate::order::Order;
use crate::session::{Scene, Session};
use crate::shortcuts::{Command, Situation};
use crate::views::timeline::Playback;
use crate::views::toolbar;
use crate::views::toolbar::Bar;

verus! {

/// What is drawn.
#[derive(Debug, Clone, Copy, PartialEq, Eq)]
pub struct Layout {
    /// The toolbar and the status bar, and the playback bar if there is anything to play.
    pub chrome: bool,
    pub info: bool,
    pub sidebar: bool,
    pub settings: bool,
    pub chevrons: bool,
    pub playback: bool,
    /// The rectangle being drawn over the image.
    pub crop: bool,
}

/// What to do about the drawings of vector artwork once the window has been laid out.
#[derive(Debug, Clone, Copy, PartialEq, Eq, Structural)]
pub enum Sharpen {
    /// See whether a sharper one is due.
    Look,
    /// Leave them alone: what is on screen is not the artwork, or about to be replaced.
    Rest,
}

impl Scene {
    /// Fullscreen is the image alone, until the pointer moves. The info panel describes an
    /// image, so it waits for one; while a crop is drawn, nothing else acts on the image.
    pub open spec fn layout(self, pointer_moved: bool) -> Layout {
        let shown = self.canvas is Some;
        Layout {
            chrome: !self.fullscreen || pointer_moved,
            info: self.panels.info && shown,
            sidebar: self.panels.sidebar,
            settings: self.panels.settings,
            chevrons: shown && self.crop is None && self.has_neighbours(),
            playback: shown && self.crop is None,
            crop: shown && self.crop is Some,
        }
    }

    pub open spec fn bar(self) -> Bar {
        Bar {
            has_image: self.canvas is Some,
            fullscreen: self.fullscreen,
            slideshow: self.slideshow.due is Some,
            has_neighbours: self.has_neighbours(),
            sidebar_open: self.panels.sidebar,
            info_open: self.panels.info,
            settings_open: self.panels.settings,
            order: self.settings.order,
        }
    }

    /// Whether the artwork itself is on screen, with nothing about to change that.
    pub open spec fn is_settled(self) -> bool {
        !self.loading && self.edits.applied.len() == 0 && self.crop is None
    }
}

/// What a button of the toolbar stands for.
pub open spec fn command_of(action: toolbar::Action) -> Result<Command, Order> {
    match action {
        toolbar::Action::Open => Ok(Command::Open),
        toolbar::Action::OpenFolder => Ok(Command::OpenFolder),
        toolbar::Action::Sort(order) => Err(order),
        toolbar::Action::ToggleInfo => Ok(Command::ToggleInfo),
        toolbar::Action::CopyPath => Ok(Command::CopyPath),
        toolbar::Action::Delete => Ok(Command::Delete),
        toolbar::Action::ToggleFullscreen => Ok(Command::ToggleFullscreen),
        toolbar::Action::ToggleSlideshow => Ok(Command::ToggleSlideshow),
        toolbar::Action::ToggleSidebar => Ok(Command::ToggleSidebar),
        toolbar::Action::ToggleSettings => Ok(Command::ToggleSettings),
    }
}

impl Session {
    /// What is drawn now. `pointer_moved` says whether the pointer moved a moment ago.
    pub fn layout(&self, pointer_moved: bool) -> (layout: Layout)
        ensures
            layout == self@.layout(pointer_moved),
    {
        let more = self.has_neighbours();
        proof {
            reveal(Session::scene);
        }
        let shown = self.canvas.is_some();
        Layout {
            chrome: !self.fullscreen || pointer_moved,
            info: self.panels.info && shown,
            sidebar: self.panels.sidebar,
            settings: self.panels.settings,
            chevrons: shown && self.crop.is_none() && more,
            playback: shown && self.crop.is_none(),
            crop: shown && self.crop.is_some(),
        }
    }

    /// What the toolbar is told.
    pub fn bar(&self) -> (bar: Bar)
        ensures
            bar == self@.bar(),
    {
        let has_neighbours = self.has_neighbours();
        proof {
            reveal(Session::scene);
        }
        Bar {
            has_image: self.canvas.is_some(),
            fullscreen: self.fullscreen,
            slideshow: self.slideshow.is_running(),
            has_neighbours,
            sidebar_open: self.panels.sidebar,
            info_open: self.panels.info,
            settings_open: self.panels.settings,
            order: self.settings.order,
        }
    }

    /// What the playback bar is told.
    pub fn playback(&self) -> (playback: Playback)
        ensures
            playback.frame == self@.player.frame,
            playback.playing == self@.player.playing,
            playback.count == (match self@.animation {
                Some(animation) => animation.frames@.len(),
                None => 0,
            }),
    {
        proof {
            reveal(Session::scene);
        }
        Playback {
            frame: self.player.frame,
            playing: self.player.playing,
            count: match &self.animation {
                Some(animation) => animation.len(),
                None => 0,
            },
        }
    }

    /// Where the window stands when keys are pressed.
    pub fn situation(&self, focused: bool) -> (at: Situation)
        ensures
            at == (Situation {
                focused,
                has_texture: self@.canvas is Some,
                cropping: self@.crop is Some,
                settings_open: self@.panels.settings,
                fullscreen: self@.fullscreen,
            }),
    {
        proof {
            reveal(Session::scene);
        }
        Situation {
            focused,
            has_texture: self.canvas.is_some(),
            cropping: self.crop.is_some(),
            settings_open: self.panels.settings,
            fullscreen: self.fullscreen,
        }
    }

    pub fn toggle_sidebar(&mut self)
        ensures
            final(self)@ == (Scene { panels: old(self)@.panels.sidebar_toggled(), ..old(self)@ }),
            old(self)@.wf() ==> final(self)@.wf(),
    {
        proof {
            reveal(Session::scene);
        }
        self.panels.toggle_sidebar();
    }

    pub fn toggle_info(&mut self)
        ensures
            final(self)@ == (Scene { panels: old(self)@.panels.info_toggled(), ..old(self)@ }),
            old(self)@.wf() ==> final(self)@.wf(),
    {
        proof {
            reveal(Session::scene);
        }
        self.panels.toggle_info();
    }

    pub fn toggle_settings(&mut self)
        ensures
            final(self)@ == (Scene { panels: old(self)@.panels.settings_toggled(), ..old(self)@ }),
            old(self)@.wf() ==> final(self)@.wf(),
    {
        proof {
            reveal(Session::scene);
        }
        self.panels.toggle_settings();
    }

    pub fn close_info(&mut self)
        ensures
            final(self)@ == (Scene {
                panels: crate::panels::Panels { info: false, ..old(self)@.panels },
                ..old(self)@
            }),
            old(self)@.wf() ==> final(self)@.wf(),
    {
        proof {
            reveal(Session::scene);
        }
        self.panels.info = false;
    }

    pub fn set_fullscreen(&mut self, fullscreen: bool)
        ensures
            final(self)@ == (Scene { fullscreen, ..old(self)@ }),
            old(self)@.wf() ==> final(self)@.wf(),
    {
        proof {
            reveal(Session::scene);
        }
        self.fullscreen = fullscreen;
    }

    /// Whether what the camera recorded has to be read now: once for each image.
    pub fn read_info(&mut self) -> (due: bool)
        ensures
            due == !old(self)@.info_read,
            final(self)@ == (Scene { info_read: true, ..old(self)@ }),
            old(self)@.wf() ==> final(self)@.wf(),
    {
        proof {
            reveal(Session::scene);
        }
        let due = !self.info_read;
        self.info_read = true;
        due
    }

    /// The window has been drawn. The first time, with a file open, the folder is to be
    /// listed: not before, when a launch would have to wait for it.
    pub fn painted(&mut self) -> (list: bool)
        ensures
            list == (!old(self)@.painted && old(self)@.path is Some),
            final(self)@ == (Scene { painted: true, ..old(self)@ }),
            old(self)@.wf() ==> final(self)@.wf(),
    {
        proof {
            reveal(Session::scene);
        }
        let first = !self.painted;
        self.painted = true;
        first && self.path.is_some()
    }

    /// Whether a launch that is only being measured is over: there is something on screen,
    /// or nothing that could be.
    pub fn has_something_to_measure(&self) -> (ready: bool)
        ensures
            ready == (self@.canvas is Some || self@.said.error is Some || self@.path is None),
    {
        proof {
            reveal(Session::scene);
        }
        self.canvas.is_some() || self.messages.error.is_some() || self.path.is_none()
    }

    /// What to do about the drawings of vector artwork.
    pub fn sharpening(&self) -> (sharpen: Sharpen)
        ensures
            sharpen == (if self@.is_settled() && self@.canvas is Some {
                Sharpen::Look
            } else {
                Sharpen::Rest
            }),
    {
        proof {
            reveal(Session::scene);
        }
        if !self.loading && self.edits.is_empty() && self.crop.is_none() && self.canvas.is_some() {
            Sharpen::Look
        } else {
            Sharpen::Rest
        }
    }

    /// Whether anything is under way that the next drawing of the window has to look for.
    pub fn is_busy(&self) -> (busy: bool)
        ensures
            busy == (self@.loading || self@.applying || self@.saving || self@.trimming
                || self@.clipboard_busy),
    {
        proof {
            reveal(Session::scene);
        }
        self.loading || self.applying || self.saving || self.trimming || self.clipboard_busy
    }

    /// Drops a notice whose time is over. Says how long one that stays has left.
    pub fn tick_notice(&mut self, now: u64) -> (left: Option<u64>)
        ensures
            final(self)@ == (Scene { said: old(self)@.said.at(now), ..old(self)@ }),
            left == (match final(self)@.said.notice {
                Some((_, expires_at)) => Some((expires_at - now) as u64),
                None => None,
            }),
            old(self)@.wf() ==> final(self)@.wf(),
    {
        proof {
            reveal(Session::scene);
        }
        self.messages.tick(now)
    }
}

/// The command that a button of the toolbar stands for, or the order it picked.
pub fn command_for(action: toolbar::Action) -> (command: Result<Command, Order>)
    ensures
        command == command_of(action),
{
    match action {
        toolbar::Action::Open => Ok(Command::Open),
        toolbar::Action::OpenFolder => Ok(Command::OpenFolder),
        toolbar::Action::Sort(order) => Err(order),
        toolbar::Action::ToggleInfo => Ok(Command::ToggleInfo),
        toolbar::Action::CopyPath => Ok(Command::CopyPath),
        toolbar::Action::Delete => Ok(Command::Delete),
        toolbar::Action::ToggleFullscreen => Ok(Command::ToggleFullscreen),
        toolbar::Action::ToggleSlideshow => Ok(Command::ToggleSlideshow),
        toolbar::Action::ToggleSidebar => Ok(Command::ToggleSidebar),
        toolbar::Action::ToggleSettings => Ok(Command::ToggleSettings),
    }
}

/// While a crop is drawn, neither the chevrons nor the playback bar are there to move the
/// image away from under it.
pub proof fn law_nothing_moves_a_crop(scene: Scene, pointer_moved: bool)
    requires
        scene.crop is Some,
    ensures
        !scene.layout(pointer_moved).chevrons,
        !scene.layout(pointer_moved).playback,
{
}

/// Of the three panels, no two are ever drawn.
pub proof fn law_one_panel_is_drawn(scene: Scene, pointer_moved: bool)
    requires
        scene.wf(),
    ensures
        ({
            let layout = scene.layout(pointer_moved);
            &&& !(layout.info && layout.sidebar)
            &&& !(layout.info && layout.settings)
            &&& !(layout.sidebar && layout.settings)
        }),
{
}

/// The bars leave the screen only in fullscreen, while the pointer rests. A panel is drawn if it
/// is open, that with what is known of the image only if there is one.
pub proof fn law_the_bars_hide_only_in_fullscreen(scene: Scene, pointer_moved: bool)
    ensures
        ({
            let layout = scene.layout(pointer_moved);
            &&& !layout.chrome <==> scene.fullscreen && !pointer_moved
            &&& layout.sidebar <==> scene.panels.sidebar
            &&& layout.settings <==> scene.panels.settings
            &&& layout.info <==> scene.panels.info && scene.canvas is Some
            &&& layout.crop <==> scene.crop is Some && scene.canvas is Some
            &&& layout.playback <==> scene.crop is None && scene.canvas is Some
            &&& layout.chevrons <==> scene.crop is None && scene.canvas is Some && (
            scene.folder matches Some(folder) && folder.items.len() > 1)
        }),
{
}

/// The toolbar shows how things stand.
pub proof fn law_the_toolbar_shows_how_things_stand(scene: Scene)
    ensures
        scene.bar().has_image <==> scene.canvas is Some,
        scene.bar().fullscreen == scene.fullscreen,
        scene.bar().slideshow <==> scene.slideshow.due is Some,
        scene.bar().has_neighbours <==> (scene.folder matches Some(folder) && folder.items.len()
            > 1),
        scene.bar().sidebar_open == scene.panels.sidebar,
        scene.bar().info_open == scene.panels.info,
        scene.bar().settings_open == scene.panels.settings,
        scene.bar().order == scene.settings.order,
{
}

/// A button of the toolbar gives the command of the same name, and the menu gives the order that
/// was picked. No two buttons give the same.
pub proof fn law_a_button_gives_its_command(action: toolbar::Action, other: toolbar::Action)
    ensures
        command_of(action) == command_of(other) ==> action == other,
        action matches toolbar::Action::Sort(order) ==> command_of(action) == Err::<Command, Order>(
            order,
        ),
        !(action is Sort) ==> command_of(action) is Ok,
        command_of(toolbar::Action::Open) == Ok::<Command, Order>(Command::Open),
        command_of(toolbar::Action::OpenFolder) == Ok::<Command, Order>(Command::OpenFolder),
        command_of(toolbar::Action::ToggleInfo) == Ok::<Command, Order>(Command::ToggleInfo),
        command_of(toolbar::Action::CopyPath) == Ok::<Command, Order>(Command::CopyPath),
        command_of(toolbar::Action::Delete) == Ok::<Command, Order>(Command::Delete),
        command_of(toolbar::Action::ToggleFullscreen) == Ok::<Command, Order>(
            Command::ToggleFullscreen,
        ),
        command_of(toolbar::Action::ToggleSlideshow) == Ok::<Command, Order>(
            Command::ToggleSlideshow,
        ),
        command_of(toolbar::Action::ToggleSidebar) == Ok::<Command, Order>(Command::ToggleSidebar),
        command_of(toolbar::Action::ToggleSettings) == Ok::<Command, Order>(
            Command::ToggleSettings,
        ),
{
}

/// Artwork is drawn sharper only while it is on screen as it is: loaded, unedited, with no crop
/// being drawn.
pub proof fn law_only_artwork_as_it_is_gets_sharper(scene: Scene)
    ensures
        scene.is_settled() <==> !scene.loading && scene.edits.applied.len() == 0 && scene.crop
            is None,
{
}

} // verus!
