//! The three panels that share one strip of the window, one at a time.

use vstd::prelude::*;

verus! {

/// Which panels are open.
#[derive(Debug, Clone, Copy, PartialEq, Eq, Structural)]
pub struct Panels {
    pub sidebar: bool,
    pub info: bool,
    pub settings: bool,
}

impl Panels {
    pub open spec fn all_shut() -> Panels {
        Panels { sidebar: false, info: false, settings: false }
    }

    pub open spec fn only_sidebar() -> Panels {
        Panels { sidebar: true, info: false, settings: false }
    }

    pub open spec fn only_info() -> Panels {
        Panels { sidebar: false, info: true, settings: false }
    }

    pub open spec fn only_settings() -> Panels {
        Panels { sidebar: false, info: false, settings: true }
    }

    /// At most one is open.
    pub open spec fn wf(self) -> bool {
        &&& !(self.sidebar && self.info)
        &&& !(self.sidebar && self.settings)
        &&& !(self.info && self.settings)
    }

    pub open spec fn sidebar_toggled(self) -> Panels {
        if self.sidebar {
            Panels { sidebar: false, ..self }
        } else {
            Panels::only_sidebar()
        }
    }

    pub open spec fn info_toggled(self) -> Panels {
        if self.info {
            Panels { info: false, ..self }
        } else {
            Panels::only_info()
        }
    }

    pub open spec fn settings_toggled(self) -> Panels {
        if self.settings {
            Panels { settings: false, ..self }
        } else {
            Panels::only_settings()
        }
    }

    pub fn new() -> (panels: Panels)
        ensures
            panels == Panels::all_shut(),
    {
        Panels { sidebar: false, info: false, settings: false }
    }

    /// Opens the edit sidebar, and puts the others away.
    pub fn open_sidebar(&mut self)
        ensures
            *final(self) == Panels::only_sidebar(),
    {
        self.sidebar = true;
        self.info = false;
        self.settings = false;
    }

    pub fn toggle_sidebar(&mut self)
        ensures
            *final(self) == old(self).sidebar_toggled(),
    {
        if self.sidebar {
            self.sidebar = false;
        } else {
            self.open_sidebar();
        }
    }

    pub fn toggle_info(&mut self)
        ensures
            *final(self) == old(self).info_toggled(),
    {
        self.info = !self.info;
        if self.info {
            self.sidebar = false;
            self.settings = false;
        }
    }

    pub fn toggle_settings(&mut self)
        ensures
            *final(self) == old(self).settings_toggled(),
    {
        self.settings = !self.settings;
        if self.settings {
            self.sidebar = false;
            self.info = false;
        }
    }
}

/// However the panels are switched, no two are open at once.
pub proof fn law_one_panel_at_a_time(panels: Panels)
    requires
        panels.wf(),
    ensures
        Panels::all_shut().wf(),
        Panels::only_sidebar().wf(),
        panels.sidebar_toggled().wf(),
        panels.info_toggled().wf(),
        panels.settings_toggled().wf(),
{
}

/// Opening a panel and closing it again leaves nothing open.
pub proof fn law_toggling_twice_shuts(panels: Panels)
    requires
        panels.wf(),
    ensures
        !panels.sidebar ==> panels.sidebar_toggled().sidebar_toggled() == Panels::all_shut(),
        !panels.info ==> panels.info_toggled().info_toggled() == Panels::all_shut(),
        !panels.settings ==> panels.settings_toggled().settings_toggled() == Panels::all_shut(),
{
}

/// A toggle opens its own panel, and no other, or shuts it. Nothing is open at first.
pub proof fn law_a_toggle_is_for_its_own_panel(panels: Panels)
    requires
        panels.wf(),
    ensures
        panels.sidebar_toggled().sidebar == !panels.sidebar,
        !panels.sidebar_toggled().info && !panels.sidebar_toggled().settings,
        panels.info_toggled().info == !panels.info,
        !panels.info_toggled().sidebar && !panels.info_toggled().settings,
        panels.settings_toggled().settings == !panels.settings,
        !panels.settings_toggled().sidebar && !panels.settings_toggled().info,
        Panels::only_sidebar().sidebar,
        !Panels::all_shut().sidebar && !Panels::all_shut().info && !Panels::all_shut().settings,
{
}

} // verus!
