//! What each part of the window shows, and what it can ask for.

pub mod about;
pub mod crop;
pub mod info;
pub mod settings;
pub mod sidebar;
pub mod statusbar;
pub mod timeline;
pub mod toolbar;
pub mod viewer;
