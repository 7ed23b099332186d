//! Turning key presses into commands.

use vstd::prelude::*;

verus! {

/// The shortcuts that were pressed.
#[derive(Debug, Clone, Copy, PartialEq, Eq)]
pub struct Keys {
    pub open_folder: bool,
    pub redo: bool,
    pub open: bool,
    pub undo: bool,
    pub save: bool,
    pub copy_image: bool,
    pub copy_path: bool,
    pub paste: bool,
    pub escape: bool,
    pub fullscreen: bool,
    pub delete: bool,
    pub prev: bool,
    pub next: bool,
    pub rotate: bool,
    pub sidebar: bool,
    pub space: bool,
    pub start_crop: bool,
    pub enter: bool,
    pub info: bool,
    pub settings: bool,
    pub fit: bool,
    pub actual_size: bool,
    pub zoom_in: bool,
    pub zoom_out: bool,
}

/// Where the window stands when they were.
#[derive(Debug, Clone, Copy, PartialEq, Eq)]
pub struct Situation {
    /// Whether a widget holds the keyboard.
    pub focused: bool,
    /// Whether an image is on screen.
    pub has_texture: bool,
    pub cropping: bool,
    pub settings_open: bool,
    pub fullscreen: bool,
}

/// Something to do.
#[derive(Debug, Clone, Copy, PartialEq, Eq, Structural)]
pub enum Command {
    Open,
    OpenFolder,
    Undo,
    Redo,
    Save,
    CopyImage,
    CancelCrop,
    CloseSettings,
    LeaveFullscreen,
    CloseWindow,
    Paste,
    ApplyCrop,
    Next,
    Prev,
    ToggleFullscreen,
    CopyPath,
    Delete,
    RotateCw,
    ToggleSidebar,
    ToggleInfo,
    ToggleSettings,
    /// Stop or start whatever is moving.
    PlayPause,
    /// Stop or start the slideshow, which only its button does.
    ToggleSlideshow,
    StartCrop,
    Fit,
    ActualSize,
    ZoomIn,
    ZoomOut,
}

/// A command, if its key was pressed.
#[verifier::opaque]
pub open spec fn when(pressed: bool, command: Command) -> Seq<Command> {
    if pressed {
        seq![command]
    } else {
        Seq::empty()
    }
}

/// The shortcuts with a modifier, which keep working while a widget holds the keyboard.
pub open spec fn modified(keys: Keys) -> Seq<Command> {
    when(keys.open, Command::Open) + when(keys.open_folder, Command::OpenFolder) + when(
        keys.undo,
        Command::Undo,
    ) + when(keys.redo, Command::Redo) + when(keys.save, Command::Save) + when(
        keys.copy_image,
        Command::CopyImage,
    )
}

/// Escape backs out of the innermost place to be.
pub open spec fn backing_out(at: Situation) -> Command {
    if at.cropping {
        Command::CancelCrop
    } else if at.settings_open {
        Command::CloseSettings
    } else if at.fullscreen {
        Command::LeaveFullscreen
    } else {
        Command::CloseWindow
    }
}

/// The keys that move about, and those that act on the file.
pub open spec fn on_the_file(keys: Keys) -> Seq<Command> {
    when(keys.next, Command::Next) + when(keys.prev && !keys.next, Command::Prev) + when(
        keys.fullscreen,
        Command::ToggleFullscreen,
    ) + when(keys.copy_path, Command::CopyPath) + when(keys.copy_image, Command::CopyImage) + when(
        keys.delete,
        Command::Delete,
    )
}

/// The keys that open a panel, or stop and start what is moving.
pub open spec fn on_the_panels(keys: Keys) -> Seq<Command> {
    when(keys.rotate, Command::RotateCw) + when(keys.sidebar, Command::ToggleSidebar) + when(
        keys.info,
        Command::ToggleInfo,
    ) + when(keys.settings, Command::ToggleSettings) + when(keys.space, Command::PlayPause) + when(
        keys.start_crop,
        Command::StartCrop,
    )
}

/// The keys that act on the edits, and those that change how they are looked at.
pub open spec fn on_the_view(keys: Keys) -> Seq<Command> {
    when(keys.undo, Command::Undo) + when(keys.redo, Command::Redo) + when(
        keys.save,
        Command::Save,
    ) + when(keys.fit, Command::Fit) + when(keys.actual_size, Command::ActualSize) + when(
        keys.zoom_in,
        Command::ZoomIn,
    ) + when(keys.zoom_out, Command::ZoomOut)
}

/// The keys that act on the image on screen.
pub open spec fn on_the_image(keys: Keys) -> Seq<Command> {
    on_the_file(keys) + on_the_panels(keys) + on_the_view(keys)
}

/// What to do, in order.
pub open spec fn commands_for(keys: Keys, at: Situation) -> Seq<Command> {
    if at.focused {
        modified(keys)
    } else if keys.escape {
        seq![backing_out(at)]
    } else if keys.open {
        seq![Command::Open]
    } else if keys.open_folder {
        seq![Command::OpenFolder]
    } else if keys.paste {
        seq![Command::Paste]
    } else if !at.has_texture {
        Seq::empty()
    } else if at.cropping {
        when(keys.enter, Command::ApplyCrop)
    } else {
        on_the_image(keys)
    }
}

fn add(commands: &mut Vec<Command>, pressed: bool, command: Command)
    ensures
        final(commands)@ == old(commands)@ + when(pressed, command),
{
    proof {
        reveal(when);
    }
    if pressed {
        commands.push(command);
    }
    assert(commands@ =~= old(commands)@ + when(pressed, command));
}

fn add_for_file(commands: &mut Vec<Command>, keys: Keys)
    ensures
        final(commands)@ == old(commands)@ + on_the_file(keys),
{
    self::add(commands, keys.next, Command::Next);
    self::add(commands, keys.prev && !keys.next, Command::Prev);
    self::add(commands, keys.fullscreen, Command::ToggleFullscreen);
    self::add(commands, keys.copy_path, Command::CopyPath);
    self::add(commands, keys.copy_image, Command::CopyImage);
    self::add(commands, keys.delete, Command::Delete);
}

fn add_for_panels(commands: &mut Vec<Command>, keys: Keys)
    ensures
        final(commands)@ == old(commands)@ + on_the_panels(keys),
{
    self::add(commands, keys.rotate, Command::RotateCw);
    self::add(commands, keys.sidebar, Command::ToggleSidebar);
    self::add(commands, keys.info, Command::ToggleInfo);
    self::add(commands, keys.settings, Command::ToggleSettings);
    self::add(commands, keys.space, Command::PlayPause);
    self::add(commands, keys.start_crop, Command::StartCrop);
}

fn add_for_view(commands: &mut Vec<Command>, keys: Keys)
    ensures
        final(commands)@ == old(commands)@ + on_the_view(keys),
{
    self::add(commands, keys.undo, Command::Undo);
    self::add(commands, keys.redo, Command::Redo);
    self::add(commands, keys.save, Command::Save);
    self::add(commands, keys.fit, Command::Fit);
    self::add(commands, keys.actual_size, Command::ActualSize);
    self::add(commands, keys.zoom_in, Command::ZoomIn);
    self::add(commands, keys.zoom_out, Command::ZoomOut);
}

fn add_modified(commands: &mut Vec<Command>, keys: Keys)
    ensures
        final(commands)@ == old(commands)@ + modified(keys),
{
    self::add(commands, keys.open, Command::Open);
    self::add(commands, keys.open_folder, Command::OpenFolder);
    self::add(commands, keys.undo, Command::Undo);
    self::add(commands, keys.redo, Command::Redo);
    self::add(commands, keys.save, Command::Save);
    self::add(commands, keys.copy_image, Command::CopyImage);
}

/// Turns the shortcuts that were pressed into commands, in the order to carry them out.
pub fn handle_shortcuts(keys: Keys, at: Situation) -> (commands: Vec<Command>)
    ensures
        commands@ == commands_for(keys, at),
{
    let mut commands: Vec<Command> = Vec::new();
    if at.focused {
        add_modified(&mut commands, keys);
        return commands;
    }
    if keys.escape {
        commands.push(
            if at.cropping {
                Command::CancelCrop
            } else if at.settings_open {
                Command::CloseSettings
            } else if at.fullscreen {
                Command::LeaveFullscreen
            } else {
                Command::CloseWindow
            },
        );
        return commands;
    }
    if keys.open {
        commands.push(Command::Open);
        return commands;
    }
    if keys.open_folder {
        commands.push(Command::OpenFolder);
        return commands;
    }
    if keys.paste {
        commands.push(Command::Paste);
        return commands;
    }
    if !at.has_texture {
        return commands;
    }
    if at.cropping {
        self::add(&mut commands, keys.enter, Command::ApplyCrop);
        assert(commands@ =~= when(keys.enter, Command::ApplyCrop));
        return commands;
    }
    add_for_file(&mut commands, keys);
    add_for_panels(&mut commands, keys);
    add_for_view(&mut commands, keys);
    commands
}

/// Whether a command comes from a shortcut with a modifier.
pub open spec fn has_modifier(command: Command) -> bool {
    command is Open || command is OpenFolder || command is Undo || command is Redo
        || command is Save || command is CopyImage
}

/// A widget that holds the keyboard keeps the plain keys: none of them becomes a command,
/// and each shortcut with a modifier still does.
pub proof fn law_a_widget_keeps_the_plain_keys(keys: Keys, at: Situation, i: int)
    requires
        at.focused,
        0 <= i < commands_for(keys, at).len(),
    ensures
        has_modifier(commands_for(keys, at)[i]),
        keys.save ==> commands_for(keys, at).contains(Command::Save),
{
    reveal(when);
    if keys.save {
        let before = when(keys.open, Command::Open) + when(
            keys.open_folder,
            Command::OpenFolder,
        ) + when(keys.undo, Command::Undo) + when(keys.redo, Command::Redo);
        assert(commands_for(keys, at)[before.len() as int] == Command::Save);
    }
}

/// Cropping is modal: no key steps to another image or edits this one until the selection
/// is applied or given up.
pub proof fn law_cropping_is_modal(keys: Keys, at: Situation, i: int)
    requires
        at.cropping,
        !at.focused,
        0 <= i < commands_for(keys, at).len(),
    ensures
        ({
            let command = commands_for(keys, at)[i];
            command is ApplyCrop || command is CancelCrop || command is Open
                || command is OpenFolder || command is Paste
        }),
{
    reveal(when);
}

/// With nothing on screen, the keys can only open something or leave.
pub proof fn law_an_empty_window_is_only_filled_or_left(keys: Keys, at: Situation, i: int)
    requires
        !at.has_texture,
        !at.focused,
        !at.cropping,
        0 <= i < commands_for(keys, at).len(),
    ensures
        ({
            let command = commands_for(keys, at)[i];
            command is Open || command is OpenFolder || command is Paste || command
                is CloseSettings || command is LeaveFullscreen || command is CloseWindow
        }),
{
    reveal(when);
}

/// Escape does one thing, and closes the window only when there is nowhere left to back out
/// of.
pub proof fn law_escape_backs_out_one_place(keys: Keys, at: Situation)
    requires
        keys.escape,
        !at.focused,
    ensures
        commands_for(keys, at).len() == 1,
        commands_for(keys, at)[0] is CloseWindow <==> !at.cropping && !at.settings_open
            && !at.fullscreen,
{
}

proof fn lemma_when(pressed: bool, command: Command, asked: Command)
    ensures
        (pressed && command == asked) == (when(pressed, command).contains(asked)),
{
    reveal(when);
    if pressed {
        assert(when(pressed, command)[0] == command);
    }
}

proof fn lemma_either(one: Seq<Command>, other: Seq<Command>, asked: Command)
    ensures
        (one + other).contains(asked) == (one.contains(asked) || other.contains(asked)),
{
    let both = one + other;
    if one.contains(asked) {
        let i = choose|i: int| 0 <= i < one.len() && one[i] == asked;
        assert(both[i] == asked);
    }
    if other.contains(asked) {
        let i = choose|i: int| 0 <= i < other.len() && other[i] == asked;
        assert(both[one.len() + i] == asked);
    }
    if both.contains(asked) {
        let i = choose|i: int| 0 <= i < both.len() && both[i] == asked;
        if i < one.len() {
            assert(one[i] == asked);
        } else {
            assert(other[i - one.len()] == asked);
        }
    }
}

/// With an image on screen and nothing in the way, each key does what it is for: a command is
/// given if and only if its key is down. Of the two ways to move on, forwards wins.
pub proof fn law_each_key_does_what_it_is_for(keys: Keys, at: Situation, command: Command)
    requires
        at.has_texture,
        !at.focused,
        !at.cropping,
        !keys.escape,
        !keys.open,
        !keys.open_folder,
        !keys.paste,
    ensures
        commands_for(keys, at).contains(command) == (match command {
            Command::Next => keys.next,
            Command::Prev => keys.prev && !keys.next,
            Command::ToggleFullscreen => keys.fullscreen,
            Command::CopyPath => keys.copy_path,
            Command::CopyImage => keys.copy_image,
            Command::Delete => keys.delete,
            Command::RotateCw => keys.rotate,
            Command::ToggleSidebar => keys.sidebar,
            Command::ToggleInfo => keys.info,
            Command::ToggleSettings => keys.settings,
            Command::PlayPause => keys.space,
            Command::StartCrop => keys.start_crop,
            Command::Undo => keys.undo,
            Command::Redo => keys.redo,
            Command::Save => keys.save,
            Command::Fit => keys.fit,
            Command::ActualSize => keys.actual_size,
            Command::ZoomIn => keys.zoom_in,
            Command::ZoomOut => keys.zoom_out,
            _ => false,
        }),
{
    lemma_on_the_file(keys, command);
    lemma_on_the_panels(keys, command);
    lemma_on_the_view(keys, command);
    lemma_either(on_the_file(keys), on_the_panels(keys), command);
    lemma_either(on_the_file(keys) + on_the_panels(keys), on_the_view(keys), command);
}

proof fn lemma_on_the_file(keys: Keys, command: Command)
    ensures
        on_the_file(keys).contains(command) == (match command {
            Command::Next => keys.next,
            Command::Prev => keys.prev && !keys.next,
            Command::ToggleFullscreen => keys.fullscreen,
            Command::CopyPath => keys.copy_path,
            Command::CopyImage => keys.copy_image,
            Command::Delete => keys.delete,
            _ => false,
        }),
{
    let a = when(keys.next, Command::Next);
    let b = when(keys.prev && !keys.next, Command::Prev);
    let c = when(keys.fullscreen, Command::ToggleFullscreen);
    let d = when(keys.copy_path, Command::CopyPath);
    let e = when(keys.copy_image, Command::CopyImage);
    let f = when(keys.delete, Command::Delete);
    lemma_six(a, b, c, d, e, f, command);
    lemma_when(keys.next, Command::Next, command);
    lemma_when(keys.prev && !keys.next, Command::Prev, command);
    lemma_when(keys.fullscreen, Command::ToggleFullscreen, command);
    lemma_when(keys.copy_path, Command::CopyPath, command);
    lemma_when(keys.copy_image, Command::CopyImage, command);
    lemma_when(keys.delete, Command::Delete, command);
}

proof fn lemma_six(
    a: Seq<Command>,
    b: Seq<Command>,
    c: Seq<Command>,
    d: Seq<Command>,
    e: Seq<Command>,
    f: Seq<Command>,
    asked: Command,
)
    ensures
        (a + b + c + d + e + f).contains(asked) == (a.contains(asked) || b.contains(asked)
            || c.contains(asked) || d.contains(asked) || e.contains(asked) || f.contains(asked)),
{
    lemma_either(a, b, asked);
    lemma_either(a + b, c, asked);
    lemma_either(a + b + c, d, asked);
    lemma_either(a + b + c + d, e, asked);
    lemma_either(a + b + c + d + e, f, asked);
}

proof fn lemma_on_the_panels(keys: Keys, command: Command)
    ensures
        on_the_panels(keys).contains(command) == (match command {
            Command::RotateCw => keys.rotate,
            Command::ToggleSidebar => keys.sidebar,
            Command::ToggleInfo => keys.info,
            Command::ToggleSettings => keys.settings,
            Command::PlayPause => keys.space,
            Command::StartCrop => keys.start_crop,
            _ => false,
        }),
{
    let a = when(keys.rotate, Command::RotateCw);
    let b = when(keys.sidebar, Command::ToggleSidebar);
    let c = when(keys.info, Command::ToggleInfo);
    let d = when(keys.settings, Command::ToggleSettings);
    let e = when(keys.space, Command::PlayPause);
    let f = when(keys.start_crop, Command::StartCrop);
    lemma_six(a, b, c, d, e, f, command);
    lemma_when(keys.rotate, Command::RotateCw, command);
    lemma_when(keys.sidebar, Command::ToggleSidebar, command);
    lemma_when(keys.info, Command::ToggleInfo, command);
    lemma_when(keys.settings, Command::ToggleSettings, command);
    lemma_when(keys.space, Command::PlayPause, command);
    lemma_when(keys.start_crop, Command::StartCrop, command);
}

proof fn lemma_on_the_view(keys: Keys, command: Command)
    ensures
        on_the_view(keys).contains(command) == (match command {
            Command::Undo => keys.undo,
            Command::Redo => keys.redo,
            Command::Save => keys.save,
            Command::Fit => keys.fit,
            Command::ActualSize => keys.actual_size,
            Command::ZoomIn => keys.zoom_in,
            Command::ZoomOut => keys.zoom_out,
            _ => false,
        }),
{
    let a = when(keys.undo, Command::Undo);
    let b = when(keys.redo, Command::Redo);
    let c = when(keys.save, Command::Save);
    let d = when(keys.fit, Command::Fit);
    let e = when(keys.actual_size, Command::ActualSize);
    let f = when(keys.zoom_in, Command::ZoomIn);
    let g = when(keys.zoom_out, Command::ZoomOut);
    lemma_six(a, b, c, d, e, f, command);
    lemma_either(a + b + c + d + e + f, g, command);
    lemma_when(keys.undo, Command::Undo, command);
    lemma_when(keys.redo, Command::Redo, command);
    lemma_when(keys.save, Command::Save, command);
    lemma_when(keys.fit, Command::Fit, command);
    lemma_when(keys.actual_size, Command::ActualSize, command);
    lemma_when(keys.zoom_in, Command::ZoomIn, command);
    lemma_when(keys.zoom_out, Command::ZoomOut, command);
}

/// While a widget holds the keyboard, the keys that take a modifier still work.
pub proof fn law_a_modifier_gets_past_a_widget(keys: Keys, at: Situation, command: Command)
    requires
        at.focused,
    ensures
        commands_for(keys, at).contains(command) == (match command {
            Command::Open => keys.open,
            Command::OpenFolder => keys.open_folder,
            Command::Undo => keys.undo,
            Command::Redo => keys.redo,
            Command::Save => keys.save,
            Command::CopyImage => keys.copy_image,
            _ => false,
        }),
{
    let a = when(keys.open, Command::Open);
    let b = when(keys.open_folder, Command::OpenFolder);
    let c = when(keys.undo, Command::Undo);
    let d = when(keys.redo, Command::Redo);
    let e = when(keys.save, Command::Save);
    let f = when(keys.copy_image, Command::CopyImage);
    lemma_six(a, b, c, d, e, f, command);
    lemma_when(keys.open, Command::Open, command);
    lemma_when(keys.open_folder, Command::OpenFolder, command);
    lemma_when(keys.undo, Command::Undo, command);
    lemma_when(keys.redo, Command::Redo, command);
    lemma_when(keys.save, Command::Save, command);
    lemma_when(keys.copy_image, Command::CopyImage, command);
}

/// Where nothing is focused, the keys that leave or fill the window go first, one at a time: out
/// of the innermost place, then a file, a folder, the clipboard. While cropping, all that is left
/// is to take the crop.
pub proof fn law_leaving_and_filling_go_first(keys: Keys, at: Situation)
    requires
        !at.focused,
    ensures
        keys.escape ==> commands_for(keys, at) == seq![
            if at.cropping {
                Command::CancelCrop
            } else if at.settings_open {
                Command::CloseSettings
            } else if at.fullscreen {
                Command::LeaveFullscreen
            } else {
                Command::CloseWindow
            },
        ],
        !keys.escape && keys.open ==> commands_for(keys, at) == seq![Command::Open],
        !keys.escape && !keys.open && keys.open_folder ==> commands_for(keys, at) == seq![
            Command::OpenFolder,
        ],
        !keys.escape && !keys.open && !keys.open_folder && keys.paste ==> commands_for(keys, at)
            == seq![Command::Paste],
        !keys.escape && !keys.open && !keys.open_folder && !keys.paste && at.has_texture
            && at.cropping && keys.enter ==> commands_for(keys, at) == seq![Command::ApplyCrop],
        !keys.escape && !keys.open && !keys.open_folder && !keys.paste && at.cropping
            && !keys.enter ==> commands_for(keys, at) == Seq::<Command>::empty(),
{
    reveal(when);
}

} // verus!
