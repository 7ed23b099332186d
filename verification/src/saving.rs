//! What becomes of the file on screen: saving it, deleting it, and taking it to the
//! clipboard.

use vstd::prelude::*;
use crate::clipboard::Pasted;
use crate::export::Format;
use crate::folder;
use crate::path;
use crate::raster::Raster;
use crate::session;
use crate::session::{Scene, Session};
use crate::views::sidebar;

verus! {

/// Where a save goes.
#[derive(Debug)]
pub enum Target {
    /// There is nothing to save.
    Nothing,
    /// In the place of the file on screen.
    Over(String),
    /// To a file that has yet to be named. The name is a suggestion, and the folder is where
    /// to start looking, if there is one.
    Ask { folder: Option<String>, name: String },
}

/// The same as mathematics.
pub enum Aim {
    Nothing,
    Over(Seq<char>),
    Ask { folder: Option<Seq<char>>, name: Seq<char> },
}

impl View for Target {
    type V = Aim;

    open spec fn view(&self) -> Aim {
        match self {
            Target::Nothing => Aim::Nothing,
            Target::Over(path) => Aim::Over(path@),
            Target::Ask { folder, name } => Aim::Ask { folder: session::seen(*folder), name: name@ },
        }
    }
}

/// The format that a path names.
pub open spec fn format_of(path: Seq<char>) -> Option<Format> {
    match path::extension_of(path) {
        Some(extension) => Format::named(extension),
        None => None,
    }
}

/// What a new file beside an old one is called at first. Another format already has another
/// name; the same format must not aim at the original.
pub open spec fn suggested(path: Seq<char>, format: Format) -> Seq<char> {
    let stem = match path::stem_of(path) {
        Some(stem) => stem,
        None => "image"@,
    };
    if format_of(path) != Some(format) {
        stem + "."@ + format.written_as()
    } else {
        stem + " (edited)."@ + format.written_as()
    }
}

/// What a file is called in a message.
pub open spec fn called(path: Seq<char>) -> Seq<char> {
    match path::name_of(path) {
        Some(name) => name,
        None => path,
    }
}

impl Scene {
    /// Where a save goes: over the original only if neither format nor size change.
    pub open spec fn aim(self) -> Aim {
        if self.source is None {
            Aim::Nothing
        } else {
            match self.path {
                Some(path) => if sidebar::is_new_file(format_of(path), self.export) {
                    Aim::Ask {
                        folder: path::parent_of(path),
                        name: suggested(path, self.export.format),
                    }
                } else {
                    Aim::Over(path)
                },
                None => Aim::Ask {
                    folder: None,
                    name: "pasted."@ + self.export.format.written_as(),
                },
            }
        }
    }

    /// With the window empty, after its last image was deleted.
    pub open spec fn emptied(self) -> Scene {
        Scene {
            path: None,
            canvas: None,
            stage: None,
            stamp: None,
            loading: false,
            animation: None,
            player: self.player.paused(),
            ..self
        }
    }
}

/// What a file is called in a message.
pub fn name_for(path: &str) -> (name: String)
    ensures
        name@ == called(path@),
{
    match path::file_name(path) {
        Some(name) => name,
        None => path.to_owned(),
    }
}

/// What a new file beside an old one is called at first.
pub fn suggest(path: &str, format: Format) -> (name: String)
    ensures
        name@ == suggested(path@, format),
{
    let mut name = match path::file_stem(path) {
        Some(stem) => stem,
        None => "image".to_owned(),
    };
    let converting = match Format::from_path(path) {
        Some(own) => own != format,
        None => true,
    };
    name.append(
        if converting {
            "."
        } else {
            " (edited)."
        },
    );
    name.append(format.extension());
    name
}

/// What came of a clipboard job.
#[derive(Debug)]
pub enum ClipboardResult {
    Copied,
    Pasted(Pasted),
    Failed(String),
}

/// What to show next.
#[derive(Debug)]
pub enum Next {
    Nothing,
    /// Open this file, with the images beside it.
    Open(String),
    /// Show these pixels.
    Show(Raster),
}

impl Session {
    /// Where a save goes.
    pub fn save_target(&self) -> (target: Target)
        ensures
            target@ == self@.aim(),
    {
        proof {
            reveal(Session::scene);
        }
        if self.source.is_none() {
            return Target::Nothing;
        }
        match &self.path {
            Some(path) => {
                let format = Format::from_path(path.as_str());
                if sidebar::writes_new_file(format, self.export) {
                    Target::Ask {
                        folder: path::parent(path.as_str()),
                        name: suggest(path.as_str(), self.export.format),
                    }
                } else {
                    Target::Over(path.clone())
                }
            },
            None => {
                let mut name = "pasted.".to_owned();
                name.append(self.export.format.extension());
                Target::Ask { folder: None, name }
            },
        }
    }

    /// A save has begun.
    pub fn save_begun(&mut self)
        ensures
            final(self)@ == (Scene { saving: true, ..old(self)@ }),
            old(self)@.wf() ==> final(self)@.wf(),
    {
        proof {
            reveal(Session::scene);
        }
        self.saving = true;
    }

    /// A save is over. Says whether it replaced the file on screen, which then has to be
    /// shown anew: its edits are spent.
    pub fn saved(&mut self, target: &str) -> (over: bool)
        ensures
            final(self)@ == (Scene { saving: false, ..old(self)@ }),
            over == (match old(self)@.path {
                Some(path) => path::canonical_of(path) == path::canonical_of(target@),
                None => false,
            }),
            old(self)@.wf() ==> final(self)@.wf(),
    {
        proof {
            reveal(Session::scene);
        }
        self.saving = false;
        match &self.path {
            Some(path) => path::canonical(path.as_str()) == path::canonical(target),
            None => false,
        }
    }

    /// Says what was saved.
    pub fn notify_saved(&mut self, target: &str, now: u64)
        ensures
            final(self)@ == (Scene {
                said: old(self)@.said.notified("Saved "@ + called(target@), now),
                ..old(self)@
            }),
            old(self)@.wf() ==> final(self)@.wf(),
    {
        let mut words = "Saved ".to_owned();
        words.append(name_for(target).as_str());
        self.notify(words.as_str(), now);
    }

    /// A save failed.
    pub fn save_failed(&mut self, message: String)
        ensures
            final(self)@ == (Scene {
                saving: false,
                said: old(self)@.said.failed(message@),
                ..old(self)@
            }),
            old(self)@.wf() ==> final(self)@.wf(),
    {
        proof {
            reveal(Session::scene);
        }
        self.saving = false;
        self.messages.fail(message);
    }

    /// Nothing more is to be heard of a save.
    pub fn save_ended(&mut self)
        ensures
            final(self)@ == (Scene { saving: false, ..old(self)@ }),
            old(self)@.wf() ==> final(self)@.wf(),
    {
        proof {
            reveal(Session::scene);
        }
        self.saving = false;
    }

    /// The file could not be moved to the Recycle Bin.
    pub fn delete_failed(&mut self, reason: &str)
        ensures
            final(self)@ == (Scene {
                said: old(self)@.said.failed("Could not delete: "@ + reason@),
                ..old(self)@
            }),
            old(self)@.wf() ==> final(self)@.wf(),
    {
        let mut words = "Could not delete: ".to_owned();
        words.append(reason);
        self.fail(words);
    }

    fn empty_window(&mut self)
        ensures
            final(self)@ == old(self)@.emptied(),
            old(self)@.wf() ==> final(self)@.wf(),
    {
        proof {
            reveal(Session::scene);
        }
        self.path = None;
        self.canvas = None;
        self.stage = None;
        self.stamp = None;
        self.loading = false;
        self.animation = None;
        self.player.pause();
    }

    fn unlist(&mut self, path: &str) -> (next: Option<String>)
        requires
            old(self)@.wf(),
        ensures
            final(self)@.wf(),
            final(self)@ == (Scene { folder: final(self)@.folder, ..old(self)@ }),
            is_unlisted(old(self)@, path@, final(self)@, session::seen(next)),
    {
        proof {
            reveal(Session::scene);
        }
        let mut listing: Option<folder::Folder> = None;
        std::mem::swap(&mut listing, &mut self.folder);
        match listing {
            Some(mut folder) => {
                let next = folder.remove(path);
                self.folder = Some(folder);
                next
            },
            None => None,
        }
    }

    /// The file on screen was deleted. Says which image to show in its place; with none
    /// left, the window is empty, and has to be fitted anew.
    pub fn deleted(&mut self) -> (next: Option<String>)
        requires
            old(self)@.wf(),
            old(self)@.path is Some,
        ensures
            final(self)@.wf(),
            is_unlisted(old(self)@, old(self)@.path->0, final(self)@, session::seen(next)),
            next is Some ==> final(self)@ == (Scene {
                folder: final(self)@.folder,
                ..old(self)@
            }),
            next is None ==> final(self)@ == (Scene {
                folder: final(self)@.folder,
                ..old(self)@
            }).emptied(),
    {
        let path = self.current_path();
        let next = self.unlist(path.as_str());
        if next.is_none() {
            self.empty_window();
        }
        next
    }

    fn current_path(&self) -> (path: String)
        requires
            self@.path is Some,
        ensures
            Some(path@) == self@.path,
    {
        proof {
            reveal(Session::scene);
        }
        match &self.path {
            Some(path) => path.clone(),
            None => "".to_owned(),
        }
    }

    /// Says what was deleted.
    pub fn notify_deleted(&mut self, path: &str, now: u64)
        ensures
            final(self)@ == (Scene {
                said: old(self)@.said.notified(called(path@) + " moved to the Recycle Bin"@, now),
                ..old(self)@
            }),
            old(self)@.wf() ==> final(self)@.wf(),
    {
        let mut words = name_for(path);
        words.append(" moved to the Recycle Bin");
        self.notify(words.as_str(), now);
    }

    /// What came of copying the path.
    pub fn path_copied(&mut self, result: Result<(), String>, now: u64)
        ensures
            final(self)@ == (Scene {
                said: match result {
                    Ok(_) => old(self)@.said.notified("Path copied"@, now),
                    Err(message) => old(self)@.said.failed(message@),
                },
                ..old(self)@
            }),
            old(self)@.wf() ==> final(self)@.wf(),
    {
        match result {
            Ok(_) => self.notify("Path copied", now),
            Err(message) => self.fail(message),
        }
    }

    /// Whether there is an image to copy, and a job to begin.
    pub fn copy_image(&mut self) -> (due: bool)
        ensures
            due == (old(self)@.source is Some),
            final(self)@ == (Scene {
                clipboard_busy: old(self)@.clipboard_busy || due,
                ..old(self)@
            }),
            old(self)@.wf() ==> final(self)@.wf(),
    {
        proof {
            reveal(Session::scene);
        }
        if self.source.is_none() {
            return false;
        }
        self.clipboard_busy = true;
        true
    }

    /// A paste has begun.
    pub fn paste_begun(&mut self)
        ensures
            final(self)@ == (Scene { clipboard_busy: true, ..old(self)@ }),
            old(self)@.wf() ==> final(self)@.wf(),
    {
        proof {
            reveal(Session::scene);
        }
        self.clipboard_busy = true;
    }

    /// Nothing more is to be heard of the clipboard.
    pub fn clipboard_ended(&mut self)
        ensures
            final(self)@ == (Scene { clipboard_busy: false, ..old(self)@ }),
            old(self)@.wf() ==> final(self)@.wf(),
    {
        proof {
            reveal(Session::scene);
        }
        self.clipboard_busy = false;
    }

    /// What came of a clipboard job. Says what to show next.
    pub fn clipboard_done(&mut self, result: ClipboardResult, now: u64) -> (next: Next)
        ensures
            final(self)@ == (Scene {
                clipboard_busy: false,
                said: match result {
                    ClipboardResult::Copied => old(self)@.said.notified("Image copied"@, now),
                    ClipboardResult::Failed(message) => old(self)@.said.failed(message@),
                    ClipboardResult::Pasted(_) => old(self)@.said,
                },
                ..old(self)@
            }),
            next == (match result {
                ClipboardResult::Pasted(Pasted::Path(path)) => Next::Open(path),
                ClipboardResult::Pasted(Pasted::Image(pixels)) => Next::Show(pixels),
                _ => Next::Nothing,
            }),
            old(self)@.wf() ==> final(self)@.wf(),
    {
        self.clipboard_ended();
        match result {
            ClipboardResult::Copied => {
                self.notify("Image copied", now);
                Next::Nothing
            },
            ClipboardResult::Pasted(Pasted::Path(path)) => Next::Open(path),
            ClipboardResult::Pasted(Pasted::Image(pixels)) => Next::Show(pixels),
            ClipboardResult::Failed(message) => {
                self.fail(message);
                Next::Nothing
            },
        }
    }
}

/// What a deleted file leaves of the listing: the others, with the one after it current.
pub open spec fn is_unlisted(
    before: Scene,
    path: Seq<char>,
    after: Scene,
    next: Option<Seq<char>>,
) -> bool {
    match before.folder {
        None => after.folder is None && next is None,
        Some(listing) => {
            let at = folder::place(listing.items, path);
            let count = listing.items.len();
            &&& after.folder matches Some(left)
            &&& left.order == listing.order
            &&& if at >= count {
                left == listing && next is None
            } else {
                &&& left.items == listing.items.remove(at)
                &&& left.current == (if count == 1 {
                    None
                } else if at + 1 == count {
                    Some(0)
                } else {
                    Some(at)
                })
                &&& next is Some == (count > 1)
                &&& next is Some ==> next == left.showing()
            }
        },
    }
}

/// A save never replaces the original unless the file keeps its format and its size.
pub proof fn law_only_a_like_file_is_replaced(scene: Scene)
    ensures
        scene.aim() is Over <==> scene.source is Some && scene.path is Some && format_of(
            scene.path->0,
        ) == Some(scene.export.format) && scene.export.scale_percent == 100,
        scene.aim() matches Aim::Over(path) ==> scene.path == Some(path),
{
}

/// A file that was just opened, in a format that can be written, is saved in its own place.
pub proof fn law_a_fresh_file_saves_over_itself(
    scene: Scene,
    path: Seq<char>,
    stamp: Option<crate::cache::Stamp>,
    source: Raster,
)
    requires
        format_of(path) is Some,
    ensures
        (Scene { source: Some(source), ..scene.begun(Some(path), stamp) }).aim() == Aim::Over(path),
{
}

/// Where a dot is found, there is one.
proof fn lemma_last_dot(name: Seq<char>, n: int)
    requires
        0 <= n <= name.len(),
    ensures
        -1 <= path::last_dot(name, n) < n,
        path::last_dot(name, n) >= 0 ==> name[path::last_dot(name, n)] == '.',
    decreases n,
{
    if n > 0 && name[n - 1] != '.' {
        lemma_last_dot(name, n - 1);
    }
}

/// A suggestion in the same format never aims at the original.
pub proof fn law_a_suggestion_spares_the_original(path: Seq<char>, format: Format)
    requires
        format_of(path) == Some(format),
    ensures
        path::name_of(path) matches Some(name) && suggested(path, format) != name,
{
    let name = path::name_of(path)->0;
    let dot = path::last_dot(name, name.len() as int);
    lemma_last_dot(name, name.len() as int);
    reveal_strlit(" (edited).");
    let new = suggested(path, format);
    assert(new[dot] == ' ') by {
        assert(path::stem_of(path) == Some(name.take(dot)));
        assert((name.take(dot) + " (edited)."@)[dot] == " (edited)."@[0]);
    }
}

/// When the file on screen is deleted, the one after it comes up, or the first again after the
/// last. The others stay listed, in their order. With the only file gone, nothing is left to show.
pub proof fn law_the_next_image_follows_a_deletion(
    before: Scene,
    path: Seq<char>,
    after: Scene,
    next: Option<Seq<char>>,
    at: int,
)
    requires
        is_unlisted(before, path, after, next),
        before.folder matches Some(listing) && 0 <= at < listing.items.len() && {
            &&& path::canonical_of(listing.items[at].path) == path::canonical_of(path)
            &&& forall|k: int|
                0 <= k < at ==> path::canonical_of((#[trigger] listing.items[k]).path)
                    != path::canonical_of(path)
        },
    ensures
        ({
            let items = before.folder->0.items;
            let left = after.folder->0;
            &&& after.folder is Some
            &&& left.items.len() == items.len() - 1
            &&& forall|k: int| 0 <= k < at ==> #[trigger] left.items[k] == items[k]
            &&& forall|k: int| at <= k < items.len() - 1 ==> #[trigger] left.items[k] == items[k + 1]
            &&& at + 1 < items.len() ==> next == Some(items[at + 1].path)
            &&& at + 1 == items.len() && at > 0 ==> next == Some(items[0].path)
            &&& items.len() == 1 ==> next is None && left.current is None
            &&& next is Some ==> left.current is Some && next == Some(
                left.items[left.current->0].path,
            )
        }),
{
    lemma_place(before.folder->0.items, path, at);
}

proof fn lemma_place(items: Seq<crate::order::Item>, path: Seq<char>, at: int)
    requires
        0 <= at < items.len(),
        path::canonical_of(items[at].path) == path::canonical_of(path),
        forall|k: int|
            0 <= k < at ==> path::canonical_of((#[trigger] items[k]).path) != path::canonical_of(
                path,
            ),
    ensures
        folder::place(items, path) == at,
    decreases items.len(),
{
    if at > 0 {
        assert(items[0].path == items[0].path);
        assert forall|k: int| 0 <= k < at - 1 implies path::canonical_of(
            (#[trigger] items.skip(1)[k]).path,
        ) != path::canonical_of(path) by {
            assert(items.skip(1)[k] == items[k + 1]);
        }
        lemma_place(items.skip(1), path, at - 1);
    }
}

/// A suggestion keeps the name up to its last dot and takes the extension of the format. Where
/// that would be the original again, it says that it was edited.
pub proof fn law_a_suggestion_keeps_the_name(
    path: Seq<char>,
    stem: Seq<char>,
    extension: Seq<char>,
    format: Format,
)
    requires
        path::name_of(path) == Some(stem + seq!['.'] + extension),
        stem.len() > 0,
        !extension.contains('.'),
    ensures
        Format::named(extension) == Some(format) ==> suggested(path, format) == stem
            + " (edited)."@ + format.written_as(),
        Format::named(extension) != Some(format) ==> suggested(path, format) == stem + seq!['.']
            + format.written_as(),
        called(path) == stem + seq!['.'] + extension,
{
    path::law_an_extension_follows_the_last_dot(stem, extension);
    reveal_strlit(".");
    assert(seq!['.'] =~= "."@);
}

/// What is not saved in its own place is asked for: next to the original, or, for what was
/// pasted, anywhere.
pub proof fn law_what_cannot_be_replaced_is_asked_for(scene: Scene)
    ensures
        scene.aim() is Nothing <==> scene.source is None,
        scene.source is Some && scene.path is None ==> scene.aim() == (Aim::Ask {
            folder: None,
            name: "pasted."@ + scene.export.format.written_as(),
        }),
        scene.aim() matches Aim::Ask { folder, name } ==> (scene.path matches Some(path) ==> folder
            == path::parent_of(path) && name == suggested(path, scene.export.format)),
{
}

} // verus!
