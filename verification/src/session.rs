//! What the window is showing: the image on screen and everything that belongs to it.

use std::sync::Arc;
use vstd::prelude::*;
use crate::adjust::Adjust;
use crate::cache::Stamp;
use crate::decode;
use crate::decode::{Animation, Decoded, Shot, Stage};
use crate::edit::{Edits, Stack};
use crate::export;
use crate::export::Format;
use crate::fit;
use crate::folder::{Folder, Listing};
use crate::metadata::Orientation;
use crate::notice::{Messages, Said};
use crate::panels::Panels;
use crate::path;
use crate::playback;
use crate::playback::{Beat, Player};
use crate::raster::{Picture, Raster};
use crate::settings::Settings;
use crate::slideshow::Slideshow;
use crate::vector::Zoom;
use crate::views::crop::Aspect;
use crate::views::timeline::Action;

verus! {

/// Everything the window remembers between two drawings of it, but for what lives on the
/// graphics card.
pub struct Session {
    /// The file on screen. Nothing for pixels that never were one.
    pub path: Option<String>,
    /// What that file looked like on disk when it was opened.
    pub stamp: Option<Stamp>,
    /// The size the image on screen is laid out at. Nothing while none is.
    pub canvas: Option<(u32, u32)>,
    pub stage: Option<Stage>,
    pub messages: Messages,
    /// Whether a decode is in flight.
    pub loading: bool,
    pub fullscreen: bool,
    /// The images beside the current one, once they have been listed.
    pub folder: Option<Folder>,
    pub settings: Settings,
    pub panels: Panels,
    /// The pixels exactly as decoded, which every edit starts from.
    pub source: Option<Arc<Raster>>,
    pub edits: Edits,
    /// What the colour sliders show, which mid-drag runs ahead of the edits.
    pub adjust: Adjust,
    /// Whether the edits are being applied.
    pub applying: bool,
    pub slideshow: Slideshow,
    pub animation: Option<Arc<Animation>>,
    pub player: Player,
    /// Whether anything has been drawn yet.
    pub painted: bool,
    /// Whether what is on screen still belongs to the image before.
    pub awaiting_first_frame: bool,
    /// Whether what the camera recorded has been read.
    pub info_read: bool,
    /// The ratio of the crop being drawn, while one is.
    pub crop: Option<Aspect>,
    pub export: export::Settings,
    pub saving: bool,
    pub trimming: bool,
    pub clipboard_busy: bool,
    pub vector: Zoom,
}

/// A session as mathematics.
pub struct Scene {
    pub path: Option<Seq<char>>,
    pub stamp: Option<Stamp>,
    pub canvas: Option<(u32, u32)>,
    pub stage: Option<Stage>,
    pub said: Said,
    pub loading: bool,
    pub fullscreen: bool,
    pub folder: Option<Listing>,
    pub settings: Settings,
    pub panels: Panels,
    pub source: Option<Raster>,
    pub edits: Stack,
    pub adjust: Adjust,
    pub applying: bool,
    pub slideshow: Slideshow,
    pub animation: Option<Animation>,
    pub player: Player,
    pub painted: bool,
    pub awaiting_first_frame: bool,
    pub info_read: bool,
    pub crop: Option<Aspect>,
    pub export: export::Settings,
    pub saving: bool,
    pub trimming: bool,
    pub clipboard_busy: bool,
    pub vector: Zoom,
}

/// A text that may be there.
pub open spec fn seen(text: Option<String>) -> Option<Seq<char>> {
    match text {
        Some(text) => Some(text@),
        None => None,
    }
}

pub open spec fn opened<T>(shared: Option<Arc<T>>) -> Option<T> {
    match shared {
        Some(shared) => Some(*shared),
        None => None,
    }
}

impl View for Session {
    type V = Scene;

    open spec fn view(&self) -> Scene {
        self.scene()
    }
}

impl Session {
    #[verifier::opaque]
    pub open spec fn scene(&self) -> Scene {
        Scene {
            path: seen(self.path),
            stamp: self.stamp,
            canvas: self.canvas,
            stage: self.stage,
            said: self.messages@,
            loading: self.loading,
            fullscreen: self.fullscreen,
            folder: match self.folder {
                Some(folder) => Some(folder@),
                None => None,
            },
            settings: self.settings,
            panels: self.panels,
            source: opened(self.source),
            edits: self.edits@,
            adjust: self.adjust,
            applying: self.applying,
            slideshow: self.slideshow,
            animation: opened(self.animation),
            player: self.player,
            painted: self.painted,
            awaiting_first_frame: self.awaiting_first_frame,
            info_read: self.info_read,
            crop: self.crop,
            export: self.export,
            saving: self.saving,
            trimming: self.trimming,
            clipboard_busy: self.clipboard_busy,
            vector: self.vector,
        }
    }
}

/// How a freshly opened file is to be written: in its own format, or as PNG if that cannot
/// be written.
pub open spec fn export_for(path: Option<Seq<char>>) -> export::Settings {
    let own = match path {
        Some(path) => match path::extension_of(path) {
            Some(extension) => Format::named(extension),
            None => None,
        },
        None => None,
    };
    export::Settings {
        format: match own {
            Some(format) => format,
            None => Format::Png,
        },
        quality: 90,
        scale_percent: 100,
    }
}

pub fn export_defaults(path: Option<&str>) -> (settings: export::Settings)
    ensures
        settings == export_for(
            match path {
                Some(path) => Some(path@),
                None => None,
            },
        ),
{
    let own = match path {
        Some(path) => Format::from_path(path),
        None => None,
    };
    export::Settings {
        format: match own {
            Some(format) => format,
            None => Format::Png,
        },
        quality: 90,
        scale_percent: 100,
    }
}

impl Scene {
    /// The frames are whole, the one on screen is there, the pixels are whole, and no two
    /// panels are open.
    pub open spec fn wf(self) -> bool {
        &&& self.folder matches Some(folder) ==> folder.wf()
        &&& self.source matches Some(source) ==> source.wf()
        &&& self.animation matches Some(animation) ==> {
            &&& animation.wf()
            &&& self.player.frame < animation.frames@.len()
        }
        &&& self.panels.wf()
    }

    /// How long each frame is shown.
    pub open spec fn delays(self) -> Option<Seq<u64>> {
        match self.animation {
            Some(animation) => Some(animation.delays@),
            None => None,
        }
    }

    /// A window that was just opened on a file, or on nothing.
    pub open spec fn launched(
        path: Option<Seq<char>>,
        stamp: Option<Stamp>,
        settings: Settings,
    ) -> Scene {
        Scene {
            path,
            stamp,
            canvas: None,
            stage: None,
            said: Said::nothing(),
            loading: path is Some,
            fullscreen: false,
            folder: None,
            settings,
            panels: Panels::all_shut(),
            source: None,
            edits: Stack { applied: Seq::empty(), undone: Seq::empty() },
            adjust: Adjust::neutral(),
            applying: false,
            slideshow: Slideshow::stopped(),
            animation: None,
            player: Player::parked(),
            painted: false,
            awaiting_first_frame: false,
            info_read: false,
            crop: None,
            export: export_for(path),
            saving: false,
            trimming: false,
            clipboard_busy: false,
            vector: Zoom::idle(),
        }
    }

    /// Rid of everything that belonged to the image being replaced. What is on screen stays
    /// until its replacement is ready, and what belongs to the window stays altogether.
    pub open spec fn begun(self, path: Option<Seq<char>>, stamp: Option<Stamp>) -> Scene {
        Scene {
            path,
            stamp,
            export: export_for(path),
            stage: None,
            said: Said::nothing(),
            awaiting_first_frame: true,
            source: None,
            edits: Stack { applied: Seq::empty(), undone: Seq::empty() },
            adjust: Adjust::neutral(),
            applying: false,
            animation: None,
            player: Player::parked(),
            vector: Zoom::idle(),
            info_read: false,
            crop: None,
            ..self
        }
    }

    /// With decoded pixels on screen. Only whole ones are edited.
    pub open spec fn accepted<A>(self, decoded: Decoded<A>, now: u64) -> Scene {
        let delays = match decoded.animation {
            Some(animation) => Some(animation.delays@),
            None => None,
        };
        Scene {
            stage: Some(decoded.stage),
            canvas: Some(decoded.full_size),
            said: self.said.mended(),
            awaiting_first_frame: false,
            source: if decoded.stage is Full {
                Some(*decoded.pixels)
            } else {
                self.source
            },
            animation: opened(decoded.animation),
            player: self.player.opened(delays, now),
            vector: Zoom::adopted(
                decoded.svg is Some,
                fit::longest((decoded.pixels.width, decoded.pixels.height)),
            ),
            ..self
        }
    }

    /// What accepting decoded pixels brings with it.
    pub open spec fn acceptance<A>(self, decoded: Decoded<A>) -> Accepted {
        Accepted {
            refit: self.awaiting_first_frame,
            arrived: decoded.stage is Full && self.source is None,
            store: decoded.stage is Full && self.path is Some && self.stamp is Some,
        }
    }

    /// After a decode failed. The image before goes now, or it would claim to be the file
    /// that would not open.
    pub open spec fn refused(self, message: Seq<char>) -> Scene {
        Scene {
            said: self.said.failed(message),
            loading: false,
            awaiting_first_frame: false,
            canvas: if self.awaiting_first_frame {
                None
            } else {
                self.canvas
            },
            ..self
        }
    }

    /// With one frame of the animation on screen, which is what edits and saving act on.
    pub open spec fn with_frame(self, player: Player) -> Scene {
        Scene {
            player,
            source: match self.animation {
                Some(animation) => Some(*animation.frames@[player.frame as int]),
                None => self.source,
            },
            ..self
        }
    }

    pub open spec fn animated(self, beat: Beat, now: u64) -> Scene {
        let player = self.player.after_beat(beat, now);
        if beat is Show {
            self.with_frame(player)
        } else {
            self
        }
    }

    pub open spec fn scrubbed(self, action: Action, now: u64) -> Scene {
        let player = self.player.acted(action, self.delays(), now);
        if action is Scrub {
            self.with_frame(player)
        } else {
            Scene { player, ..self }
        }
    }
}

/// Whatever the playback bar is used for, the frame on screen is one of those there are.
proof fn lemma_the_frame_stays_there(player: Player, action: Action, delays: Seq<u64>, now: u64)
    requires
        1 <= delays.len() <= usize::MAX,
        player.frame < delays.len(),
    ensures
        player.acted(action, Some(delays), now).frame < delays.len(),
{
}

/// What accepting decoded pixels brings with it.
#[derive(Debug, Clone, Copy, PartialEq, Eq)]
pub struct Accepted {
    /// Fit the image to the window: it is the first of its file to arrive.
    pub refit: bool,
    /// The whole image is on screen for the first time.
    pub arrived: bool,
    /// Keep it for the next time this file is asked for.
    pub store: bool,
}

impl Session {
    pub fn new(path: Option<String>, stamp: Option<Stamp>, settings: Settings) -> (session: Session)
        ensures
            session@ == Scene::launched(seen(path), stamp, settings),
            session@.wf(),
    {
        proof {
            reveal(Session::scene);
        }
        let export = match &path {
            Some(path) => export_defaults(Some(path.as_str())),
            None => export_defaults(None),
        };
        Session {
            loading: path.is_some(),
            path,
            stamp,
            canvas: None,
            stage: None,
            messages: Messages::new(),
            fullscreen: false,
            folder: None,
            settings,
            panels: Panels::new(),
            source: None,
            edits: Edits::default(),
            adjust: Adjust::none(),
            applying: false,
            slideshow: Slideshow::new(),
            animation: None,
            player: Player::new(),
            painted: false,
            awaiting_first_frame: false,
            info_read: false,
            crop: None,
            export,
            saving: false,
            trimming: false,
            clipboard_busy: false,
            vector: Zoom::new(),
        }
    }

    /// Clears out everything that belonged to the image being replaced.
    pub fn begin_showing(&mut self, path: Option<String>, stamp: Option<Stamp>)
        ensures
            final(self)@ == old(self)@.begun(seen(path), stamp),
            old(self)@.wf() ==> final(self)@.wf(),
    {
        proof {
            reveal(Session::scene);
        }
        self.export = match &path {
            Some(path) => export_defaults(Some(path.as_str())),
            None => export_defaults(None),
        };
        self.stamp = stamp;
        self.path = path;
        self.stage = None;
        self.messages = Messages::new();
        self.awaiting_first_frame = true;
        self.source = None;
        self.edits.clear();
        self.adjust = Adjust::none();
        self.applying = false;
        self.animation = None;
        self.player = Player::new();
        self.vector.clear();
        self.info_read = false;
        self.crop = None;
    }

    fn note_arrival(&mut self, stage: Stage, size: (u32, u32)) -> (refit: bool)
        ensures
            refit == old(self)@.awaiting_first_frame,
            final(self)@ == (Scene {
                stage: Some(stage),
                canvas: Some(size),
                said: old(self)@.said.mended(),
                awaiting_first_frame: false,
                ..old(self)@
            }),
    {
        proof {
            reveal(Session::scene);
        }
        self.stage = Some(stage);
        self.canvas = Some(size);
        self.messages.mend();
        let refit = self.awaiting_first_frame;
        self.awaiting_first_frame = false;
        refit
    }

    fn take_source(&mut self, pixels: &Arc<Raster>) -> (first: bool)
        ensures
            first == (old(self)@.source is None),
            final(self)@ == (Scene { source: Some(**pixels), ..old(self)@ }),
    {
        proof {
            reveal(Session::scene);
        }
        let first = self.source.is_none();
        self.source = Some(decode::share(pixels));
        first
    }

    fn take_animation(&mut self, animation: &Option<Arc<Animation>>, now: u64)
        requires
            *animation matches Some(animation) ==> animation.wf(),
        ensures
            final(self)@ == (Scene {
                animation: opened(*animation),
                player: old(self)@.player.opened(
                    match *animation {
                        Some(animation) => Some(animation.delays@),
                        None => None,
                    },
                    now,
                ),
                ..old(self)@
            }),
    {
        proof {
            reveal(Session::scene);
        }
        match animation {
            Some(animation) => {
                self.player.open(Some(&animation.delays), now);
                self.animation = Some(decode::share(animation));
            },
            None => {
                self.player.open(None, now);
                self.animation = None;
            },
        }
    }

    fn take_artwork(&mut self, artwork: bool, size: (u32, u32))
        ensures
            final(self)@ == (Scene {
                vector: Zoom::adopted(artwork, fit::longest(size)),
                ..old(self)@
            }),
    {
        proof {
            reveal(Session::scene);
        }
        let longest: u32 = if size.0 >= size.1 {
            size.0
        } else {
            size.1
        };
        self.vector.adopt(artwork, longest);
    }

    fn is_a_file(&self) -> (known: bool)
        ensures
            known == (self@.path is Some && self@.stamp is Some),
    {
        proof {
            reveal(Session::scene);
        }
        self.path.is_some() && self.stamp.is_some()
    }

    /// Puts decoded pixels on screen. For an animated file this happens twice at full
    /// size: for the first frame, and then for all of them.
    pub fn accept<A>(&mut self, decoded: &Decoded<A>, now: u64) -> (accepted: Accepted)
        requires
            old(self)@.wf(),
            decoded.wf(),
        ensures
            accepted == old(self)@.acceptance(*decoded),
            final(self)@ == old(self)@.accepted(*decoded, now),
            final(self)@.wf(),
    {
        let refit = self.note_arrival(decoded.stage, decoded.full_size);
        let mut arrived = false;
        let mut store = false;
        if let Stage::Full = decoded.stage {
            store = self.is_a_file();
            arrived = self.take_source(&decoded.pixels);
        }
        self.take_animation(&decoded.animation, now);
        self.take_artwork(decoded.svg.is_some(), decoded.size());
        Accepted { refit, arrived, store }
    }

    /// Moves on to a file. What is already decoded goes up at once; without it, a decode
    /// has to be started, and nothing is accepted yet.
    pub fn show<A>(
        &mut self,
        path: String,
        stamp: Option<Stamp>,
        ready: Option<&Decoded<A>>,
        now: u64,
    ) -> (accepted: Option<Accepted>)
        requires
            old(self)@.wf(),
            ready matches Some(decoded) ==> decoded.wf(),
        ensures
            final(self)@.wf(),
            match ready {
                Some(decoded) => {
                    let begun = old(self)@.begun(Some(path@), stamp);
                    &&& final(self)@ == begun.accepted(*decoded, now)
                    &&& accepted == Some(begun.acceptance(*decoded))
                },
                None => {
                    &&& final(self)@ == (Scene {
                        loading: true,
                        ..old(self)@.begun(Some(path@), stamp)
                    })
                    &&& accepted is None
                },
            },
    {
        self.begin_showing(Some(path), stamp);
        match ready {
            Some(decoded) => Some(self.accept(decoded, now)),
            None => {
                self.start_loading();
                None
            },
        }
    }

    fn start_loading(&mut self)
        ensures
            final(self)@ == (Scene { loading: true, ..old(self)@ }),
    {
        proof {
            reveal(Session::scene);
        }
        self.loading = true;
    }

    fn forget_folder(&mut self)
        ensures
            final(self)@ == (Scene { folder: None, ..old(self)@ }),
    {
        proof {
            reveal(Session::scene);
        }
        self.folder = None;
    }

    /// Says something that is over soon.
    pub fn notify(&mut self, words: &str, now: u64)
        ensures
            final(self)@ == (Scene { said: old(self)@.said.notified(words@, now), ..old(self)@ }),
            old(self)@.wf() ==> final(self)@.wf(),
    {
        proof {
            reveal(Session::scene);
        }
        self.messages.notify(words, now);
    }

    /// Says what went wrong.
    pub fn fail(&mut self, words: String)
        ensures
            final(self)@ == (Scene { said: old(self)@.said.failed(words@), ..old(self)@ }),
            old(self)@.wf() ==> final(self)@.wf(),
    {
        proof {
            reveal(Session::scene);
        }
        self.messages.fail(words);
    }

    /// A decode failed. Says whether the window was emptied and has to be fitted anew.
    pub fn decode_failed(&mut self, message: String) -> (refit: bool)
        ensures
            refit == old(self)@.awaiting_first_frame,
            final(self)@ == old(self)@.refused(message@),
            old(self)@.wf() ==> final(self)@.wf(),
    {
        proof {
            reveal(Session::scene);
        }
        self.messages.fail(message);
        self.loading = false;
        if self.awaiting_first_frame {
            self.awaiting_first_frame = false;
            self.canvas = None;
            return true;
        }
        false
    }

    /// The decode has nothing more to say.
    pub fn decode_ended(&mut self)
        ensures
            final(self)@ == (Scene { loading: false, ..old(self)@ }),
            old(self)@.wf() ==> final(self)@.wf(),
    {
        proof {
            reveal(Session::scene);
        }
        self.loading = false;
    }

    /// Shows pixels that came from the clipboard. They sit beside nothing.
    pub fn show_pasted<A>(&mut self, pixels: Raster, now: u64) -> (pasted: (Decoded<A>, Accepted))
        requires
            old(self)@.wf(),
            pixels.wf(),
        ensures
            pasted.0.wf(),
            pasted.0@ == decode::still(
                pixels@,
                (pixels.width, pixels.height),
                Orientation::Normal,
            ),
            pasted.0.svg is None,
            final(self)@ == (Scene { folder: None, ..old(self)@.begun(None, None) }).accepted(
                pasted.0,
                now,
            ),
            pasted.1 == (Accepted { refit: true, arrived: true, store: false }),
            final(self)@.wf(),
    {
        self.begin_showing(None, None);
        self.forget_folder();
        let decoded: Decoded<A> = decode::finish(pixels, Orientation::Normal);
        let accepted = self.accept(&decoded, now);
        (decoded, accepted)
    }

    fn put_frame_up(&mut self)
        requires
            old(self)@.wf(),
        ensures
            final(self)@ == old(self)@.with_frame(old(self)@.player),
            final(self)@.wf(),
    {
        proof {
            reveal(Session::scene);
        }
        if let Some(animation) = &self.animation {
            self.source = Some(decode::share(&animation.frames[self.player.frame]));
        }
    }

    fn tick_player(&mut self, now: u64) -> (beat: Beat)
        requires
            old(self)@.wf(),
        ensures
            beat == old(self)@.player.beat(old(self)@.delays(), now),
            final(self)@ == (Scene {
                player: old(self)@.player.after_beat(beat, now),
                ..old(self)@
            }),
            final(self)@.wf(),
    {
        proof {
            reveal(Session::scene);
        }
        let mut player = self.player;
        let beat = match &self.animation {
            Some(animation) => {
                let count: usize = animation.frames.len();
                proof {
                    playback::law_the_next_frame_is_there(self.player, count as nat);
                }
                player.tick(Some(&animation.delays), now)
            },
            None => player.tick(None, now),
        };
        self.player = player;
        beat
    }

    /// Advances the animation by one frame when its time is up.
    pub fn tick_animation(&mut self, now: u64) -> (beat: Beat)
        requires
            old(self)@.wf(),
        ensures
            beat == old(self)@.player.beat(old(self)@.delays(), now),
            final(self)@ == old(self)@.animated(beat, now),
            final(self)@.wf(),
    {
        let beat = self.tick_player(now);
        if let Beat::Show(_, _) = beat {
            self.put_frame_up();
        }
        beat
    }

    fn act_player(&mut self, action: Action, now: u64) -> (shown: Option<usize>)
        requires
            old(self)@.wf(),
        ensures
            final(self)@ == (Scene {
                player: old(self)@.player.acted(action, old(self)@.delays(), now),
                ..old(self)@
            }),
            shown == (if action is Scrub && old(self)@.animation is Some {
                Some(final(self)@.player.frame)
            } else {
                None
            }),
            final(self)@.wf(),
    {
        proof {
            reveal(Session::scene);
        }
        let mut player = self.player;
        let shown = match &self.animation {
            Some(animation) => {
                let count: usize = animation.delays.len();
                proof {
                    lemma_the_frame_stays_there(player, action, animation.delays@, now);
                }
                player.act(action, Some(&animation.delays), now)
            },
            None => player.act(action, None, now),
        };
        self.player = player;
        shown
    }

    /// Does what the playback bar was used for. Says which frame to put up, where that
    /// changes.
    pub fn apply_timeline(&mut self, action: Action, now: u64) -> (shown: Option<usize>)
        requires
            old(self)@.wf(),
        ensures
            final(self)@ == old(self)@.scrubbed(action, now),
            shown == (if action is Scrub && old(self)@.animation is Some {
                Some(final(self)@.player.frame)
            } else {
                None
            }),
            final(self)@.wf(),
    {
        let shown = self.act_player(action, now);
        if let Action::Scrub(_) = action {
            self.put_frame_up();
        }
        shown
    }
}

/// Moving on to another image leaves nothing of the last one behind, whatever was being done
/// to it, and takes nothing from the window.
pub proof fn law_nothing_leaks_into_the_next_image(
    scene: Scene,
    path: Option<Seq<char>>,
    stamp: Option<Stamp>,
)
    ensures
        ({
            let next = scene.begun(path, stamp);
            &&& next.edits.applied.len() == 0 && next.edits.undone.len() == 0
            &&& next.source is None && next.animation is None && next.crop is None
            &&& next.adjust == Adjust::neutral() && !next.applying && !next.info_read
            &&& next.player == Player::parked() && next.vector == Zoom::idle()
            &&& next.said == Said::nothing() && next.export == export_for(path)
            &&& next.folder == scene.folder && next.settings == scene.settings
            &&& next.panels == scene.panels && next.fullscreen == scene.fullscreen
            &&& next.slideshow == scene.slideshow && next.canvas == scene.canvas
        }),
{
}

/// A preview is shown but never edited: only whole pixels become the source of edits.
pub proof fn law_a_preview_is_not_edited<A>(
    scene: Scene,
    path: Option<Seq<char>>,
    stamp: Option<Stamp>,
    preview: Decoded<A>,
    now: u64,
)
    requires
        preview.stage is Preview,
    ensures
        scene.begun(path, stamp).accepted(preview, now).source is None,
        !scene.acceptance(preview).store,
{
}

/// An image is fitted to the window once: what arrives of it later does not throw away a zoom
/// set in between, and it is laid out at the size of the whole from the start.
pub proof fn law_an_image_is_fitted_once<A>(
    scene: Scene,
    path: Option<Seq<char>>,
    stamp: Option<Stamp>,
    first: Decoded<A>,
    second: Decoded<A>,
    now: u64,
    later: u64,
)
    ensures
        ({
            let begun = scene.begun(path, stamp);
            let shown = begun.accepted(first, now);
            &&& begun.acceptance(first).refit
            &&& !shown.acceptance(second).refit
            &&& shown.canvas == Some(first.full_size)
            &&& first.full_size == second.full_size ==> shown.accepted(second, later).canvas
                == shown.canvas
        }),
{
}

/// An animated image starts playing when its frames arrive, on its first frame; a still one
/// leaves nothing to wait for.
pub proof fn law_an_animation_arrives_playing<A>(scene: Scene, decoded: Decoded<A>, now: u64)
    ensures
        scene.accepted(decoded, now).player.playing == decoded.animation is Some,
        scene.accepted(decoded, now).player.due is Some == decoded.animation is Some,
        scene.accepted(decoded, now).player.frame == 0,
{
}

/// A file that will not open does not leave the image before it on screen.
pub proof fn law_a_failure_does_not_pose_as_an_image(
    scene: Scene,
    path: Option<Seq<char>>,
    stamp: Option<Stamp>,
    message: Seq<char>,
)
    ensures
        scene.begun(path, stamp).refused(message).canvas is None,
        scene.begun(path, stamp).refused(message).said.error == Some(message),
{
}

/// An image that arrives whole is what the edits start from and what the window is laid out for,
/// and the error that stood there is gone.
pub proof fn law_what_arrives_is_shown<A>(scene: Scene, decoded: Decoded<A>, now: u64)
    requires
        decoded.wf(),
    ensures
        ({
            let shown = scene.accepted(decoded, now);
            &&& shown.canvas == Some(decoded.full_size)
            &&& shown.stage == Some(decoded.stage)
            &&& decoded.stage is Full ==> shown.source == Some(*decoded.pixels)
            &&& decoded.stage is Preview ==> shown.source == scene.source
            &&& shown.said.error is None && shown.said.notice == scene.said.notice
            &&& shown.animation is Some == decoded.animation is Some
            &&& decoded.animation matches Some(animation) ==> shown.animation == Some(*animation)
            &&& shown.vector.artwork == decoded.svg is Some
            &&& shown.vector.artwork ==> shown.vector.side == (if decoded.pixels.width
                >= decoded.pixels.height {
                decoded.pixels.width
            } else {
                decoded.pixels.height
            })
            &&& shown.path == scene.path && shown.stamp == scene.stamp && shown.edits
                == scene.edits && shown.folder == scene.folder && shown.export == scene.export
        }),
{
}

/// What is read whole from a file is kept for the next time, once the file is known. What was
/// pasted is kept nowhere. The arrival is told once.
pub proof fn law_only_whole_files_are_kept<A>(scene: Scene, decoded: Decoded<A>, now: u64)
    ensures
        scene.acceptance(decoded).store <==> decoded.stage is Full && scene.path is Some
            && scene.stamp is Some,
        scene.acceptance(decoded).arrived <==> decoded.stage is Full && scene.source is None,
        decoded.stage is Full ==> !scene.accepted(decoded, now).acceptance(decoded).arrived,
{
}

/// A failure says what went wrong and ends the loading. An image that is on screen already stays
/// there.
pub proof fn law_a_failure_is_told(scene: Scene, message: Seq<char>)
    ensures
        scene.refused(message).said.error == Some(message),
        !scene.refused(message).loading,
        !scene.awaiting_first_frame ==> scene.refused(message).canvas == scene.canvas,
        scene.refused(message).source == scene.source,
        scene.refused(message).path == scene.path,
{
}

/// The frame that an animation is at is the one on screen, and what an edit would start from.
pub proof fn law_the_frame_shown_is_the_frame_played(scene: Scene, action: Action, now: u64)
    requires
        scene.wf(),
        scene.animation is Some,
    ensures
        ({
            let delays = scene.animation->0.delays@;
            let frames = scene.animation->0.frames@;
            let beat = scene.player.beat(Some(delays), now);
            let played = scene.animated(beat, now);
            let scrubbed = scene.scrubbed(action, now);
            &&& beat is Show ==> played.source == Some(*frames[played.player.frame as int])
            &&& !(beat is Show) ==> played == scene
            &&& action is Scrub ==> scrubbed.source == Some(
                *frames[scrubbed.player.frame as int],
            )
            &&& !(action is Scrub) ==> scrubbed.source == scene.source
            &&& played.animation == scene.animation && scrubbed.animation == scene.animation
        }),
{
}

/// A new window shows nothing yet, has nothing open and nothing under way but the file it was
/// given.
pub proof fn law_a_window_starts_empty(
    path: Option<Seq<char>>,
    stamp: Option<Stamp>,
    settings: Settings,
)
    ensures
        ({
            let scene = Scene::launched(path, stamp, settings);
            &&& scene.path == path && scene.stamp == stamp && scene.settings == settings
            &&& scene.loading <==> path is Some
            &&& scene.canvas is None && scene.source is None && scene.animation is None
            &&& scene.folder is None && scene.crop is None && scene.stage is None
            &&& scene.said.error is None && scene.said.notice is None
            &&& !scene.fullscreen && !scene.applying && !scene.saving && !scene.trimming
                && !scene.clipboard_busy
            &&& !scene.panels.sidebar && !scene.panels.info && !scene.panels.settings
            &&& scene.edits.applied.len() == 0 && scene.edits.undone.len() == 0
            &&& scene.slideshow.due is None
            &&& !scene.painted && !scene.info_read && !scene.awaiting_first_frame
            &&& scene.adjust.brightness == 0 && scene.adjust.contrast == 0
                && scene.adjust.saturation == 0
            &&& scene.export == export_for(path)
        }),
{
}

/// A file is written in its own format, at its own size, unless asked otherwise. What has no
/// format that can be written becomes a PNG.
pub proof fn law_a_file_keeps_its_format(path: Seq<char>)
    ensures
        export_for(Some(path)).scale_percent == 100,
        export_for(Some(path)).quality == 90,
        path::extension_of(path) is None ==> export_for(Some(path)).format is Png,
        path::extension_of(path) matches Some(extension) ==> {
            &&& Format::named(extension) matches Some(format) ==> export_for(Some(path)).format
                == format
            &&& Format::named(extension) is None ==> export_for(Some(path)).format is Png
        },
        export_for(None).format is Png,
{
}

} // verus!
