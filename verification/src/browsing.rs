//! Moving about: the folder listing, its order, the slideshow and what is decoded ahead.

use vstd::prelude::*;
use crate::cache;
use crate::folder;
use crate::folder::{Folder, Found};
use crate::order::Order;
use crate::path;
use crate::prefetch::PREFETCH_RADIUS;
use crate::session::{Scene, Session};
use crate::slideshow::{Event, Turn};
use crate::text;
use crate::views::settings::Action;

verus! {

/// How much memory decoded images may occupy, in megabytes as a text. Anything that is no
/// number leaves it at the default.
pub open spec fn budget_in(value: Option<Seq<char>>) -> nat {
    match value {
        Some(value) => match text::number_in(
            text::trimmed(value, text::Trim::Space),
            usize::MAX as nat,
        ) {
            Some(megabytes) => if megabytes * 1048576 <= usize::MAX {
                megabytes * 1048576
            } else {
                usize::MAX as nat
            },
            None => cache::DEFAULT_BUDGET as nat,
        },
        None => cache::DEFAULT_BUDGET as nat,
    }
}

pub fn cache_budget(value: Option<&str>) -> (budget: usize)
    ensures
        budget == budget_in(
            match value {
                Some(value) => Some(value@),
                None => None,
            },
        ),
{
    match value {
        Some(value) => {
            let chars = text::chars_of(value);
            let kept = text::trim_chars(chars.as_slice(), text::Trim::Space);
            match text::parse_number(kept, usize::MAX as u64) {
                Some(megabytes) => {
                    let megabytes = megabytes as usize;
                    if megabytes <= usize::MAX / 1048576 {
                        megabytes * 1048576
                    } else {
                        usize::MAX
                    }
                },
                None => cache::DEFAULT_BUDGET,
            }
        },
        None => cache::DEFAULT_BUDGET,
    }
}

impl Scene {
    /// Whether there is more than one image to move between.
    pub open spec fn has_neighbours(self) -> bool {
        match self.folder {
            Some(folder) => folder.items.len() > 1,
            None => false,
        }
    }

    /// Which settings an action of the settings panel leads to, apart from the order.
    pub open spec fn configured(self, action: Action, now: u64) -> Scene {
        match action {
            Action::Close => Scene {
                panels: crate::panels::Panels { settings: false, ..self.panels },
                ..self
            },
            Action::SetSlideshow(secs) => Scene {
                settings: crate::settings::Settings { slideshow_secs: secs, ..self.settings },
                ..self
            },
            Action::CommitSlideshow => Scene {
                said: self.said.notified(
                    "Slideshow set to "@ + text::decimal(self.settings.slideshow_secs as nat)
                        + " seconds per image"@,
                    now,
                ),
                ..self
            },
            Action::SetOrder(_) => self,
        }
    }

    /// With the thing that moves stopped, or started: an animation if there is one, or else
    /// the slideshow if there is anywhere to go.
    pub open spec fn play_paused(self, now: u64) -> Scene {
        if self.animation is Some {
            Scene { player: self.player.toggled(self.delays(), now), ..self }
        } else if self.has_neighbours() {
            Scene {
                slideshow: self.slideshow.toggled(self.settings.slideshow_secs, now),
                ..self
            }
        } else {
            self
        }
    }
}

impl Session {
    /// Whether the images beside the current one still have to be listed.
    pub fn needs_listing(&self) -> (needed: bool)
        ensures
            needed == (self@.folder is None),
    {
        proof {
            reveal(Session::scene);
        }
        self.folder.is_none()
    }

    /// Takes in what was found beside the current image.
    pub fn list(&mut self, found: Vec<Found>)
        requires
            old(self)@.wf(),
        ensures
            final(self)@.wf(),
            final(self)@ == (Scene { folder: final(self)@.folder, ..old(self)@ }),
            old(self)@.folder is Some ==> final(self)@.folder == old(self)@.folder,
            old(self)@.folder is None ==> final(self)@.folder is Some,
            old(self)@.folder is None && old(self)@.path is None ==> final(self)@.folder == Some(
                folder::Listing::bare(),
            ),
            old(self)@.folder is None ==> (old(self)@.path matches Some(path) ==> {
                let listing = final(self)@.folder->0;
                &&& path::parent_of(path) is None ==> listing == folder::Listing::bare()
                &&& path::parent_of(path) is Some ==> {
                    &&& folder::is_listing(listing.items, found@, old(self)@.settings.order)
                    &&& listing.order == old(self)@.settings.order
                    &&& listing.current == (if folder::place(listing.items, path)
                        < listing.items.len() {
                        Some(folder::place(listing.items, path))
                    } else {
                        None
                    })
                }
            }),
    {
        proof {
            reveal(Session::scene);
        }
        if self.folder.is_some() {
            return;
        }
        self.folder = Some(
            match &self.path {
                Some(path) => Folder::containing(path.as_str(), found, self.settings.order),
                None => Folder::default(),
            },
        );
    }

    /// Forgets the listing: a file from elsewhere is being opened.
    pub fn leave_folder(&mut self)
        ensures
            final(self)@ == (Scene { folder: None, ..old(self)@ }),
            old(self)@.wf() ==> final(self)@.wf(),
    {
        proof {
            reveal(Session::scene);
        }
        self.folder = None;
    }

    /// Takes on a folder that was picked. Says which image of it to show; a folder without
    /// any is refused.
    pub fn take_folder(&mut self, directory: &str, found: Vec<Found>) -> (first: Option<String>)
        requires
            old(self)@.wf(),
        ensures
            final(self)@.wf(),
            first is Some == (folder::kept(found@).len() > 0),
            first matches Some(first) ==> {
                let listing = final(self)@.folder->0;
                &&& final(self)@ == (Scene { folder: Some(listing), ..old(self)@ })
                &&& folder::is_listing(listing.items, found@, old(self)@.settings.order)
                &&& listing.order == old(self)@.settings.order
                &&& listing.current == Some(0int)
                &&& first@ == listing.items[0].path
            },
            first is None ==> final(self)@ == (Scene {
                said: old(self)@.said.failed("No images this build can open in "@ + directory@),
                ..old(self)@
            }),
    {
        proof {
            reveal(Session::scene);
        }
        let listing = Folder::of_directory(found, self.settings.order);
        proof {
            lemma_listing_len(listing@.items, found@, self.settings.order);
        }
        let first = match listing.current() {
            Some(path) => Some(path.to_owned()),
            None => None,
        };
        match first {
            Some(first) => {
                self.folder = Some(listing);
                Some(first)
            },
            None => {
                let mut words = "No images this build can open in ".to_owned();
                words.append(directory);
                self.messages.fail(words);
                None
            },
        }
    }

    /// Orders the listing anew. The image on screen stays, and the choice lasts.
    pub fn set_order(&mut self, order: Order)
        requires
            old(self)@.wf(),
        ensures
            final(self)@.wf(),
            final(self)@ == (Scene {
                settings: crate::settings::Settings { order, ..old(self)@.settings },
                folder: final(self)@.folder,
                ..old(self)@
            }),
            final(self)@.folder is Some == (old(self)@.folder is Some),
            old(self)@.folder matches Some(before) ==> {
                let listing = final(self)@.folder->0;
                &&& listing.order == order
                &&& order == before.order ==> listing == before
                &&& crate::order::in_order(listing.items, order)
                &&& crate::order::keeps_ties(listing.items, before.items, order)
                &&& listing.items.to_multiset() == before.items.to_multiset()
                &&& listing.current is Some == (before.current is Some)
                &&& before.showing() matches Some(path) ==> path::canonical_of(
                    listing.showing()->0,
                ) == path::canonical_of(path)
            },
    {
        proof {
            reveal(Session::scene);
        }
        self.settings.order = order;
        let mut listing: Option<Folder> = None;
        std::mem::swap(&mut listing, &mut self.folder);
        if let Some(mut folder) = listing {
            folder.set_order(order);
            self.folder = Some(folder);
        }
    }

    /// Steps to the next or the previous image of the listing. Says which one to show.
    pub fn step(&mut self, forward: bool) -> (path: Option<String>)
        requires
            old(self)@.wf(),
        ensures
            final(self)@.wf(),
            path is Some == (old(self)@.folder is Some && old(self)@.folder->0.current is Some),
            path is None ==> final(self)@ == old(self)@,
            path matches Some(path) ==> {
                let before = old(self)@.folder->0;
                let count = before.items.len() as int;
                let at = if forward {
                    folder::after(before.current->0, count)
                } else {
                    folder::before(before.current->0, count)
                };
                &&& final(self)@ == (Scene { folder: Some(before.at(at)), ..old(self)@ })
                &&& path@ == before.items[at].path
            },
    {
        proof {
            reveal(Session::scene);
        }
        let mut listing: Option<Folder> = None;
        std::mem::swap(&mut listing, &mut self.folder);
        match listing {
            Some(mut folder) => {
                let path = if forward {
                    folder.next_image()
                } else {
                    folder.prev_image()
                };
                self.folder = Some(folder);
                path
            },
            None => None,
        }
    }

    /// The images to decode ahead. None while the folder is not listed.
    pub fn neighbours(&self) -> (paths: Vec<String>)
        requires
            self@.wf(),
        ensures
            self@.folder is None || self@.folder->0.current is None ==> paths@.len() == 0,
            self@.folder matches Some(listing) ==> (listing.current matches Some(current) ==> {
                let indices = folder::around(
                    current,
                    listing.items.len() as int,
                    PREFETCH_RADIUS as int,
                );
                &&& paths@.len() == indices.len()
                &&& forall|i: int|
                    0 <= i < paths@.len() ==> (#[trigger] paths@[i])@
                        == listing.items[indices[i]].path
            }),
    {
        proof {
            reveal(Session::scene);
        }
        match &self.folder {
            Some(folder) => folder.neighbours(PREFETCH_RADIUS),
            None => Vec::new(),
        }
    }

    pub fn has_neighbours(&self) -> (more: bool)
        ensures
            more == self@.has_neighbours(),
    {
        proof {
            reveal(Session::scene);
        }
        match &self.folder {
            Some(folder) => folder.len() > 1,
            None => false,
        }
    }

    /// Where the image on screen sits, counted from one, and how many there are.
    pub fn position(&self) -> (position: Option<(usize, usize)>)
        requires
            self@.wf(),
        ensures
            position is Some == (self@.folder is Some && self@.folder->0.current is Some),
            position matches Some(position) ==> position.0 == self@.folder->0.current->0 + 1
                && position.1 == self@.folder->0.items.len(),
    {
        proof {
            reveal(Session::scene);
        }
        match &self.folder {
            Some(folder) => folder.position(),
            None => None,
        }
    }

    pub fn toggle_slideshow(&mut self, now: u64)
        ensures
            final(self)@ == (Scene {
                slideshow: old(self)@.slideshow.toggled(
                    old(self)@.settings.slideshow_secs,
                    now,
                ),
                ..old(self)@
            }),
            old(self)@.wf() ==> final(self)@.wf(),
    {
        proof {
            reveal(Session::scene);
        }
        self.slideshow.toggle(self.settings.slideshow_secs, now);
    }

    /// Lets the slideshow move on when its time is up.
    pub fn tick_slideshow(&mut self, now: u64) -> (turn: Turn)
        ensures
            turn == old(self)@.slideshow.turn(now),
            final(self)@ == (Scene {
                slideshow: old(self)@.slideshow.after_turn(
                    turn,
                    old(self)@.settings.slideshow_secs,
                    now,
                ),
                ..old(self)@
            }),
            old(self)@.wf() ==> final(self)@.wf(),
    {
        proof {
            reveal(Session::scene);
        }
        self.slideshow.tick(self.settings.slideshow_secs, now)
    }

    /// Stops the slideshow the moment something deliberate happens.
    pub fn interrupt_slideshow(&mut self, scrolled: bool, events: &Vec<Event>)
        ensures
            final(self)@ == (Scene {
                slideshow: if crate::slideshow::interrupts(scrolled, events@) {
                    crate::slideshow::Slideshow::stopped()
                } else {
                    old(self)@.slideshow
                },
                ..old(self)@
            }),
            old(self)@.wf() ==> final(self)@.wf(),
    {
        proof {
            reveal(Session::scene);
        }
        self.slideshow.interrupt(scrolled, events);
    }

    fn toggle_player(&mut self, now: u64) -> (animated: bool)
        ensures
            animated == (old(self)@.animation is Some),
            final(self)@ == (if old(self)@.animation is Some {
                Scene {
                    player: old(self)@.player.toggled(old(self)@.delays(), now),
                    ..old(self)@
                }
            } else {
                old(self)@
            }),
            old(self)@.wf() ==> final(self)@.wf(),
    {
        proof {
            reveal(Session::scene);
        }
        let mut player = self.player;
        match &self.animation {
            Some(animation) => player.toggle(Some(&animation.delays), now),
            None => {
                return false;
            },
        }
        self.player = player;
        true
    }

    /// Stops or starts the thing that is moving.
    pub fn play_pause(&mut self, now: u64)
        ensures
            final(self)@ == old(self)@.play_paused(now),
            old(self)@.wf() ==> final(self)@.wf(),
    {
        if !self.toggle_player(now) && self.has_neighbours() {
            self.toggle_slideshow(now);
        }
    }

    pub fn close_settings(&mut self)
        ensures
            final(self)@ == (Scene {
                panels: crate::panels::Panels { settings: false, ..old(self)@.panels },
                ..old(self)@
            }),
            old(self)@.wf() ==> final(self)@.wf(),
    {
        proof {
            reveal(Session::scene);
        }
        self.panels.settings = false;
    }

    fn set_slideshow(&mut self, secs: u32)
        ensures
            final(self)@ == (Scene {
                settings: crate::settings::Settings { slideshow_secs: secs, ..old(self)@.settings },
                ..old(self)@
            }),
            old(self)@.wf() ==> final(self)@.wf(),
    {
        proof {
            reveal(Session::scene);
        }
        self.settings.slideshow_secs = secs;
    }

    fn slideshow_words(&self) -> (words: String)
        ensures
            words@ == "Slideshow set to "@ + text::decimal(self@.settings.slideshow_secs as nat)
                + " seconds per image"@,
    {
        proof {
            reveal(Session::scene);
        }
        let mut words = "Slideshow set to ".to_owned();
        words.append(text::to_decimal(self.settings.slideshow_secs as u64).as_str());
        words.append(" seconds per image");
        words
    }

    /// Does what the settings panel asked for, short of ordering the listing. Says whether
    /// the settings are to be written down, and the order to put the listing in.
    pub fn apply_settings(&mut self, action: Action, now: u64) -> (outcome: (bool, Option<Order>))
        ensures
            final(self)@ == old(self)@.configured(action, now),
            outcome.0 == (action is CommitSlideshow || action is SetOrder),
            outcome.1 == (match action {
                Action::SetOrder(order) => Some(order),
                _ => None,
            }),
            old(self)@.wf() ==> final(self)@.wf(),
    {
        match action {
            Action::Close => {
                self.close_settings();
                (false, None)
            },
            Action::SetSlideshow(secs) => {
                self.set_slideshow(secs);
                (false, None)
            },
            Action::CommitSlideshow => {
                let words = self.slideshow_words();
                self.notify(words.as_str(), now);
                (true, None)
            },
            Action::SetOrder(order) => (true, Some(order)),
        }
    }
}

/// A listing has as many images as were found.
proof fn lemma_listing_len(items: Seq<crate::order::Item>, found: Seq<Found>, order: Order)
    requires
        folder::is_listing(items, found, order),
    ensures
        items.len() == folder::kept(found).len(),
{
    broadcast use vstd::seq_lib::group_to_multiset_ensures;

    assert(items.to_multiset().len() == folder::kept(found).to_multiset().len());
}

/// Stepping forward and then back shows the image one started from.
pub proof fn law_stepping_back_returns(scene: Scene)
    requires
        scene.wf(),
        scene.folder matches Some(listing) && listing.current is Some,
    ensures
        ({
            let listing = scene.folder->0;
            let count = listing.items.len() as int;
            let there = listing.at(folder::after(listing.current->0, count));
            let back = there.at(folder::before(there.current->0, count));
            back.showing() == listing.showing()
        }),
{
    let listing = scene.folder->0;
    folder::law_stepping_retraces(listing.current->0, listing.items.len() as int);
}

/// The settings panel leaves the image and its edits alone.
pub proof fn law_settings_do_not_touch_the_image(scene: Scene, action: Action, now: u64)
    ensures
        ({
            let after = scene.configured(action, now);
            &&& after.source == scene.source && after.edits == scene.edits
            &&& after.path == scene.path && after.canvas == scene.canvas
            &&& after.animation == scene.animation && after.player == scene.player
        }),
{
}

/// The space bar stops and starts what moves: the animation, if the image is one, or else the
/// slideshow, if there is another image to go on to.
pub proof fn law_the_space_bar_stops_and_starts_what_moves(scene: Scene, now: u64)
    requires
        scene.wf(),
    ensures
        scene.animation matches Some(animation) ==> (animation.frames@.len() >= 2
            ==> scene.play_paused(now).player.playing != scene.player.playing),
        scene.animation is Some ==> scene.play_paused(now).slideshow == scene.slideshow,
        scene.animation is None && scene.folder is Some && scene.folder->0.items.len() > 1
            ==> scene.play_paused(now).slideshow.due is Some == scene.slideshow.due is None
            && scene.play_paused(now).player == scene.player,
        scene.animation is None && (scene.folder is None || scene.folder->0.items.len() <= 1)
            ==> scene.play_paused(now) == scene,
{
}

/// A slider that moves sets the length of a slide, and letting it go says so.
pub proof fn law_the_settings_take_effect(scene: Scene, secs: u32, order: Order, now: u64)
    ensures
        scene.configured(Action::SetSlideshow(secs), now).settings.slideshow_secs == secs,
        scene.configured(Action::SetSlideshow(secs), now).settings.order == scene.settings.order,
        scene.configured(Action::SetSlideshow(secs), now).said == scene.said,
        scene.configured(Action::CommitSlideshow, now).settings == scene.settings,
        scene.configured(Action::CommitSlideshow, now).said.notice is Some,
        !scene.configured(Action::Close, now).panels.settings,
        scene.configured(Action::Close, now).settings == scene.settings,
        scene.configured(Action::SetOrder(order), now) == scene,
{
}

/// A budget is given in megabytes, up to what can be counted. Without one, or with one that is
/// no number, there is the usual one.
pub proof fn law_a_budget_is_in_megabytes(megabytes: nat, text: Seq<char>, i: int)
    ensures
        megabytes * 1048576 <= usize::MAX ==> budget_in(Some(text::decimal(megabytes)))
            == megabytes * 1048576,
        megabytes <= usize::MAX && megabytes * 1048576 > usize::MAX ==> budget_in(
            Some(text::decimal(megabytes)),
        ) == usize::MAX,
        budget_in(None) == cache::DEFAULT_BUDGET,
        text.len() == 0 ==> budget_in(Some(text)) == cache::DEFAULT_BUDGET,
{
    text::law_decimals_are_written_in_tens(megabytes, 0);
    text::law_only_digits_spell_a_number(megabytes, usize::MAX as nat, text, i);
    let digits = text::decimal(megabytes);
    if digits.len() > 0 {
        assert('0' <= digits[0] <= '9' && '0' <= digits[digits.len() - 1] <= '9');
    }
    assert(text::trimmed(digits, text::Trim::Space) == digits);
    assert(megabytes <= megabytes * 1048576) by (nonlinear_arith);
}

} // verus!
