//! Playing an animation: which frame is up, and when it gives way to the next.

use vstd::prelude::*;
use crate::clock;
use crate::views::timeline::Action;

verus! {

/// What playback remembers between two drawings of the window.
#[derive(Debug, Clone, Copy, PartialEq, Eq)]
pub struct Player {
    /// The frame on screen.
    pub frame: usize,
    /// Whether frames advance on their own.
    pub playing: bool,
    /// When the frame on screen gives way to the next. Nothing while paused.
    pub due: Option<u64>,
    /// Whether the scrubber is being dragged, which holds playback.
    pub scrubbing: bool,
    /// What playback was doing when the drag started.
    pub resume: bool,
}

/// What to do about the frames now.
#[derive(Debug, Clone, Copy, PartialEq, Eq)]
pub enum Beat {
    /// Nothing moves.
    Still,
    /// The frame on screen has this much longer.
    Wait(u64),
    /// Put this frame up, and look again after this long.
    Show(usize, u64),
}

/// The last of `count` frames, or the asked one if there is one.
pub open spec fn within(frame: usize, count: nat) -> usize {
    if frame < count {
        frame
    } else {
        (count - 1) as usize
    }
}

impl Player {
    /// Parked on the first frame.
    pub open spec fn parked() -> Player {
        Player { frame: 0, playing: false, due: None, scrubbing: false, resume: false }
    }

    /// With the first frame of what was just decoded on screen: playing if there are
    /// frames, parked if not.
    pub open spec fn opened(self, delays: Option<Seq<u64>>, now: u64) -> Player {
        match delays {
            Some(delays) => Player {
                frame: 0,
                playing: true,
                due: Some(clock::later(now, delays[0])),
                ..self
            },
            None => Player { frame: 0, playing: false, due: None, ..self },
        }
    }

    pub open spec fn paused(self) -> Player {
        Player { playing: false, due: None, ..self }
    }

    /// Playing from the frame on screen, where there are at least two to play.
    pub open spec fn played(self, delays: Option<Seq<u64>>, now: u64) -> Player {
        match delays {
            Some(delays) => if delays.len() < 2 {
                self
            } else {
                Player {
                    playing: true,
                    due: Some(
                        clock::later(now, delays[within(self.frame, delays.len()) as int]),
                    ),
                    ..self
                }
            },
            None => self,
        }
    }

    pub open spec fn toggled(self, delays: Option<Seq<u64>>, now: u64) -> Player {
        if self.playing {
            self.paused()
        } else {
            self.played(delays, now)
        }
    }

    /// The frame after the one on screen, which after the last is the first again.
    #[verifier::opaque]
    pub open spec fn next(self, count: nat) -> usize {
        ((self.frame + 1) % count as int) as usize
    }

    pub open spec fn beat(self, delays: Option<Seq<u64>>, now: u64) -> Beat {
        match (self.due, delays) {
            (Some(due), Some(delays)) => if !self.playing || self.scrubbing {
                Beat::Still
            } else if now < due {
                Beat::Wait((due - now) as u64)
            } else {
                let next = self.next(delays.len());
                Beat::Show(next, delays[next as int])
            },
            (Some(due), None) => if self.playing && !self.scrubbing && now < due {
                Beat::Wait((due - now) as u64)
            } else {
                Beat::Still
            },
            (None, _) => Beat::Still,
        }
    }

    pub open spec fn after_beat(self, beat: Beat, now: u64) -> Player {
        match beat {
            Beat::Show(frame, wait) => Player {
                frame,
                due: Some(clock::later(now, wait)),
                ..self
            },
            _ => self,
        }
    }

    /// What the playback bar was used for.
    pub open spec fn acted(self, action: Action, delays: Option<Seq<u64>>, now: u64) -> Player {
        match action {
            Action::TogglePlay => self.toggled(delays, now),
            Action::ScrubStart => Player {
                scrubbing: true,
                resume: self.playing,
                ..self.paused()
            },
            Action::Scrub(index) => match delays {
                Some(delays) => Player { frame: within(index, delays.len()), ..self.paused() },
                None => self.paused(),
            },
            Action::ScrubEnd => {
                let released = Player { scrubbing: false, ..self };
                if self.resume {
                    released.played(delays, now)
                } else {
                    released
                }
            },
        }
    }

    pub fn new() -> (player: Player)
        ensures
            player == Player::parked(),
    {
        Player { frame: 0, playing: false, due: None, scrubbing: false, resume: false }
    }

    /// Arms playback for what was just decoded, or parks it.
    pub fn open(&mut self, delays: Option<&Vec<u64>>, now: u64)
        requires
            delays matches Some(delays) ==> delays@.len() >= 1,
        ensures
            *final(self) == old(self).opened(seen(delays), now),
    {
        self.frame = 0;
        match delays {
            Some(delays) => {
                self.playing = true;
                self.due = Some(clock::after(now, delays[0]));
            },
            None => {
                self.playing = false;
                self.due = None;
            },
        }
    }

    /// Holds the frame on screen until something is done about it.
    pub fn pause(&mut self)
        ensures
            *final(self) == old(self).paused(),
    {
        self.playing = false;
        self.due = None;
    }

    /// Resumes from the frame on screen.
    pub fn play(&mut self, delays: Option<&Vec<u64>>, now: u64)
        ensures
            *final(self) == old(self).played(seen(delays), now),
    {
        match delays {
            Some(delays) => {
                let count: usize = delays.len();
                if count < 2 {
                    return;
                }
                let at: usize = if self.frame < count {
                    self.frame
                } else {
                    count - 1
                };
                self.playing = true;
                self.due = Some(clock::after(now, delays[at]));
            },
            None => {},
        }
    }

    /// Pauses what plays, plays what is paused.
    pub fn toggle(&mut self, delays: Option<&Vec<u64>>, now: u64)
        ensures
            *final(self) == old(self).toggled(seen(delays), now),
    {
        if self.playing {
            self.pause();
        } else {
            self.play(delays, now);
        }
    }

    /// Advances by one frame when its time is up.
    pub fn tick(&mut self, delays: Option<&Vec<u64>>, now: u64) -> (beat: Beat)
        requires
            delays matches Some(delays) ==> delays@.len() >= 1 && old(self).frame < usize::MAX,
        ensures
            beat == old(self).beat(seen(delays), now),
            *final(self) == old(self).after_beat(beat, now),
    {
        if !self.playing || self.scrubbing {
            return Beat::Still;
        }
        let due = match self.due {
            Some(due) => due,
            None => {
                return Beat::Still;
            },
        };
        if now < due {
            return Beat::Wait(due - now);
        }
        match delays {
            Some(delays) => {
                let count: usize = delays.len();
                let next: usize = (self.frame + 1) % count;
                proof {
                    reveal(Player::next);
                }
                let wait = delays[next];
                self.frame = next;
                self.due = Some(clock::after(now, wait));
                Beat::Show(next, wait)
            },
            None => Beat::Still,
        }
    }

    /// Does what the playback bar was used for. Says which frame to put up, where that
    /// changes.
    pub fn act(&mut self, action: Action, delays: Option<&Vec<u64>>, now: u64) -> (shown: Option<
        usize,
    >)
        requires
            delays matches Some(delays) ==> delays@.len() >= 1,
        ensures
            *final(self) == old(self).acted(action, seen(delays), now),
            shown == (if action is Scrub && delays is Some {
                Some(final(self).frame)
            } else {
                None
            }),
    {
        match action {
            Action::TogglePlay => {
                self.toggle(delays, now);
                None
            },
            Action::ScrubStart => {
                self.scrubbing = true;
                self.resume = self.playing;
                self.pause();
                None
            },
            Action::Scrub(index) => {
                self.pause();
                match delays {
                    Some(delays) => {
                        let count: usize = delays.len();
                        self.frame = if index < count {
                            index
                        } else {
                            count - 1
                        };
                        Some(self.frame)
                    },
                    None => None,
                }
            },
            Action::ScrubEnd => {
                self.scrubbing = false;
                if self.resume {
                    self.play(delays, now);
                }
                None
            },
        }
    }
}

pub open spec fn seen(delays: Option<&Vec<u64>>) -> Option<Seq<u64>> {
    match delays {
        Some(delays) => Some(delays@),
        None => None,
    }
}

/// Playback never leaves the frames there are: whatever comes next is one of them.
pub proof fn law_the_next_frame_is_there(player: Player, count: nat)
    requires
        1 <= count <= usize::MAX,
    ensures
        player.next(count) < count,
{
    reveal(Player::next);
    vstd::arithmetic::div_mod::lemma_mod_bound(player.frame + 1, count as int);
}

/// Letting go of the scrubber gives back what the drag took: what played plays again,
/// from the frame it was left on, and what was paused stays paused.
pub proof fn law_a_drag_gives_playback_back(
    player: Player,
    index: usize,
    delays: Seq<u64>,
    began: u64,
    moved: u64,
    ended: u64,
)
    requires
        delays.len() >= 2,
    ensures
        ({
            let held = player.acted(Action::ScrubStart, Some(delays), began);
            let dragged = held.acted(Action::Scrub(index), Some(delays), moved);
            let released = dragged.acted(Action::ScrubEnd, Some(delays), ended);
            &&& held.beat(Some(delays), began) is Still
            &&& dragged.beat(Some(delays), moved) is Still
            &&& released.playing == player.playing
            &&& released.frame == within(index, delays.len())
            &&& !released.scrubbing
        }),
{
}

/// Pausing and playing again shows the frame that was up, for as long as it lasts.
pub proof fn law_pausing_keeps_the_frame(player: Player, delays: Seq<u64>, now: u64)
    requires
        delays.len() >= 2,
        player.playing,
        player.frame < delays.len(),
    ensures
        ({
            let resumed = player.toggled(Some(delays), now).toggled(Some(delays), now);
            &&& resumed.playing
            &&& resumed.frame == player.frame
            &&& resumed.due == Some(clock::later(now, delays[player.frame as int]))
        }),
{
}

/// An animation plays forwards and comes round: when the frame on screen has had its time, the
/// one behind it goes up, and behind the last the first. It stays for its own delay.
pub proof fn law_frames_play_in_order(player: Player, delays: Seq<u64>, now: u64)
    requires
        player.playing,
        !player.scrubbing,
        player.due matches Some(due) && due <= now,
        player.frame < delays.len() <= usize::MAX,
    ensures
        ({
            let beat = player.beat(Some(delays), now);
            let after = player.after_beat(beat, now);
            &&& player.frame + 1 < delays.len() ==> after.frame == player.frame + 1
            &&& player.frame + 1 == delays.len() ==> after.frame == 0
            &&& beat == Beat::Show(after.frame, delays[after.frame as int])
            &&& after.playing && !after.scrubbing
            &&& now + delays[after.frame as int] <= u64::MAX ==> after.due == Some(
                (now + delays[after.frame as int]) as u64,
            )
        }),
{
    reveal(Player::next);
    if player.frame + 1 < delays.len() {
        vstd::arithmetic::div_mod::lemma_small_mod(player.frame as nat + 1, delays.len());
    } else {
        vstd::arithmetic::div_mod::lemma_mod_self_0(delays.len() as int);
    }
}

/// A frame stays up until its time is over, and however long that is still.
pub proof fn law_a_frame_has_its_time(player: Player, delays: Option<Seq<u64>>, now: u64)
    requires
        player.playing,
        !player.scrubbing,
        player.due matches Some(due) && now < due,
    ensures
        player.beat(delays, now) matches Beat::Wait(wait) && now + wait == player.due->0,
        player.after_beat(player.beat(delays, now), now) == player,
{
}

/// Nothing moves on its own while playback is paused or the scrubber is held.
pub proof fn law_a_paused_animation_stands_still(player: Player, delays: Option<Seq<u64>>, now: u64)
    requires
        !player.playing || player.scrubbing,
    ensures
        player.beat(delays, now) is Still,
        player.after_beat(player.beat(delays, now), now) == player,
{
}

/// A decoded animation starts with its first frame up and moving, for as long as that frame
/// lasts. Anything else is parked.
pub proof fn law_an_animation_starts_at_its_first_frame(player: Player, delays: Seq<u64>, now: u64)
    requires
        delays.len() >= 1,
        now + delays[0] <= u64::MAX,
    ensures
        ({
            let opened = player.opened(Some(delays), now);
            &&& opened.frame == 0 && opened.playing
            &&& opened.due == Some((now + delays[0]) as u64)
        }),
        ({
            let parked = player.opened(None, now);
            parked.frame == 0 && !parked.playing && parked.due is None
        }),
{
}

/// The scrubber puts up the frame it is dragged to, or the last where it is dragged past it,
/// and nothing plays on from there by itself.
pub proof fn law_the_scrubber_picks_the_frame(
    player: Player,
    index: usize,
    delays: Seq<u64>,
    now: u64,
)
    requires
        1 <= delays.len() <= usize::MAX,
    ensures
        ({
            let dragged = player.acted(Action::Scrub(index), Some(delays), now);
            &&& index < delays.len() ==> dragged.frame == index
            &&& index >= delays.len() ==> dragged.frame == delays.len() - 1
            &&& !dragged.playing && dragged.due is None
        }),
{
}

/// The play button pauses what plays and plays what is paused, from the frame on screen,
/// where there are at least two frames.
pub proof fn law_the_play_button_switches(player: Player, delays: Seq<u64>, now: u64)
    requires
        delays.len() >= 2,
        player.frame < delays.len() <= usize::MAX,
        now + delays[player.frame as int] <= u64::MAX,
    ensures
        ({
            let after = player.acted(Action::TogglePlay, Some(delays), now);
            &&& after.playing == !player.playing
            &&& after.frame == player.frame
            &&& after.due == (if after.playing {
                Some((now + delays[player.frame as int]) as u64)
            } else {
                None
            })
        }),
{
}

/// While the scrubber is dragged nothing advances. Let go, the animation goes on if it was
/// playing when the drag began, and stays where it is if it was not.
pub proof fn law_a_drag_holds_playback(
    player: Player,
    delays: Seq<u64>,
    index: usize,
    now: u64,
    later: u64,
)
    requires
        delays.len() >= 2,
        player.frame < delays.len() <= usize::MAX,
        !player.scrubbing,
    ensures
        ({
            let held = player.acted(Action::ScrubStart, Some(delays), now);
            let moved = held.acted(Action::Scrub(index), Some(delays), now);
            let freed = moved.acted(Action::ScrubEnd, Some(delays), later);
            &&& held.scrubbing && moved.scrubbing && !held.playing && !moved.playing
            &&& held.frame == player.frame
            &&& held.beat(Some(delays), later) is Still && moved.beat(Some(delays), later) is Still
            &&& !freed.scrubbing && freed.frame == moved.frame
            &&& freed.playing == player.playing
            &&& freed.due is Some == player.playing
        }),
        ({
            let start = Player::parked();
            start.frame == 0 && !start.playing && start.due is None && !start.scrubbing
                && !start.resume
        }),
        player.scrubbing || !player.playing ==> player.beat(Some(delays), now) is Still,
        player.playing && !player.scrubbing && player.due is Some ==> !(player.beat(
            Some(delays),
            now,
        ) is Still),
{
}

} // verus!
