//! The playback bar of an animated image: play, pause and a frame scrubber.

use vstd::prelude::*;
use crate::text;

verus! {

/// What the bar needs to know to draw itself.
#[derive(Debug, Clone, Copy, PartialEq, Eq)]
pub struct Playback {
    /// Frame on screen right now, counted from zero.
    pub frame: usize,
    pub count: usize,
    /// Whether frames are advancing on their own.
    pub playing: bool,
}

/// What was done to the bar.
#[derive(Debug, Clone, Copy, PartialEq, Eq)]
pub enum Action {
    TogglePlay,
    /// A drag of the slider began; playback holds while it lasts.
    ScrubStart,
    /// The slider moved to this frame.
    Scrub(usize),
    /// The drag ended.
    ScrubEnd,
}

/// What happened to the bar's widgets in one drawing of the window.
#[derive(Debug, Clone, Copy, PartialEq, Eq)]
pub struct Touched {
    pub button: bool,
    pub drag_started: bool,
    /// The slider moved to this frame.
    pub moved_to: Option<usize>,
    pub drag_stopped: bool,
}

impl Playback {
    /// A single frame has nothing to scrub and nothing to pause.
    pub fn is_worth_a_bar(self) -> (worth: bool)
        ensures
            worth == (self.count >= 2),
    {
        self.count >= 2
    }

    /// The place in the animation, as `12 / 48`.
    pub fn place(self) -> (place: String)
        requires
            self.frame < usize::MAX,
        ensures
            place@ == text::decimal((self.frame + 1) as nat) + " / "@ + text::decimal(
                self.count as nat,
            ),
    {
        let mut place = text::to_decimal((self.frame + 1) as u64);
        place.append(" / ");
        place.append(text::to_decimal(self.count as u64).as_str());
        place
    }

    /// What pressing the button does next.
    pub fn tooltip(self) -> (tooltip: &'static str)
        ensures
            tooltip@ == (if self.playing {
                "Pause (Space)"@
            } else {
                "Play (Space)"@
            }),
    {
        if self.playing {
            "Pause (Space)"
        } else {
            "Play (Space)"
        }
    }

    /// What the bar asks for: the end of a drag before a move, a move before the start of
    /// one, and any of them before the button.
    pub fn asked(self, touched: Touched) -> (action: Option<Action>)
        ensures
            action == (if self.count < 2 {
                None
            } else if touched.drag_stopped {
                Some(Action::ScrubEnd)
            } else if touched.moved_to is Some {
                Some(Action::Scrub(touched.moved_to->0))
            } else if touched.drag_started {
                Some(Action::ScrubStart)
            } else if touched.button {
                Some(Action::TogglePlay)
            } else {
                None
            }),
    {
        if self.count < 2 {
            None
        } else if touched.drag_stopped {
            Some(Action::ScrubEnd)
        } else if let Some(frame) = touched.moved_to {
            Some(Action::Scrub(frame))
        } else if touched.drag_started {
            Some(Action::ScrubStart)
        } else if touched.button {
            Some(Action::TogglePlay)
        } else {
            None
        }
    }
}

} // verus!
