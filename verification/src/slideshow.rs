//! The slideshow: stepping through a folder on a timer, until something deliberate
//! happens.

use vstd::prelude::*;
use crate::clock;

verus! {

/// When the slideshow moves on. Nothing when it is not running.
#[derive(Debug, Clone, Copy, PartialEq, Eq)]
pub struct Slideshow {
    pub due: Option<u64>,
}

/// What the slideshow asks for now.
#[derive(Debug, Clone, Copy, PartialEq, Eq)]
pub enum Turn {
    Idle,
    /// The image on screen has this much longer.
    Wait(u64),
    /// Step to the next image.
    Next,
}

/// What reached the window, as far as it matters to a slideshow.
#[derive(Debug, Clone, Copy, PartialEq, Eq)]
pub enum Event {
    /// A key went down.
    Pressed {
        /// Whether it was the key that toggles the slideshow.
        space: bool,
    },
    /// Ctrl+C, which never arrives as a key.
    Copy,
    /// Ctrl+V, the same.
    Paste,
    /// The pointer moved, a key came up, and whatever else there is.
    Other,
}

/// How long an image is held, in milliseconds.
pub open spec fn hold(seconds: u32) -> u64 {
    (seconds * 1000) as u64
}

/// Whether an event is something deliberate.
pub open spec fn is_deliberate(event: Event) -> bool {
    match event {
        Event::Pressed { space } => !space,
        Event::Copy => true,
        Event::Paste => true,
        Event::Other => false,
    }
}

/// Whether what reached the window stops a slideshow. Moving the pointer does not.
pub open spec fn interrupts(scrolled: bool, events: Seq<Event>) -> bool {
    scrolled || exists|i: int| 0 <= i < events.len() && is_deliberate(#[trigger] events[i])
}

impl Slideshow {
    pub open spec fn stopped() -> Slideshow {
        Slideshow { due: None }
    }

    pub open spec fn running(seconds: u32, now: u64) -> Slideshow {
        Slideshow { due: Some(clock::later(now, hold(seconds))) }
    }

    pub open spec fn toggled(self, seconds: u32, now: u64) -> Slideshow {
        match self.due {
            Some(_) => Slideshow::stopped(),
            None => Slideshow::running(seconds, now),
        }
    }

    pub open spec fn turn(self, now: u64) -> Turn {
        match self.due {
            Some(due) => if now < due {
                Turn::Wait((due - now) as u64)
            } else {
                Turn::Next
            },
            None => Turn::Idle,
        }
    }

    pub open spec fn after_turn(self, turn: Turn, seconds: u32, now: u64) -> Slideshow {
        if turn is Next {
            Slideshow::running(seconds, now)
        } else {
            self
        }
    }

    pub fn new() -> (slideshow: Slideshow)
        ensures
            slideshow == Slideshow::stopped(),
    {
        Slideshow { due: None }
    }

    pub fn is_running(&self) -> (running: bool)
        ensures
            running == (self.due is Some),
    {
        self.due.is_some()
    }

    pub fn toggle(&mut self, seconds: u32, now: u64)
        ensures
            *final(self) == old(self).toggled(seconds, now),
    {
        self.due = match self.due {
            Some(_) => None,
            None => Some(clock::after(now, seconds as u64 * 1000)),
        };
    }

    /// Moves on when the time is up, and starts the next hold.
    pub fn tick(&mut self, seconds: u32, now: u64) -> (turn: Turn)
        ensures
            turn == old(self).turn(now),
            *final(self) == old(self).after_turn(turn, seconds, now),
    {
        match self.due {
            Some(due) => {
                if now < due {
                    return Turn::Wait(due - now);
                }
                self.due = Some(clock::after(now, seconds as u64 * 1000));
                Turn::Next
            },
            None => Turn::Idle,
        }
    }

    /// Stops the moment something deliberate happens. The key that toggles the slideshow
    /// does not count, or it would stop here what it starts again a moment later.
    pub fn interrupt(&mut self, scrolled: bool, events: &Vec<Event>)
        ensures
            *final(self) == (if interrupts(scrolled, events@) {
                Slideshow::stopped()
            } else {
                *old(self)
            }),
    {
        let mut deliberate = scrolled;
        let mut i: usize = 0;
        while i < events.len()
            invariant
                i <= events@.len(),
                *self == *old(self),
                deliberate == interrupts(scrolled, events@.take(i as int)),
            decreases events@.len() - i,
        {
            let event = events[i];
            let counts = match event {
                Event::Pressed { space } => !space,
                Event::Copy => true,
                Event::Paste => true,
                Event::Other => false,
            };
            proof {
                let before = events@.take(i as int);
                let now = events@.take(i + 1);
                assert(now == before.push(event));
                if counts {
                    assert(is_deliberate(now[i as int]));
                }
                if interrupts(false, before) {
                    let k = choose|k: int| 0 <= k < before.len() && is_deliberate(#[trigger] before[k]);
                    assert(is_deliberate(now[k]));
                }
                if interrupts(false, now) {
                    let k = choose|k: int| 0 <= k < now.len() && is_deliberate(#[trigger] now[k]);
                    if k < i {
                        assert(is_deliberate(before[k]));
                    }
                }
            }
            deliberate = deliberate || counts;
            i += 1;
        }
        assert(events@.take(i as int) =~= events@);
        if deliberate {
            self.due = None;
        }
    }
}

/// A slideshow that runs holds each image for the whole time before it moves on, and
/// moves on as soon as that is over.
pub proof fn law_each_image_is_held_its_time(
    slideshow: Slideshow,
    seconds: u32,
    began: u64,
    now: u64,
)
    requires
        slideshow.due is Some,
        slideshow.turn(began) is Next,
        began + hold(seconds) <= u64::MAX,
        began <= now,
    ensures
        ({
            let held = slideshow.after_turn(Turn::Next, seconds, began);
            held.turn(now) is Next <==> now - began >= seconds * 1000
        }),
{
}

/// An image is held for its seconds: nothing happens before, and when they are over the next
/// comes, and is held as long.
pub proof fn law_a_slide_gives_way_when_its_time_is_up(
    show: Slideshow,
    seconds: u32,
    now: u64,
)
    ensures
        show.due is None ==> show.turn(now) is Idle,
        show.due matches Some(due) ==> if now < due {
            show.turn(now) == Turn::Wait((due - now) as u64) && show.after_turn(
                show.turn(now),
                seconds,
                now,
            ) == show
        } else {
            show.turn(now) is Next
        },
        now + 1000 * seconds <= u64::MAX ==> show.after_turn(Turn::Next, seconds, now).due == Some(
            (now + 1000 * seconds) as u64,
        ),
{
}

/// Toggling starts a show that is stopped, with a full hold, and stops one that runs.
pub proof fn law_toggling_starts_and_stops(show: Slideshow, seconds: u32, now: u64)
    requires
        now + 1000 * seconds <= u64::MAX,
    ensures
        show.due is Some ==> show.toggled(seconds, now).due is None,
        show.due is None ==> show.toggled(seconds, now).due == Some(
            (now + 1000 * seconds) as u64,
        ),
{
}

/// A show stops for anything done on purpose: scrolling, copying, pasting, any key but the one
/// that toggles it. Moving the pointer and letting go of a key do not stop it.
pub proof fn law_only_what_is_meant_stops_a_show(events: Seq<Event>, i: int)
    ensures
        interrupts(true, events),
        0 <= i < events.len() && events[i] == (Event::Pressed { space: false }) ==> interrupts(
            false,
            events,
        ),
        0 <= i < events.len() && (events[i] is Copy || events[i] is Paste) ==> interrupts(
            false,
            events,
        ),
        (forall|k: int|
            0 <= k < events.len() ==> (#[trigger] events[k]) is Other || events[k] == (
            Event::Pressed { space: true })) ==> !interrupts(false, events),
{
    if 0 <= i < events.len() {
        assert(is_deliberate(events[i]) || !is_deliberate(events[i]));
    }
}

} // verus!
