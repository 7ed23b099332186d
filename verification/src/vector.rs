//! Keeping vector artwork sharp: which drawing of it to ask for next.
//!
//! Up to a ceiling the whole artwork is drawn larger. Past it only the part being looked
//! at is drawn, as a patch over the whole.

use vstd::prelude::*;

verus! {

/// Longest side of a drawing of the whole artwork.
pub const MAX_SIDE: u32 = 4096;

/// The drawings of the artwork on screen, and those under way.
#[derive(Debug, Clone, Copy, PartialEq, Eq, Structural)]
pub struct Zoom {
    /// Whether what is on screen is artwork at all.
    pub artwork: bool,
    /// Longest side of the drawing of the whole that is on screen.
    pub side: u32,
    /// Whether a drawing of the whole is under way.
    pub whole: bool,
    /// Whether a patch is under way.
    pub patch: bool,
    /// Whether a patch is on screen.
    pub tile: bool,
    /// Whether a drawing failed, which ends the asking until another file arrives.
    pub stalled: bool,
    /// Longest side of the largest drawing of the whole that was asked for.
    pub asked: u32,
}

/// How large the whole artwork appears on screen.
#[derive(Debug, Clone, Copy, PartialEq, Eq, Structural)]
pub struct Wanted {
    /// Longest side of the drawing to ask for: somewhat more than appears, up to the
    /// ceiling.
    pub target: u32,
    /// Whether a drawing of the whole can still be as large as what appears.
    pub reaches: bool,
    /// Whether the drawing on screen is at least as large as what appears.
    pub covered: bool,
    /// Whether what appears has outgrown the drawing on screen by enough to matter.
    pub outgrown: bool,
}

/// What there is to know about a patch for the present view.
#[derive(Debug, Clone, Copy, PartialEq, Eq, Structural)]
pub struct Glance {
    /// Whether the view is the same as it was the last time.
    pub steady: bool,
    /// Whether any of the artwork is visible, and worth at least a pixel.
    pub visible: bool,
    /// Whether the patch on screen is sharp and wide enough for what is visible.
    pub fresh: bool,
}

/// A drawing to start.
#[derive(Debug, Clone, Copy, PartialEq, Eq, Structural)]
pub enum Drawing {
    Nothing,
    /// The whole artwork, with this longest side.
    Whole(u32),
    /// The part being looked at.
    Patch,
}

impl Zoom {
    pub open spec fn idle() -> Zoom {
        Zoom {
            artwork: false,
            side: 0,
            whole: false,
            patch: false,
            tile: false,
            stalled: false,
            asked: 0,
        }
    }

    pub open spec fn adopted(artwork: bool, side: u32) -> Zoom {
        Zoom {
            artwork,
            side: if artwork {
                side
            } else {
                0
            },
            ..Zoom::idle()
        }
    }

    pub open spec fn rested(self) -> Zoom {
        Zoom { artwork: self.artwork, ..Zoom::idle() }
    }

    /// Whether a larger drawing of the whole is due, and was not asked for before.
    pub open spec fn wants_whole(self, wanted: Wanted) -> bool {
        &&& !self.whole
        &&& wanted.outgrown
        &&& wanted.target > self.side
        &&& wanted.target > self.asked
    }

    /// Whether a patch is to be started. One under a view that still moves would be stale
    /// before it landed, unless there is none at all yet.
    pub open spec fn wants_patch(self, glance: Glance) -> bool {
        &&& glance.visible
        &&& glance.steady || !self.tile
        &&& !(self.tile && glance.fresh)
    }

    pub open spec fn whole_or_nothing(self, wanted: Wanted) -> Drawing {
        if self.wants_whole(wanted) {
            Drawing::Whole(wanted.target)
        } else {
            Drawing::Nothing
        }
    }

    /// The drawing to start for a view.
    pub open spec fn decision(self, wanted: Wanted, glance: Glance) -> Drawing {
        if !self.artwork || self.stalled {
            Drawing::Nothing
        } else if wanted.reaches {
            self.whole_or_nothing(wanted)
        } else if self.patch {
            Drawing::Nothing
        } else if self.wants_patch(glance) {
            Drawing::Patch
        } else {
            self.whole_or_nothing(wanted)
        }
    }

    pub open spec fn begun(self, render: Drawing) -> Zoom {
        match render {
            Drawing::Nothing => self,
            Drawing::Whole(target) => Zoom { whole: true, asked: target, ..self },
            Drawing::Patch => Zoom { patch: true, ..self },
        }
    }

    /// Once the whole is large enough again, the patch over it goes.
    pub open spec fn uncovered(self, wanted: Wanted) -> Zoom {
        if self.artwork && !self.stalled && wanted.reaches && wanted.covered {
            Zoom { tile: false, ..self }
        } else {
            self
        }
    }

    pub fn new() -> (zoom: Zoom)
        ensures
            zoom == Zoom::idle(),
    {
        Zoom {
            artwork: false,
            side: 0,
            whole: false,
            patch: false,
            tile: false,
            stalled: false,
            asked: 0,
        }
    }

    /// Forgets everything: a different file is coming.
    pub fn clear(&mut self)
        ensures
            *final(self) == Zoom::idle(),
    {
        *self = Zoom::new();
    }

    /// Takes on what was just decoded, with the longest side of the drawing that came
    /// with it.
    pub fn adopt(&mut self, artwork: bool, side: u32)
        ensures
            *final(self) == Zoom::adopted(artwork, side),
    {
        self.clear();
        self.side = if artwork {
            side
        } else {
            0
        };
        self.artwork = artwork;
    }

    /// Stands down without forgetting the artwork, while what is on screen is not a
    /// drawing of it. A drawing that failed gets another chance afterwards.
    pub fn rest(&mut self)
        ensures
            *final(self) == old(self).rested(),
    {
        let artwork = self.artwork;
        self.clear();
        self.artwork = artwork;
    }

    /// A drawing of the whole has arrived, and this much of it reached the screen.
    pub fn whole_arrived(&mut self, side: u32)
        ensures
            *final(self) == (Zoom { side, whole: false, ..*old(self) }),
    {
        self.side = side;
        self.whole = false;
    }

    /// No drawing of the whole will arrive.
    pub fn whole_lost(&mut self, failed: bool)
        ensures
            *final(self) == (Zoom { whole: false, stalled: old(self).stalled || failed, ..*old(self) }),
    {
        self.whole = false;
        self.stalled = self.stalled || failed;
    }

    pub fn patch_arrived(&mut self)
        ensures
            *final(self) == (Zoom { patch: false, tile: true, ..*old(self) }),
    {
        self.patch = false;
        self.tile = true;
    }

    /// No patch will arrive.
    pub fn patch_lost(&mut self, failed: bool)
        ensures
            *final(self) == (Zoom { patch: false, stalled: old(self).stalled || failed, ..*old(self) }),
    {
        self.patch = false;
        self.stalled = self.stalled || failed;
    }

    /// Whether anything is under way.
    pub fn is_drawing(&self) -> (drawing: bool)
        ensures
            drawing == (self.whole || self.patch),
    {
        self.whole || self.patch
    }

    fn start_whole(&mut self, wanted: Wanted) -> (render: Drawing)
        ensures
            render == old(self).whole_or_nothing(wanted),
            *final(self) == old(self).begun(render),
    {
        if self.whole || !wanted.outgrown || wanted.target <= self.side {
            return Drawing::Nothing;
        }
        if wanted.target <= self.asked {
            return Drawing::Nothing;
        }
        self.asked = wanted.target;
        self.whole = true;
        Drawing::Whole(wanted.target)
    }

    /// Decides which drawing to start for a view, once those that finished were taken in.
    pub fn look(&mut self, wanted: Wanted, glance: Glance) -> (render: Drawing)
        ensures
            render == old(self).uncovered(wanted).decision(wanted, glance),
            *final(self) == old(self).uncovered(wanted).begun(render),
    {
        if !self.artwork || self.stalled {
            return Drawing::Nothing;
        }
        if wanted.reaches {
            if wanted.covered {
                self.tile = false;
            }
            return self.start_whole(wanted);
        }
        if self.patch {
            return Drawing::Nothing;
        }
        if glance.visible && (glance.steady || !self.tile) && !(self.tile && glance.fresh) {
            self.patch = true;
            return Drawing::Patch;
        }
        self.start_whole(wanted)
    }

    /// A patch could not be started after all: the whole is the next best thing.
    pub fn patch_refused(&mut self, wanted: Wanted) -> (render: Drawing)
        ensures
            render == (Zoom { patch: false, ..*old(self) }).whole_or_nothing(wanted),
            *final(self) == (Zoom { patch: false, ..*old(self) }).begun(render),
    {
        self.patch = false;
        self.start_whole(wanted)
    }
}

/// A drawing of the whole is not asked for again, however small it came out on screen:
/// only a larger one is.
pub proof fn law_the_same_drawing_is_not_asked_for_again(
    zoom: Zoom,
    wanted: Wanted,
    glance: Glance,
    side: u32,
    again: Wanted,
    then: Glance,
)
    requires
        zoom.decision(wanted, glance) is Whole,
        again.target <= wanted.target,
    ensures
        ({
            let asked = zoom.begun(zoom.decision(wanted, glance));
            let arrived = Zoom { side, whole: false, ..asked };
            &&& asked.decision(again, then) !is Whole
            &&& arrived.decision(again, then) !is Whole
        }),
{
}

/// A view that still moves gets its first patch, and no other until it rests.
pub proof fn law_a_moving_view_waits(zoom: Zoom, wanted: Wanted, glance: Glance)
    requires
        zoom.artwork,
        !zoom.stalled,
        !zoom.patch,
        !wanted.reaches,
        glance.visible,
        !glance.steady,
    ensures
        zoom.decision(wanted, glance) is Patch <==> !zoom.tile,
{
}

/// A drawing that failed is the last until another file arrives or an edit is over.
pub proof fn law_a_failure_ends_the_asking(zoom: Zoom, wanted: Wanted, glance: Glance)
    requires
        zoom.stalled,
    ensures
        zoom.decision(wanted, glance) is Nothing,
        zoom.begun(zoom.decision(wanted, glance)) == zoom,
        !zoom.rested().stalled,
        !Zoom::adopted(true, zoom.side).stalled,
{
}

/// What is not artwork is never drawn again.
pub proof fn law_only_artwork_is_drawn_again(side: u32, wanted: Wanted, glance: Glance)
    ensures
        Zoom::adopted(false, side).decision(wanted, glance) is Nothing,
{
}

/// Artwork that has outgrown its drawing is drawn anew, as large as is wanted, while a drawing of
/// the whole can be large enough. Past that, the part in view is drawn.
pub proof fn law_artwork_that_is_outgrown_is_drawn_anew(
    zoom: Zoom,
    wanted: Wanted,
    glance: Glance,
)
    requires
        zoom.artwork,
        !zoom.stalled,
        !zoom.whole,
        !zoom.patch,
        wanted.outgrown,
        wanted.target > zoom.side,
        wanted.target > zoom.asked,
    ensures
        wanted.reaches ==> zoom.decision(wanted, glance) == Drawing::Whole(wanted.target),
        !wanted.reaches && glance.visible && !zoom.tile ==> zoom.decision(wanted, glance) is Patch,
        !wanted.reaches && glance.visible && glance.steady && !glance.fresh ==> zoom.decision(
            wanted,
            glance,
        ) is Patch,
        !wanted.reaches && !glance.visible ==> zoom.decision(wanted, glance) == Drawing::Whole(
            wanted.target,
        ),
{
}

/// What is sharp enough is left alone, and so is what is on its way.
pub proof fn law_nothing_is_drawn_without_need(zoom: Zoom, wanted: Wanted, glance: Glance)
    ensures
        wanted.reaches && !wanted.outgrown ==> zoom.decision(wanted, glance) is Nothing,
        wanted.reaches && zoom.whole ==> zoom.decision(wanted, glance) is Nothing,
        !wanted.reaches && zoom.patch ==> zoom.decision(wanted, glance) is Nothing,
        zoom.tile && glance.fresh ==> !(zoom.decision(wanted, glance) is Patch),
        zoom.decision(wanted, glance) matches Drawing::Whole(side) ==> side == wanted.target && side
            > zoom.side,
        zoom.decision(wanted, glance) is Whole ==> zoom.begun(zoom.decision(wanted, glance)).whole,
        zoom.decision(wanted, glance) is Patch ==> zoom.begun(zoom.decision(wanted, glance)).patch,
{
}

/// A patch is taken off once the whole is as sharp as it, and stays on until then.
pub proof fn law_a_patch_stays_until_the_whole_is_as_sharp(zoom: Zoom, wanted: Wanted)
    requires
        zoom.artwork,
        !zoom.stalled,
    ensures
        wanted.reaches && wanted.covered ==> !zoom.uncovered(wanted).tile,
        !(wanted.reaches && wanted.covered) ==> zoom.uncovered(wanted) == zoom,
        zoom.uncovered(wanted).side == zoom.side && zoom.uncovered(wanted).whole == zoom.whole,
        Zoom::adopted(true, zoom.side).side == zoom.side && Zoom::adopted(true, zoom.side).artwork,
        Zoom::adopted(false, zoom.side).side == 0 && !Zoom::adopted(false, zoom.side).artwork,
        zoom.rested().artwork && !zoom.rested().tile && zoom.rested().side == 0,
{
}

/// At first there is no artwork, nothing drawn and nothing under way.
pub proof fn law_nothing_is_drawn_at_first(wanted: Wanted, glance: Glance)
    ensures
        ({
            let zoom = Zoom::idle();
            &&& !zoom.artwork && !zoom.whole && !zoom.patch && !zoom.tile && !zoom.stalled
            &&& zoom.side == 0 && zoom.asked == 0
            &&& zoom.decision(wanted, glance) is Nothing
        }),
{
}

} // verus!
