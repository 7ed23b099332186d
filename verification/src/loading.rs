//! Loading a file, fastest first: a stand-in, the whole image, and then its frames.

use vstd::prelude::*;

verus! {

/// What a decode thread does next.
#[derive(Debug, Clone, Copy, PartialEq, Eq, Structural)]
pub enum Load {
    /// Look for a stand-in: a thumbnail in the file, or one kept from before. Hand over what
    /// is found.
    StandIn,
    /// Decode the image as a still, and hand over what came of it.
    Still,
    /// Keep a thumbnail of the image for the next time.
    Thumbnail,
    /// Decode the image with its frames, and hand it over if it has any.
    Frames,
    Done,
}

/// What came of the last step.
#[derive(Debug, Clone, Copy, PartialEq, Eq, Structural)]
pub struct Came {
    /// Whether there was nobody left to hand it to.
    pub unwanted: bool,
    /// Whether the still could be decoded.
    pub decoded: bool,
}

impl Load {
    /// The next step. Nothing more is decoded once nobody waits for it, and a thumbnail is
    /// only kept of what could be decoded.
    pub open spec fn after(self, came: Came) -> Load {
        match self {
            Load::StandIn => if came.unwanted {
                Load::Done
            } else {
                Load::Still
            },
            Load::Still => if came.unwanted {
                Load::Done
            } else if came.decoded {
                Load::Thumbnail
            } else {
                Load::Frames
            },
            Load::Thumbnail => Load::Frames,
            Load::Frames => Load::Done,
            Load::Done => Load::Done,
        }
    }

    pub fn next(self, came: Came) -> (next: Load)
        ensures
            next == self.after(came),
    {
        match self {
            Load::StandIn => if came.unwanted {
                Load::Done
            } else {
                Load::Still
            },
            Load::Still => if came.unwanted {
                Load::Done
            } else if came.decoded {
                Load::Thumbnail
            } else {
                Load::Frames
            },
            Load::Thumbnail => Load::Frames,
            Load::Frames => Load::Done,
            Load::Done => Load::Done,
        }
    }

    /// How far along a load is.
    pub open spec fn rank(self) -> nat {
        match self {
            Load::StandIn => 0,
            Load::Still => 1,
            Load::Thumbnail => 2,
            Load::Frames => 3,
            Load::Done => 4,
        }
    }
}

/// A load always gets on, so it always ends: no step leads back.
pub proof fn law_a_load_ends(load: Load, came: Came)
    requires
        load !is Done,
    ensures
        load.after(came).rank() > load.rank(),
{
}

/// Once nobody waits for what is handed over, the load is over.
pub proof fn law_nobody_waits_for_nothing(load: Load, came: Came)
    requires
        came.unwanted,
        load is StandIn || load is Still,
    ensures
        load.after(came) is Done,
{
}

/// An image is loaded in its stages: first what can stand in for it, then the image itself, then
/// its frames. A thumbnail is kept of what could be decoded, and of nothing else.
pub proof fn law_a_load_goes_through_its_stages(came: Came)
    requires
        !came.unwanted,
    ensures
        Load::StandIn.after(came) == Load::Still,
        Load::Still.after(came) == Load::Thumbnail <==> came.decoded,
        Load::Still.after(came) == Load::Frames <==> !came.decoded,
        Load::Thumbnail.after(came) == Load::Frames,
        Load::Frames.after(came) == Load::Done,
        Load::Done.after(came) == Load::Done,
{
}

} // verus!
