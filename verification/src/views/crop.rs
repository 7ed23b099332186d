//! Choosing a crop rectangle: the ratios on offer, and what counts as a rectangle.

use vstd::prelude::*;

verus! {

/// Shortest side of a usable selection, in image pixels.
pub const MIN_SIZE: u32 = 8;

/// Ratio the selection is locked to.
#[derive(Debug, Clone, Copy, PartialEq, Eq, Structural)]
pub enum Aspect {
    Free,
    Square,
    FourThree,
    ThreeTwo,
    SixteenNine,
}

impl Default for Aspect {
    fn default() -> (aspect: Self)
        ensures
            aspect == Aspect::Free,
    {
        Aspect::Free
    }
}

impl Aspect {
    pub fn all() -> (all: [Aspect; 5])
        ensures
            all@ == seq![
                Aspect::Free,
                Aspect::Square,
                Aspect::FourThree,
                Aspect::ThreeTwo,
                Aspect::SixteenNine,
            ],
    {
        [Aspect::Free, Aspect::Square, Aspect::FourThree, Aspect::ThreeTwo, Aspect::SixteenNine]
    }

    /// Width and height in the smallest whole numbers, or nothing when the selection is
    /// unconstrained.
    pub open spec fn parts(self) -> Option<(u32, u32)> {
        match self {
            Aspect::Free => None,
            Aspect::Square => Some((1, 1)),
            Aspect::FourThree => Some((4, 3)),
            Aspect::ThreeTwo => Some((3, 2)),
            Aspect::SixteenNine => Some((16, 9)),
        }
    }

    pub fn label(self) -> (label: &'static str)
        ensures
            label@ == (match self {
                Aspect::Free => "Free"@,
                Aspect::Square => "1:1"@,
                Aspect::FourThree => "4:3"@,
                Aspect::ThreeTwo => "3:2"@,
                Aspect::SixteenNine => "16:9"@,
            }),
    {
        match self {
            Aspect::Free => "Free",
            Aspect::Square => "1:1",
            Aspect::FourThree => "4:3",
            Aspect::ThreeTwo => "3:2",
            Aspect::SixteenNine => "16:9",
        }
    }

    /// The ratio of width to height, as two numbers.
    pub fn ratio(self) -> (parts: Option<(u32, u32)>)
        ensures
            parts == self.parts(),
    {
        match self {
            Aspect::Free => None,
            Aspect::Square => Some((1, 1)),
            Aspect::FourThree => Some((4, 3)),
            Aspect::ThreeTwo => Some((3, 2)),
            Aspect::SixteenNine => Some((16, 9)),
        }
    }
}

/// A selection in whole pixels.
#[derive(Debug, Clone, Copy, PartialEq, Eq, Structural)]
pub struct Selection {
    pub x: u32,
    pub y: u32,
    pub width: u32,
    pub height: u32,
}

impl Selection {
    /// Whether both sides are long enough to be meant.
    pub open spec fn is_meant(self) -> bool {
        self.width >= MIN_SIZE && self.height >= MIN_SIZE
    }

    /// The selection, if it is big enough to be one. A stray click is not.
    pub fn rectangle(self) -> (rectangle: Option<Selection>)
        ensures
            rectangle == (if self.is_meant() {
                Some(self)
            } else {
                None
            }),
    {
        if self.width >= MIN_SIZE && self.height >= MIN_SIZE {
            Some(self)
        } else {
            None
        }
    }
}

/// A ratio is what its label says, the wider side first.
pub proof fn law_a_ratio_is_wider_than_tall(aspect: Aspect)
    ensures
        aspect.parts() is None <==> aspect is Free,
        aspect.parts() matches Some((wide, tall)) ==> {
            &&& wide >= tall >= 1
            &&& aspect is Square ==> wide == tall
            &&& aspect is FourThree ==> 3 * wide == 4 * tall
            &&& aspect is ThreeTwo ==> 2 * wide == 3 * tall
            &&& aspect is SixteenNine ==> 9 * wide == 16 * tall
        },
{
}

/// A rectangle is meant if it is at least eight pixels either way. A slip of the hand is not.
pub proof fn law_a_slip_is_no_selection(selection: Selection)
    ensures
        selection.is_meant() <==> selection.width >= 8 && selection.height >= 8,
{
}

} // verus!
