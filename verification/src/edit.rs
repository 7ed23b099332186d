//! The non-destructive edit pipeline.
//!
//! Edits are an ordered list of operations, not mutable fields on the image. That is
//! what makes undo a matter of dropping the last entry rather than of keeping copies of
//! pixels around, and it is why the preview and the exported file cannot disagree: both
//! run this same list over the same decoded pixels.

use vstd::prelude::*;
use crate::adjust::Adjust;
use crate::imageops;
use crate::raster;
use crate::raster::Picture;
use crate::raster::Raster;
use crate::raster::Rgba;

verus! {

/// One step in the pipeline.
#[derive(Debug, Clone, Copy, PartialEq, Eq, Structural)]
pub enum Op {
    /// Mirror the pixels left-to-right, in place.
    FlipHorizontal,
    /// Mirror the pixels top-to-bottom, in place.
    FlipVertical,
    /// A quarter turn clockwise.
    RotateCw,
    /// A quarter turn anticlockwise.
    RotateCcw,
    /// Place the image beside its own reflection, doubling the width.
    MirrorHorizontal,
    /// Place the image above its own reflection, doubling the height.
    MirrorVertical,
    /// Keep a rectangle of the image and discard the rest.
    ///
    /// In pixels of the image as the pipeline reaches this step, not of the file on
    /// disk: a crop after a rotate is measured against the rotated image.
    Crop { x: u32, y: u32, width: u32, height: u32 },
    /// Brightness, contrast and saturation, as absolute settings.
    ///
    /// Absolute, not a delta, because that is what a slider reports, so two of these in
    /// a row do not compose: [`Edits::apply`] runs only the last one.
    Adjust(Adjust),
}

/// The smaller of two numbers.
pub open spec fn least(a: int, b: int) -> int {
    if a <= b {
        a
    } else {
        b
    }
}

/// A crop rectangle trimmed to what exists in an image of the given size.
pub open spec fn trimmed(
    x: int,
    y: int,
    width: int,
    height: int,
    size: (int, int),
) -> (int, int, int, int) {
    let left = least(x, size.0);
    let top = least(y, size.1);
    (left, top, least(width, size.0 - left), least(height, size.1 - top))
}

impl Op {
    /// Whether this is a colour adjustment.
    pub open spec fn is_adjust(self) -> bool {
        self is Adjust
    }

    /// What this step makes of a picture. A crop that keeps nothing leaves it alone.
    pub open spec fn of(self, p: Picture) -> Picture {
        match self {
            Op::FlipHorizontal => p.flipped_horizontally(),
            Op::FlipVertical => p.flipped_vertically(),
            Op::RotateCw => p.turned_clockwise(),
            Op::RotateCcw => p.turned_anticlockwise(),
            Op::MirrorHorizontal => Picture::drawn(
                2 * p.width,
                p.height,
                |x: int, y: int|
                    if x < p.width {
                        p.at(x, y)
                    } else {
                        p.at(2 * p.width - 1 - x, y)
                    },
            ),
            Op::MirrorVertical => Picture::drawn(
                p.width,
                2 * p.height,
                |x: int, y: int|
                    if y < p.height {
                        p.at(x, y)
                    } else {
                        p.at(x, 2 * p.height - 1 - y)
                    },
            ),
            Op::Crop { x, y, width, height } => {
                let kept = trimmed(
                    x as int,
                    y as int,
                    width as int,
                    height as int,
                    (p.width as int, p.height as int),
                );
                if kept.2 == 0 || kept.3 == 0 {
                    p
                } else {
                    p.cropped(kept.0 as nat, kept.1 as nat, kept.2 as nat, kept.3 as nat)
                }
            },
            Op::Adjust(adjust) => adjust.of(p),
        }
    }

    /// The size of what this step makes of an image of the given size. A crop that keeps
    /// nothing leaves it alone.
    pub open spec fn produces(self, size: (int, int)) -> (int, int) {
        match self {
            Op::FlipHorizontal | Op::FlipVertical | Op::Adjust(_) => size,
            Op::RotateCw | Op::RotateCcw => (size.1, size.0),
            Op::MirrorHorizontal => (2 * size.0, size.1),
            Op::MirrorVertical => (size.0, 2 * size.1),
            Op::Crop { x, y, width, height } => {
                let kept = trimmed(x as int, y as int, width as int, height as int, size);
                if kept.2 == 0 || kept.3 == 0 {
                    size
                } else {
                    (kept.2, kept.3)
                }
            },
        }
    }

    /// The size this step produces, with no side doubled past what can be counted.
    pub open spec fn resized(self, size: (int, int)) -> (int, int) {
        let after = self.produces(size);
        match self {
            Op::MirrorHorizontal => (least(after.0, u32::MAX as int), after.1),
            Op::MirrorVertical => (after.0, least(after.1, u32::MAX as int)),
            _ => after,
        }
    }

    /// Whether a machine can hold what this step makes of an image of the given size.
    pub open spec fn fits(self, size: (int, int)) -> bool {
        match self {
            Op::MirrorHorizontal => 2 * size.0 <= u32::MAX && raster::addressable(
                2 * size.0,
                size.1,
            ),
            Op::MirrorVertical => 2 * size.1 <= u32::MAX && raster::addressable(
                size.0,
                2 * size.1,
            ),
            _ => true,
        }
    }

    /// Whether applying this op changes the image's dimensions, so that the canvas has
    /// to be fitted again.
    pub fn changes_size(self) -> (changes: bool)
        ensures
            changes == !(self is FlipHorizontal || self is FlipVertical || self is Adjust),
    {
        match self {
            Op::FlipHorizontal | Op::FlipVertical | Op::Adjust(_) => false,
            _ => true,
        }
    }

    /// Dimensions this op produces from `size`, which a crop outside the image leaves alone.
    pub fn size_after(self, size: (u32, u32)) -> (after: (u32, u32))
        ensures
            (after.0 as int, after.1 as int) == self.resized((size.0 as int, size.1 as int)),
    {
        match self {
            Op::FlipHorizontal | Op::FlipVertical | Op::Adjust(_) => size,
            Op::RotateCw | Op::RotateCcw => (size.1, size.0),
            Op::MirrorHorizontal => (doubled(size.0), size.1),
            Op::MirrorVertical => (size.0, doubled(size.1)),
            Op::Crop { x, y, width, height } => {
                let (_, _, kept_width, kept_height) = clamped_crop(x, y, width, height, size);
                if kept_width == 0 || kept_height == 0 {
                    size
                } else {
                    (kept_width, kept_height)
                }
            },
        }
    }

    /// Runs this step over `src`.
    pub fn apply(self, src: &Raster) -> (out: Raster)
        requires
            src.wf(),
            self.fits((src.width as int, src.height as int)),
        ensures
            out.wf(),
            out@ == self.of(src@),
    {
        match self {
            Op::FlipHorizontal => imageops::flip_horizontal(src),
            Op::FlipVertical => imageops::flip_vertical(src),
            Op::RotateCw => imageops::rotate90(src),
            Op::RotateCcw => imageops::rotate270(src),
            Op::MirrorHorizontal => mirror(src, false),
            Op::MirrorVertical => mirror(src, true),
            Op::Crop { x, y, width, height } => {
                let (left, top, kept_width, kept_height) = clamped_crop(
                    x,
                    y,
                    width,
                    height,
                    src.dimensions(),
                );
                if kept_width == 0 || kept_height == 0 {
                    // Nothing left to keep. Handing back the original beats handing back
                    // an image with a zero dimension, which nothing downstream is
                    // prepared for.
                    return src.clone();
                }
                imageops::crop(src, left, top, kept_width, kept_height)
            },
            Op::Adjust(adjust) => {
                let mut out = src.clone();
                adjust.apply(&mut out);
                out
            },
        }
    }
}

/// Twice `side`, or as much of it as fits.
fn doubled(side: u32) -> (twice: u32)
    ensures
        twice == least(2 * side, u32::MAX as int),
{
    if side > u32::MAX / 2 {
        u32::MAX
    } else {
        side * 2
    }
}

/// A crop rectangle trimmed to what actually exists in an image of `size`.
///
/// The rectangle is stored as the user drew it, but the image under it can change
/// afterwards, by undoing the rotate that came before it, say. Rather than invalidating
/// the crop, it is clamped.
pub fn clamped_crop(x: u32, y: u32, width: u32, height: u32, size: (u32, u32)) -> (kept: (
    u32,
    u32,
    u32,
    u32,
))
    ensures
        (kept.0 as int, kept.1 as int, kept.2 as int, kept.3 as int) == trimmed(
            x as int,
            y as int,
            width as int,
            height as int,
            (size.0 as int, size.1 as int),
        ),
        kept.0 + kept.2 <= size.0,
        kept.1 + kept.3 <= size.1,
{
    let left = if x < size.0 {
        x
    } else {
        size.0
    };
    let top = if y < size.1 {
        y
    } else {
        size.1
    };
    let kept_width = if width < size.0 - left {
        width
    } else {
        size.0 - left
    };
    let kept_height = if height < size.1 - top {
        height
    } else {
        size.1 - top
    };
    (left, top, kept_width, kept_height)
}

/// The image beside (or above) its own reflection.
fn mirror(src: &Raster, vertical: bool) -> (out: Raster)
    requires
        src.wf(),
        vertical ==> Op::MirrorVertical.fits((src.width as int, src.height as int)),
        !vertical ==> Op::MirrorHorizontal.fits((src.width as int, src.height as int)),
    ensures
        out.wf(),
        vertical ==> out@ == Op::MirrorVertical.of(src@),
        !vertical ==> out@ == Op::MirrorHorizontal.of(src@),
{
    let (width, height) = src.dimensions();
    if vertical {
        let mut out = Raster::new(width, height * 2);
        imageops::replace(&mut out, src, 0, 0);
        let reflection = imageops::flip_vertical(src);
        imageops::replace(&mut out, &reflection, 0, height);
        proof {
            raster::lemma_same(out@, Op::MirrorVertical.of(src@));
        }
        out
    } else {
        let mut out = Raster::new(width * 2, height);
        imageops::replace(&mut out, src, 0, 0);
        let reflection = imageops::flip_horizontal(src);
        imageops::replace(&mut out, &reflection, width, 0);
        proof {
            raster::lemma_same(out@, Op::MirrorHorizontal.of(src@));
        }
        out
    }
}

/// The pixels a pipeline leaves: the base itself where there was nothing to do.
#[derive(Debug)]
pub enum Applied<'a> {
    Borrowed(&'a Raster),
    Owned(Raster),
}

impl<'a> Applied<'a> {
    /// The picture, whichever way it is held.
    pub open spec fn picture(&self) -> Picture {
        match self {
            Applied::Borrowed(raster) => raster@,
            Applied::Owned(raster) => raster@,
        }
    }

    pub open spec fn wf(&self) -> bool {
        match self {
            Applied::Borrowed(raster) => raster.wf(),
            Applied::Owned(raster) => raster.wf(),
        }
    }

    pub fn as_raster(&self) -> (raster: &Raster)
        requires
            self.wf(),
        ensures
            raster.wf(),
            raster@ == self.picture(),
            *raster == (match self {
                Applied::Borrowed(held) => **held,
                Applied::Owned(held) => *held,
            }),
    {
        match self {
            Applied::Borrowed(raster) => raster,
            Applied::Owned(raster) => raster,
        }
    }

    /// The pixels themselves, copied only if they were borrowed.
    pub fn into_owned(self) -> (raster: Raster)
        requires
            self.wf(),
        ensures
            raster.wf(),
            raster@ == self.picture(),
    {
        match self {
            Applied::Borrowed(raster) => raster.clone(),
            Applied::Owned(raster) => raster,
        }
    }
}

/// A list of steps run over a picture, first to last.
pub open spec fn run_over(ops: Seq<Op>, p: Picture) -> Picture
    decreases ops.len(),
{
    if ops.len() == 0 {
        p
    } else {
        ops.last().of(run_over(ops.drop_last(), p))
    }
}

/// The size a list of steps produces, with no side doubled past what can be counted.
pub open spec fn resized_by(ops: Seq<Op>, size: (int, int)) -> (int, int)
    decreases ops.len(),
{
    if ops.len() == 0 {
        size
    } else {
        ops.last().resized(resized_by(ops.drop_last(), size))
    }
}

/// The size of a picture.
pub open spec fn size_of(p: Picture) -> (int, int) {
    (p.width as int, p.height as int)
}

/// The size of what a list of steps makes of an image of the given size.
pub open spec fn produced_by(ops: Seq<Op>, size: (int, int)) -> (int, int)
    decreases ops.len(),
{
    if ops.len() == 0 {
        size
    } else {
        ops.last().produces(produced_by(ops.drop_last(), size))
    }
}

/// Whether a machine can hold every picture on the way through a list of steps.
pub open spec fn all_fit(ops: Seq<Op>, size: (int, int)) -> bool
    decreases ops.len(),
{
    ops.len() == 0 || {
        &&& all_fit(ops.drop_last(), size)
        &&& ops.last().fits(produced_by(ops.drop_last(), size))
    }
}

/// Whether every side that a list of steps doubles can still be counted.
pub open spec fn all_counted(ops: Seq<Op>, size: (int, int)) -> bool
    decreases ops.len(),
{
    ops.len() == 0 || {
        let reached = produced_by(ops.drop_last(), size);
        &&& all_counted(ops.drop_last(), size)
        &&& ops.last() is MirrorHorizontal ==> 2 * reached.0 <= u32::MAX
        &&& ops.last() is MirrorVertical ==> 2 * reached.1 <= u32::MAX
    }
}

/// Where every picture on the way can be held, every doubled side can be counted.
proof fn lemma_held_is_counted(ops: Seq<Op>, size: (int, int))
    requires
        all_fit(ops, size),
    ensures
        all_counted(ops, size),
    decreases ops.len(),
{
    if ops.len() > 0 {
        lemma_held_is_counted(ops.drop_last(), size);
    }
}

/// Where every doubled side can be counted, none is cut short.
proof fn lemma_counted(ops: Seq<Op>, size: (int, int))
    requires
        all_counted(ops, size),
    ensures
        resized_by(ops, size) == produced_by(ops, size),
    decreases ops.len(),
{
    if ops.len() > 0 {
        lemma_counted(ops.drop_last(), size);
    }
}

/// Leaving adjustments out changes no size.
proof fn lemma_kept_size(ops: Seq<Op>, last: int, n: int, size: (int, int))
    requires
        0 <= n <= ops.len(),
    ensures
        produced_by(kept(ops, last, n), size) == produced_by(ops.take(n), size),
    decreases n,
{
    if n > 0 {
        assert(ops.take(n).drop_last() =~= ops.take(n - 1));
        lemma_kept_size(ops, last, n - 1, size);
        let before = kept(ops, last, n - 1);
        assert(before.push(ops[n - 1]).drop_last() =~= before);
    }
}

/// Where the last adjustment of a list stands, or -1 where it has none.
pub open spec fn last_adjust(ops: Seq<Op>) -> int
    decreases ops.len(),
{
    if ops.len() == 0 {
        -1
    } else if ops.last().is_adjust() {
        ops.len() - 1
    } else {
        last_adjust(ops.drop_last())
    }
}

/// The adjustment in force after a list of steps: the last one, or none.
pub open spec fn setting(ops: Seq<Op>) -> Adjust
    decreases ops.len(),
{
    if ops.len() == 0 {
        Adjust::neutral()
    } else {
        match ops.last() {
            Op::Adjust(adjust) => adjust,
            _ => setting(ops.drop_last()),
        }
    }
}

/// The steps among the first `n` that run: all that move pixels about, and of the
/// adjustments the one at `last`, unless it does nothing.
pub open spec fn kept(ops: Seq<Op>, last: int, n: int) -> Seq<Op>
    decreases n,
{
    if n <= 0 {
        Seq::empty()
    } else {
        let before = kept(ops, last, n - 1);
        match ops[n - 1] {
            Op::Adjust(adjust) => if n - 1 == last && adjust != Adjust::neutral() {
                before.push(ops[n - 1])
            } else {
                before
            },
            _ => before.push(ops[n - 1]),
        }
    }
}

/// The steps that actually run.
pub open spec fn effective_ops(ops: Seq<Op>) -> Seq<Op> {
    kept(ops, last_adjust(ops), ops.len() as int)
}

/// The steps that move pixels about.
pub open spec fn geometry(ops: Seq<Op>) -> Seq<Op> {
    kept(ops, -1, ops.len() as int)
}

/// An edit stack as mathematics: the steps applied, oldest first, and those undone,
/// newest last.
#[verifier::ext_equal]
pub struct Stack {
    pub applied: Seq<Op>,
    pub undone: Seq<Op>,
}

impl Stack {
    /// With `op` on top. What was undone is gone.
    pub open spec fn push(self, op: Op) -> Stack {
        Stack { applied: self.applied.push(op), undone: Seq::empty() }
    }

    /// With the last step taken back, if there is one.
    pub open spec fn undo(self) -> Stack {
        if self.applied.len() == 0 {
            self
        } else {
            Stack {
                applied: self.applied.drop_last(),
                undone: self.undone.push(self.applied.last()),
            }
        }
    }

    /// With the last step undone applied again, if there is one.
    pub open spec fn redo(self) -> Stack {
        if self.undone.len() == 0 {
            self
        } else {
            Stack {
                applied: self.applied.push(self.undone.last()),
                undone: self.undone.drop_last(),
            }
        }
    }
}

/// The ordered stack of edits, with undo and redo.
#[derive(Debug)]
pub struct Edits {
    applied: Vec<Op>,
    /// Steps that were undone, newest last. Discarded the moment a new step is pushed: a
    /// redo of a branch you have left is a promise no editor keeps.
    undone: Vec<Op>,
}

impl View for Edits {
    type V = Stack;

    closed spec fn view(&self) -> Stack {
        Stack { applied: self.applied@, undone: self.undone@ }
    }
}

impl Default for Edits {
    fn default() -> (edits: Self)
        ensures
            edits@ == (Stack { applied: Seq::empty(), undone: Seq::empty() }),
    {
        Edits { applied: Vec::new(), undone: Vec::new() }
    }
}

impl Clone for Edits {
    fn clone(&self) -> (copied: Self)
        ensures
            copied@ == self@,
    {
        Edits { applied: self.applied.clone(), undone: self.undone.clone() }
    }
}

impl Edits {
    pub fn push(&mut self, op: Op)
        ensures
            final(self)@ == old(self)@.push(op),
    {
        self.applied.push(op);
        self.undone.clear();
    }

    /// Moves the last step onto the redo stack. Returns whether anything moved.
    pub fn undo(&mut self) -> (moved: bool)
        ensures
            final(self)@ == old(self)@.undo(),
            moved == (old(self)@.applied.len() > 0),
    {
        match self.applied.pop() {
            Some(op) => {
                self.undone.push(op);
                true
            },
            None => false,
        }
    }

    /// Moves the last step undone back. Returns whether anything moved.
    pub fn redo(&mut self) -> (moved: bool)
        ensures
            final(self)@ == old(self)@.redo(),
            moved == (old(self)@.undone.len() > 0),
    {
        match self.undone.pop() {
            Some(op) => {
                self.applied.push(op);
                true
            },
            None => false,
        }
    }

    pub fn can_undo(&self) -> (can: bool)
        ensures
            can == (self@.applied.len() > 0),
    {
        self.applied.len() > 0
    }

    pub fn can_redo(&self) -> (can: bool)
        ensures
            can == (self@.undone.len() > 0),
    {
        self.undone.len() > 0
    }

    /// How many edits are pending, which is also how many changes are unsaved.
    pub fn len(&self) -> (count: usize)
        ensures
            count == self@.applied.len(),
    {
        self.applied.len()
    }

    pub fn is_empty(&self) -> (empty: bool)
        ensures
            empty == (self@.applied.len() == 0),
    {
        self.applied.len() == 0
    }

    pub fn ops(&self) -> (ops: &[Op])
        ensures
            ops@ == self@.applied,
    {
        self.applied.as_slice()
    }

    /// The colour adjustment currently in force, which is the last one pushed.
    pub fn adjust(&self) -> (adjust: Adjust)
        ensures
            adjust == setting(self@.applied),
    {
        let mut n: usize = self.applied.len();
        assert(self.applied@.take(n as int) =~= self.applied@);
        while n > 0
            invariant
                n <= self.applied@.len(),
                setting(self.applied@) == setting(self.applied@.take(n as int)),
            decreases n,
        {
            assert(self.applied@.take(n as int).drop_last() =~= self.applied@.take(n - 1));
            if let Op::Adjust(adjust) = self.applied[n - 1] {
                return adjust;
            }
            n -= 1;
        }
        Adjust::none()
    }

    /// This pipeline with `adjust` in place of whatever adjustment it holds, for
    /// previewing a slider mid-drag, which must not touch the undo stack.
    pub fn previewing(&self, adjust: Adjust) -> (previewed: Self)
        ensures
            previewed@ == (Stack {
                applied: self@.applied.push(Op::Adjust(adjust)),
                undone: self@.undone,
            }),
    {
        let mut previewed = self.clone();
        previewed.applied.push(Op::Adjust(adjust));
        previewed
    }

    /// The steps that actually run.
    ///
    /// Adjustments carry absolute slider values, so a stack holding three of them
    /// records that the sliders moved three times, not that the image should be adjusted
    /// three times over. Only the last one survives here. One that has been dragged back
    /// to zero is dropped as well, so an image returned to its original settings costs
    /// no work at all.
    pub fn effective(&self) -> (ops: Vec<Op>)
        ensures
            ops@ == effective_ops(self@.applied),
    {
        let mut last: usize = self.applied.len();
        assert(self.applied@.take(last as int) =~= self.applied@);
        while last > 0 && !is_adjust(self.applied[last - 1])
            invariant
                last <= self.applied@.len(),
                last_adjust(self.applied@) == last_adjust(self.applied@.take(last as int)),
            decreases last,
        {
            assert(self.applied@.take(last as int).drop_last() =~= self.applied@.take(last - 1));
            last -= 1;
        }
        let ghost target = last_adjust(self.applied@);
        assert(target == last - 1);
        let mut ops: Vec<Op> = Vec::new();
        let mut n: usize = 0;
        while n < self.applied.len()
            invariant
                n <= self.applied@.len(),
                last <= self.applied@.len(),
                target == last - 1,
                ops@ == kept(self.applied@, target, n as int),
            decreases self.applied@.len() - n,
        {
            let op = self.applied[n];
            match op {
                Op::Adjust(adjust) => {
                    if n + 1 == last && !adjust.is_none() {
                        ops.push(op);
                    }
                },
                _ => ops.push(op),
            }
            n += 1;
        }
        ops
    }

    /// Forgets everything, as after a save or a new image.
    pub fn clear(&mut self)
        ensures
            final(self)@ == (Stack { applied: Seq::empty(), undone: Seq::empty() }),
    {
        self.applied.clear();
        self.undone.clear();
    }

    /// Dimensions the pipeline produces from `size`.
    pub fn size_after(&self, size: (u32, u32)) -> (after: (u32, u32))
        ensures
            (after.0 as int, after.1 as int) == resized_by(
                self@.applied,
                (size.0 as int, size.1 as int),
            ),
            all_counted(self@.applied, (size.0 as int, size.1 as int)) ==> (
                after.0 as int,
                after.1 as int,
            ) == produced_by(self@.applied, (size.0 as int, size.1 as int)),
    {
        let mut after = size;
        let mut n: usize = 0;
        while n < self.applied.len()
            invariant
                n <= self.applied@.len(),
                (after.0 as int, after.1 as int) == resized_by(
                    self.applied@.take(n as int),
                    (size.0 as int, size.1 as int),
                ),
            decreases self.applied@.len() - n,
        {
            after = self.applied[n].size_after(after);
            assert(self.applied@.take(n + 1).drop_last() =~= self.applied@.take(n as int));
            n += 1;
        }
        assert(self.applied@.take(n as int) =~= self.applied@);
        proof {
            let start = (size.0 as int, size.1 as int);
            if all_counted(self.applied@, start) {
                lemma_counted(self.applied@, start);
            }
        }
        after
    }

    /// Runs the pipeline over `base`, and borrows when there is nothing to do.
    pub fn apply<'a>(&self, base: &'a Raster) -> (out: Applied<'a>)
        requires
            base.wf(),
            all_fit(self@.applied, (base.width as int, base.height as int)),
        ensures
            out.wf(),
            out.picture() == run_over(effective_ops(self@.applied), base@),
            size_of(out.picture()) == resized_by(
                self@.applied,
                (base.width as int, base.height as int),
            ),
            out is Borrowed == (effective_ops(self@.applied).len() == 0),
    {
        proof {
            assert(self@.applied.take(self@.applied.len() as int) =~= self@.applied);
            lemma_kept_fits(
                self@.applied,
                last_adjust(self@.applied),
                self@.applied.len() as int,
                (base.width as int, base.height as int),
            );
            lemma_held_is_counted(self@.applied, (base.width as int, base.height as int));
            lemma_counted(self@.applied, (base.width as int, base.height as int));
            lemma_size_produced(effective_ops(self@.applied), base@);
        }
        run(self.effective(), base)
    }

    /// Runs only the steps that move pixels about, leaving colour alone.
    ///
    /// What the preview texture is built from. Every path that writes a file uses
    /// [`Edits::apply`], which does include the colour.
    pub fn apply_geometry<'a>(&self, base: &'a Raster) -> (out: Applied<'a>)
        requires
            base.wf(),
            all_fit(self@.applied, (base.width as int, base.height as int)),
        ensures
            out.wf(),
            out.picture() == run_over(geometry(self@.applied), base@),
            out is Borrowed == (geometry(self@.applied).len() == 0),
    {
        let mut ops: Vec<Op> = Vec::new();
        let mut n: usize = 0;
        while n < self.applied.len()
            invariant
                n <= self.applied@.len(),
                ops@ == kept(self.applied@, -1, n as int),
            decreases self.applied@.len() - n,
        {
            let op = self.applied[n];
            if !is_adjust(op) {
                ops.push(op);
            }
            n += 1;
        }
        proof {
            assert(self@.applied.take(self@.applied.len() as int) =~= self@.applied);
            lemma_kept_fits(
                self@.applied,
                -1,
                self@.applied.len() as int,
                (base.width as int, base.height as int),
            );
        }
        run(ops, base)
    }

    /// Whether a machine can hold every picture on the way through the pipeline, from an
    /// image of `size` on.
    pub fn fits(&self, size: (u32, u32)) -> (fit: bool)
        requires
            raster::addressable(size.0 as int, size.1 as int),
        ensures
            fit == all_fit(self@.applied, (size.0 as int, size.1 as int)),
    {
        let ghost start = (size.0 as int, size.1 as int);
        let mut at = size;
        let mut n: usize = 0;
        while n < self.applied.len()
            invariant
                n <= self.applied@.len(),
                start == (size.0 as int, size.1 as int),
                all_fit(self.applied@.take(n as int), start),
                (at.0 as int, at.1 as int) == produced_by(self.applied@.take(n as int), start),
            decreases self.applied@.len() - n,
        {
            let op = self.applied[n];
            let ghost here = (at.0 as int, at.1 as int);
            assert(self.applied@.take(n + 1).drop_last() =~= self.applied@.take(n as int));
            proof {
                raster::lemma_area(at.0 as int, at.1 as int);
            }
            let area: u128 = at.0 as u128 * at.1 as u128 * 2 * 4;
            let fits = match op {
                Op::MirrorHorizontal => at.0 <= u32::MAX / 2 && area <= isize::MAX as u128,
                Op::MirrorVertical => at.1 <= u32::MAX / 2 && area <= isize::MAX as u128,
                _ => true,
            };
            assert(2 * at.0 * at.1 * 4 == at.0 * at.1 * 2 * 4) by (nonlinear_arith);
            assert(at.0 * (2 * at.1) * 4 == at.0 * at.1 * 2 * 4) by (nonlinear_arith);
            assert(fits == op.fits(here));
            if !fits {
                proof {
                    lemma_fits_so_far_back(self.applied@, start, n + 1);
                }
                return false;
            }
            at = op.size_after(at);
            n += 1;
        }
        assert(self.applied@.take(n as int) =~= self.applied@);
        true
    }
}

fn is_adjust(op: Op) -> (adjust: bool)
    ensures
        adjust == op.is_adjust(),
{
    match op {
        Op::Adjust(_) => true,
        _ => false,
    }
}

fn run<'a>(ops: Vec<Op>, base: &'a Raster) -> (out: Applied<'a>)
    requires
        base.wf(),
        all_fit(ops@, (base.width as int, base.height as int)),
    ensures
        out.wf(),
        out.picture() == run_over(ops@, base@),
        out is Borrowed == (ops@.len() == 0),
{
    if ops.len() == 0 {
        return Applied::Borrowed(base);
    }
    let ghost size = (base.width as int, base.height as int);
    proof {
        lemma_fits_so_far(ops@, size, 1);
        assert(ops@.take(1).drop_last() =~= Seq::<Op>::empty());
        assert(run_over(Seq::<Op>::empty(), base@) == base@);
    }
    let mut out = ops[0].apply(base);
    let mut n: usize = 1;
    while n < ops.len()
        invariant
            1 <= n <= ops@.len(),
            all_fit(ops@, size),
            size == size_of(base@),
            base@.wf(),
            out.wf(),
            out@ == run_over(ops@.take(n as int), base@),
        decreases ops@.len() - n,
    {
        proof {
            lemma_fits_so_far(ops@, size, n + 1);
            lemma_size_produced(ops@.take(n as int), base@);
            assert(ops@.take(n + 1).drop_last() =~= ops@.take(n as int));
        }
        out = ops[n].apply(&out);
        n += 1;
    }
    assert(ops@.take(n as int) =~= ops@);
    Applied::Owned(out)
}

/// What fits at the end fitted on the way.
proof fn lemma_fits_so_far(ops: Seq<Op>, size: (int, int), n: int)
    requires
        all_fit(ops, size),
        0 <= n <= ops.len(),
    ensures
        all_fit(ops.take(n), size),
    decreases ops.len() - n,
{
    if n == ops.len() {
        assert(ops.take(n) =~= ops);
    } else {
        lemma_fits_so_far(ops, size, n + 1);
        assert(ops.take(n + 1).drop_last() =~= ops.take(n));
    }
}

/// What does not fit on the way does not fit at the end.
proof fn lemma_fits_so_far_back(ops: Seq<Op>, size: (int, int), n: int)
    requires
        0 <= n <= ops.len(),
        !all_fit(ops.take(n), size),
    ensures
        !all_fit(ops, size),
{
    if all_fit(ops, size) {
        lemma_fits_so_far(ops, size, n);
    }
}

/// The size of a picture that went through a list of steps.
proof fn lemma_size_produced(ops: Seq<Op>, p: Picture)
    ensures
        size_of(run_over(ops, p)) == produced_by(ops, size_of(p)),
    decreases ops.len(),
{
    if ops.len() > 0 {
        lemma_size_produced(ops.drop_last(), p);
    }
}

/// Leaving adjustments out changes no size.
proof fn lemma_kept_fits(ops: Seq<Op>, last: int, n: int, size: (int, int))
    requires
        0 <= n <= ops.len(),
        all_fit(ops.take(n), size),
    ensures
        all_fit(kept(ops, last, n), size),
        produced_by(kept(ops, last, n), size) == produced_by(ops.take(n), size),
    decreases n,
{
    if n > 0 {
        assert(ops.take(n).drop_last() =~= ops.take(n - 1));
        lemma_kept_fits(ops, last, n - 1, size);
        let before = kept(ops, last, n - 1);
        assert(before.push(ops[n - 1]).drop_last() =~= before);
    }
}

/// Whether a rectangle, given by its corner and size, is the smallest one that contains
/// every pixel that is not fully transparent.
pub open spec fn bounds_content(p: Picture, left: int, top: int, width: int, height: int) -> bool {
    &&& 0 <= left
    &&& 0 <= top
    &&& left + width <= p.width
    &&& top + height <= p.height
    &&& forall|x: int, y: int|
        p.holds(x, y) && (#[trigger] p.at(x, y)).a != 0 ==> left <= x < left + width && top <= y
            < top + height
    &&& exists|y: int| p.holds(left, y) && (#[trigger] p.at(left, y)).a != 0
    &&& exists|y: int|
        p.holds(left + width - 1, y) && (#[trigger] p.at(left + width - 1, y)).a != 0
    &&& exists|x: int| p.holds(x, top) && (#[trigger] p.at(x, top)).a != 0
    &&& exists|x: int|
        p.holds(x, top + height - 1) && (#[trigger] p.at(x, top + height - 1)).a != 0
}

/// Whether every pixel is fully transparent.
pub open spec fn all_clear(p: Picture) -> bool {
    forall|x: int, y: int| p.holds(x, y) ==> (#[trigger] p.at(x, y)).a == 0
}

/// The smallest rectangle containing every pixel that is not fully transparent, as
/// `(x, y, width, height)`.
///
/// `None` when the image is entirely transparent, because there is then no rectangle to
/// keep. The whole image when nothing is transparent at all at its edges.
pub fn opaque_bounds(pixels: &Raster) -> (bounds: Option<(u32, u32, u32, u32)>)
    requires
        pixels.wf(),
    ensures
        bounds is None == all_clear(pixels@),
        bounds matches Some((x, y, width, height)) ==> bounds_content(
            pixels@,
            x as int,
            y as int,
            width as int,
            height as int,
        ),
{
    let ghost p = pixels@;
    // Columns and rows of content seen so far, and one pixel that shows each extreme.
    let mut found: Option<(u32, u32, u32, u32)> = None;
    let mut y: u32 = 0;
    while y < pixels.height
        invariant
            pixels.wf(),
            p == pixels@,
            y <= pixels.height,
            content_so_far(p, found, 0, y as int),
        decreases pixels.height - y,
    {
        let mut x: u32 = 0;
        while x < pixels.width
            invariant
                pixels.wf(),
                p == pixels@,
                y < pixels.height,
                x <= pixels.width,
                content_so_far(p, found, x as int, y as int),
            decreases pixels.width - x,
        {
            let pixel = pixels.get_pixel(x, y);
            let ghost before = found;
            if pixel[3] != 0 {
                assert(p.at(x as int, y as int).a != 0);
                found = Some(
                    match found {
                        None => (x, y, x, y),
                        Some((min_x, min_y, max_x, max_y)) => (
                            if x < min_x {
                                x
                            } else {
                                min_x
                            },
                            min_y,
                            if x > max_x {
                                x
                            } else {
                                max_x
                            },
                            y,
                        ),
                    },
                );
            }
            proof {
                lemma_content_step(p, before, found, x as int, y as int);
            }
            x += 1;
        }
        proof {
            assert(content_so_far(p, found, 0, y + 1));
        }
        y += 1;
    }
    match found {
        None => None,
        Some((min_x, min_y, max_x, max_y)) => {
            let width: u32 = max_x - min_x + 1;
            let height: u32 = max_y - min_y + 1;
            proof {
                let row = choose|y: int|
                    p.holds(max_x as int, y) && (#[trigger] p.at(max_x as int, y)).a != 0;
                assert(p.at(min_x + width - 1, row).a != 0);
                let column = choose|x: int|
                    p.holds(x, max_y as int) && (#[trigger] p.at(x, max_y as int)).a != 0;
                assert(p.at(column, min_y + height - 1).a != 0);
            }
            Some((min_x, min_y, width, height))
        },
    }
}

/// Whether `(x, y)` comes before the place `(at_x, at_y)` in reading order.
pub open spec fn read_before(x: int, y: int, at_x: int, at_y: int) -> bool {
    y < at_y || y == at_y && x < at_x
}

/// What is known of the content before a place: nothing found yet, or the extremes of
/// the columns and rows that hold some.
spec fn content_so_far(
    p: Picture,
    found: Option<(u32, u32, u32, u32)>,
    at_x: int,
    at_y: int,
) -> bool {
    match found {
        None => forall|x: int, y: int|
            p.holds(x, y) && read_before(x, y, at_x, at_y) ==> (#[trigger] p.at(x, y)).a == 0,
        Some((min_x, min_y, max_x, max_y)) => {
            &&& min_x <= max_x < p.width
            &&& min_y <= max_y < p.height
            &&& forall|x: int, y: int|
                p.holds(x, y) && read_before(x, y, at_x, at_y) && (#[trigger] p.at(x, y)).a != 0
                    ==> min_x <= x <= max_x && min_y <= y <= max_y
            &&& max_y <= at_y
            &&& exists|y: int| p.holds(min_x as int, y) && (#[trigger] p.at(min_x as int, y)).a != 0
            &&& exists|y: int| p.holds(max_x as int, y) && (#[trigger] p.at(max_x as int, y)).a != 0
            &&& exists|x: int| p.holds(x, min_y as int) && (#[trigger] p.at(x, min_y as int)).a != 0
            &&& exists|x: int| p.holds(x, max_y as int) && (#[trigger] p.at(x, max_y as int)).a != 0
        },
    }
}

/// One more place read.
proof fn lemma_content_step(
    p: Picture,
    before: Option<(u32, u32, u32, u32)>,
    after: Option<(u32, u32, u32, u32)>,
    x: int,
    y: int,
)
    requires
        p.holds(x, y),
        p.width <= u32::MAX,
        p.height <= u32::MAX,
        content_so_far(p, before, x, y),
        after == (if p.at(x, y).a == 0 {
            before
        } else {
            match before {
                None => Some((x as u32, y as u32, x as u32, y as u32)),
                Some((min_x, min_y, max_x, max_y)) => Some(
                    (
                        least(x, min_x as int) as u32,
                        min_y,
                        if x > max_x {
                            x as u32
                        } else {
                            max_x
                        },
                        y as u32,
                    ),
                ),
            }
        }),
    ensures
        content_so_far(p, after, x + 1, y),
{
    if p.at(x, y).a != 0 {
        let (min_x, min_y, max_x, max_y) = after->0;
        assert forall|u: int, v: int|
            p.holds(u, v) && read_before(u, v, x + 1, y) && (#[trigger] p.at(u, v)).a
                != 0 implies min_x <= u <= max_x && min_y <= v <= max_y by {
            if u == x && v == y {
            } else {
                assert(read_before(u, v, x, y));
            }
        }
    }
}

/// Undo and then redo leaves the stack as it was.
pub proof fn law_redo_takes_back_undo(stack: Stack)
    requires
        stack.applied.len() > 0,
    ensures
        stack.undo().redo() == stack,
{
    assert(stack.undo().redo() =~= stack);
}

/// Redo and then undo leaves the stack as it was.
pub proof fn law_undo_takes_back_redo(stack: Stack)
    requires
        stack.undone.len() > 0,
    ensures
        stack.redo().undo() == stack,
{
    assert(stack.redo().undo() =~= stack);
}

/// Undo after a push returns to the steps from before it, so no step changes the pixels
/// it started from.
pub proof fn law_undo_takes_back_a_push(stack: Stack, op: Op)
    ensures
        stack.push(op).undo().applied == stack.applied,
        stack.push(op).undo().redo() == stack.push(op),
{
    assert(stack.push(op).undo().applied =~= stack.applied);
    assert(stack.push(op).undo().redo() =~= stack.push(op));
}

/// A new step discards the redo branch.
pub proof fn law_a_push_discards_the_redo_branch(stack: Stack, op: Op)
    ensures
        stack.push(op).undone.len() == 0,
        stack.push(op).redo() == stack.push(op),
{
}

/// Flipping twice returns the original.
pub proof fn law_flipping_twice_returns_the_original(p: Picture)
    requires
        p.wf(),
    ensures
        Op::FlipHorizontal.of(Op::FlipHorizontal.of(p)) == p,
        Op::FlipVertical.of(Op::FlipVertical.of(p)) == p,
{
    raster::lemma_same(Op::FlipHorizontal.of(Op::FlipHorizontal.of(p)), p);
    raster::lemma_same(Op::FlipVertical.of(Op::FlipVertical.of(p)), p);
}

/// Opposite rotations cancel.
pub proof fn law_opposite_rotations_cancel(p: Picture)
    requires
        p.wf(),
    ensures
        Op::RotateCcw.of(Op::RotateCw.of(p)) == p,
        Op::RotateCw.of(Op::RotateCcw.of(p)) == p,
{
    raster::lemma_same(Op::RotateCcw.of(Op::RotateCw.of(p)), p);
    raster::lemma_same(Op::RotateCw.of(Op::RotateCcw.of(p)), p);
}

/// Four quarter turns return the original, either way round.
pub proof fn law_four_quarter_turns_return_the_original(p: Picture)
    requires
        p.wf(),
    ensures
        Op::RotateCw.of(Op::RotateCw.of(Op::RotateCw.of(Op::RotateCw.of(p)))) == p,
        Op::RotateCcw.of(Op::RotateCcw.of(Op::RotateCcw.of(Op::RotateCcw.of(p)))) == p,
{
    let half = Op::RotateCw.of(Op::RotateCw.of(p));
    let other = Op::RotateCcw.of(Op::RotateCcw.of(p));
    raster::lemma_same(half, Op::FlipHorizontal.of(Op::FlipVertical.of(p)));
    raster::lemma_same(other, half);
    law_opposite_rotations_cancel(p);
    law_opposite_rotations_cancel(Op::RotateCw.of(p));
    law_opposite_rotations_cancel(Op::RotateCcw.of(p));
}

/// Every step leaves a proper picture.
proof fn lemma_step_wf(op: Op, p: Picture)
    requires
        p.wf(),
    ensures
        op.of(p).wf(),
{
}

proof fn lemma_run_wf(ops: Seq<Op>, p: Picture)
    requires
        p.wf(),
    ensures
        run_over(ops, p).wf(),
    decreases ops.len(),
{
    if ops.len() > 0 {
        lemma_run_wf(ops.drop_last(), p);
        lemma_step_wf(ops.last(), run_over(ops.drop_last(), p));
    }
}

/// The predicted size is the size the pipeline produces, unless a mirror takes a side past
/// what can be counted.
pub proof fn law_predicted_size_is_the_size_produced(ops: Seq<Op>, p: Picture)
    requires
        p.wf(),
        all_counted(ops, size_of(p)),
    ensures
        resized_by(ops, size_of(p)) == size_of(run_over(ops, p)),
        resized_by(ops, size_of(p)) == size_of(run_over(effective_ops(ops), p)),
{
    lemma_counted(ops, size_of(p));
    lemma_size_produced(ops, p);
    lemma_size_produced(effective_ops(ops), p);
    lemma_kept_size(ops, last_adjust(ops), ops.len() as int, size_of(p));
    assert(ops.take(ops.len() as int) =~= ops);
}

/// A step that moves pixels about commutes with anything done to each pixel on its own.
pub proof fn law_geometry_commutes_with_colour(op: Op, p: Picture, f: spec_fn(Rgba) -> Rgba)
    requires
        p.wf(),
        !op.is_adjust(),
    ensures
        op.of(p.recoloured(f)) == op.of(p).recoloured(f),
{
    lemma_step_wf(op, p);
    lemma_step_wf(op, p.recoloured(f));
    raster::lemma_same(op.of(p.recoloured(f)), op.of(p).recoloured(f));
}

/// Where the last adjustment stands is where the setting in force comes from.
proof fn lemma_setting(ops: Seq<Op>)
    ensures
        -1 <= last_adjust(ops) < ops.len(),
        last_adjust(ops) == -1 ==> setting(ops) == Adjust::neutral(),
        last_adjust(ops) >= 0 ==> ops[last_adjust(ops)] == Op::Adjust(setting(ops)),
        forall|i: int| last_adjust(ops) < i < ops.len() ==> !(#[trigger] ops[i]).is_adjust(),
    decreases ops.len(),
{
    if ops.len() > 0 {
        lemma_setting(ops.drop_last());
        if !ops.last().is_adjust() {
            assert forall|i: int| last_adjust(ops) < i < ops.len() implies !(
            #[trigger] ops[i]).is_adjust() by {
                if i < ops.len() - 1 {
                    assert(ops.drop_last()[i] == ops[i]);
                }
            }
        }
    }
}

/// The steps that run make of a picture what the moves make of it, coloured from the
/// last adjustment on.
proof fn lemma_kept(ops: Seq<Op>, last: int, n: int, adjust: Adjust, p: Picture)
    requires
        p.wf(),
        0 <= n <= ops.len(),
        -1 <= last < ops.len(),
        last >= 0 ==> ops[last] == Op::Adjust(adjust),
    ensures
        run_over(kept(ops, last, n), p) == (if 0 <= last < n {
            adjust.of(run_over(kept(ops, -1, n), p))
        } else {
            run_over(kept(ops, -1, n), p)
        }),
    decreases n,
{
    if n > 0 {
        lemma_kept(ops, last, n - 1, adjust, p);
        let moved = kept(ops, -1, n - 1);
        let before = kept(ops, last, n - 1);
        let op = ops[n - 1];
        lemma_run_wf(moved, p);
        assert(before.push(op).drop_last() =~= before);
        assert(moved.push(op).drop_last() =~= moved);
        if op.is_adjust() {
            if n - 1 == last && adjust == Adjust::neutral() {
                crate::adjust::law_no_adjustment_changes_nothing(run_over(moved, p));
            }
        } else {
            law_geometry_commutes_with_colour(
                op,
                run_over(moved, p),
                |c: Rgba| adjust.colour(c),
            );
        }
    }
}

/// The preview and the saved file agree: the whole pipeline is the geometry pass with
/// the adjustment in force applied to its result.
pub proof fn law_pipeline_is_geometry_then_colour(ops: Seq<Op>, p: Picture)
    requires
        p.wf(),
    ensures
        run_over(effective_ops(ops), p) == setting(ops).of(run_over(geometry(ops), p)),
{
    lemma_setting(ops);
    lemma_kept(ops, last_adjust(ops), ops.len() as int, setting(ops), p);
    if last_adjust(ops) == -1 {
        lemma_run_wf(geometry(ops), p);
        crate::adjust::law_no_adjustment_changes_nothing(run_over(geometry(ops), p));
    }
}

/// The moves of a list do not depend on the adjustments in it.
proof fn lemma_geometry_skips_adjust(ops: Seq<Op>, adjust: Adjust)
    ensures
        geometry(ops.push(Op::Adjust(adjust))) == geometry(ops),
{
    lemma_kept_prefix(ops, ops.push(Op::Adjust(adjust)), -1, ops.len() as int);
}

/// Previewing a setting puts that setting in force, whichever was, and moves nothing: the
/// pixels stay where they are, the size is the one it was, and what could be run still can.
pub proof fn law_previewing_moves_nothing(ops: Seq<Op>, adjust: Adjust, size: (int, int))
    ensures
        setting(ops.push(Op::Adjust(adjust))) == adjust,
        geometry(ops.push(Op::Adjust(adjust))) == geometry(ops),
        resized_by(ops.push(Op::Adjust(adjust)), size) == resized_by(ops, size),
        produced_by(ops.push(Op::Adjust(adjust)), size) == produced_by(ops, size),
        all_fit(ops.push(Op::Adjust(adjust)), size) == all_fit(ops, size),
{
    lemma_geometry_skips_adjust(ops, adjust);
    assert(ops.push(Op::Adjust(adjust)).drop_last() =~= ops);
}

proof fn lemma_kept_prefix(one: Seq<Op>, other: Seq<Op>, last: int, n: int)
    requires
        0 <= n <= one.len(),
        n <= other.len(),
        forall|i: int| 0 <= i < n ==> one[i] == other[i],
    ensures
        kept(one, last, n) == kept(other, last, n),
    decreases n,
{
    if n > 0 {
        lemma_kept_prefix(one, other, last, n - 1);
    }
}

/// Only the last adjustment runs: a setting pushed after another leaves the picture that
/// it would leave alone.
pub proof fn law_only_the_last_adjustment_runs(
    ops: Seq<Op>,
    earlier: Adjust,
    later: Adjust,
    p: Picture,
)
    requires
        p.wf(),
    ensures
        run_over(effective_ops(ops.push(Op::Adjust(earlier)).push(Op::Adjust(later))), p)
            == run_over(effective_ops(ops.push(Op::Adjust(later))), p),
{
    let once = ops.push(Op::Adjust(later));
    let twice = ops.push(Op::Adjust(earlier)).push(Op::Adjust(later));
    law_pipeline_is_geometry_then_colour(once, p);
    law_pipeline_is_geometry_then_colour(twice, p);
    lemma_geometry_skips_adjust(ops, later);
    lemma_geometry_skips_adjust(ops, earlier);
    lemma_geometry_skips_adjust(ops.push(Op::Adjust(earlier)), later);
}

/// An adjustment dragged back to zero leaves only the moves to run.
pub proof fn law_a_setting_of_none_costs_nothing(ops: Seq<Op>)
    ensures
        effective_ops(ops.push(Op::Adjust(Adjust::neutral()))) == geometry(ops),
{
    let reset = ops.push(Op::Adjust(Adjust::neutral()));
    lemma_kept_prefix(ops, reset, ops.len() as int, ops.len() as int);
    lemma_kept_without(ops, ops.len() as int, ops.len() as int);
}

proof fn lemma_kept_without(ops: Seq<Op>, last: int, n: int)
    requires
        0 <= n <= ops.len() <= last,
    ensures
        kept(ops, last, n) == kept(ops, -1, n),
    decreases n,
{
    if n > 0 {
        lemma_kept_without(ops, last, n - 1);
    }
}

/// Previewing a setting shows what pushing it would, and leaves what undo returns to.
pub proof fn law_previewing_shows_what_pushing_would(stack: Stack, adjust: Adjust)
    ensures
        (Stack { applied: stack.applied.push(Op::Adjust(adjust)), undone: stack.undone }).applied
            == stack.push(Op::Adjust(adjust)).applied,
        setting(stack.push(Op::Adjust(adjust)).undo().applied) == setting(stack.applied),
{
    law_undo_takes_back_a_push(stack, Op::Adjust(adjust));
}

/// Where every pixel of a picture goes. A flip keeps the size and turns the columns or the rows
/// round; a turn swaps width and height, and clockwise takes the left column to the top.
pub proof fn law_moves_take_every_pixel_to_its_place(p: Picture, x: int, y: int)
    requires
        p.wf(),
        p.holds(x, y),
    ensures
        Op::FlipHorizontal.of(p).at(p.width - 1 - x, y) == p.at(x, y),
        Op::FlipVertical.of(p).at(x, p.height - 1 - y) == p.at(x, y),
        Op::RotateCw.of(p).at(p.height - 1 - y, x) == p.at(x, y),
        Op::RotateCcw.of(p).at(y, p.width - 1 - x) == p.at(x, y),
        Op::FlipHorizontal.of(p).width == p.width && Op::FlipHorizontal.of(p).height == p.height,
        Op::FlipVertical.of(p).width == p.width && Op::FlipVertical.of(p).height == p.height,
        Op::RotateCw.of(p).width == p.height && Op::RotateCw.of(p).height == p.width,
        Op::RotateCcw.of(p).width == p.height && Op::RotateCcw.of(p).height == p.width,
{
}

/// A mirror sets a picture beside its own reflection, to the right of it or below: twice the
/// size one way, the picture itself in the first half, and a second half that is the first
/// seen from the seam.
pub proof fn law_a_mirror_doubles_the_picture(p: Picture, x: int, y: int)
    requires
        p.wf(),
        p.holds(x, y),
    ensures
        Op::MirrorHorizontal.of(p).width == 2 * p.width,
        Op::MirrorHorizontal.of(p).height == p.height,
        Op::MirrorHorizontal.of(p).at(x, y) == p.at(x, y),
        Op::MirrorHorizontal.of(p).at(2 * p.width - 1 - x, y) == p.at(x, y),
        Op::MirrorVertical.of(p).width == p.width,
        Op::MirrorVertical.of(p).height == 2 * p.height,
        Op::MirrorVertical.of(p).at(x, y) == p.at(x, y),
        Op::MirrorVertical.of(p).at(x, 2 * p.height - 1 - y) == p.at(x, y),
        Op::FlipHorizontal.of(Op::MirrorHorizontal.of(p)) == Op::MirrorHorizontal.of(p),
        Op::FlipVertical.of(Op::MirrorVertical.of(p)) == Op::MirrorVertical.of(p),
{
    let wide = Op::MirrorHorizontal.of(p);
    let tall = Op::MirrorVertical.of(p);
    raster::lemma_same(Op::FlipHorizontal.of(wide), wide);
    raster::lemma_same(Op::FlipVertical.of(tall), tall);
}

/// A crop keeps the pixels of its rectangle, in their places from its corner on. As far as it
/// reaches outside it is cut off, and one that has nothing of the picture leaves it alone.
pub proof fn law_a_crop_keeps_its_rectangle(
    p: Picture,
    left: u32,
    top: u32,
    width: u32,
    height: u32,
    x: int,
    y: int,
)
    requires
        p.wf(),
    ensures
        ({
            let cut = Op::Crop { x: left, y: top, width, height }.of(p);
            let meets = left < p.width && top < p.height && width > 0 && height > 0;
            &&& !meets ==> cut == p
            &&& meets && left + width <= p.width ==> cut.width == width
            &&& meets && left + width > p.width ==> cut.width == p.width - left
            &&& meets && top + height <= p.height ==> cut.height == height
            &&& meets && top + height > p.height ==> cut.height == p.height - top
            &&& meets && cut.holds(x, y) ==> p.holds(left + x, top + y) && cut.at(x, y) == p.at(
                left + x,
                top + y,
            )
        }),
{
}

/// Steps run in the order they were taken, each on what the one before it left.
pub proof fn law_steps_run_in_order(first: Seq<Op>, then: Seq<Op>, op: Op, p: Picture)
    ensures
        run_over(Seq::empty(), p) == p,
        run_over(seq![op], p) == op.of(p),
        run_over(first + then, p) == run_over(then, run_over(first, p)),
    decreases then.len(),
{
    assert(seq![op].drop_last() =~= Seq::<Op>::empty());
    if then.len() == 0 {
        assert(first + then =~= first);
    } else {
        law_steps_run_in_order(first, then.drop_last(), op, p);
        assert((first + then).drop_last() =~= first + then.drop_last());
    }
}

/// What runs of a list is all of its moves, in their order, and of its adjustments the last.
pub proof fn law_every_move_runs(ops: Seq<Op>)
    ensures
        geometry(ops) == ops.filter(|op: Op| !(op is Adjust)),
        effective_ops(ops).filter(|op: Op| !(op is Adjust)) == geometry(ops),
        (forall|i: int| 0 <= i < ops.len() ==> !((#[trigger] ops[i]) is Adjust)) ==> {
            &&& effective_ops(ops) == ops
            &&& setting(ops) == Adjust::neutral()
        },
{
    let moves = |op: Op| !(op is Adjust);
    lemma_kept_filter(ops, -1, ops.len() as int);
    lemma_kept_filter(ops, last_adjust(ops), ops.len() as int);
    assert(ops.take(ops.len() as int) =~= ops);
    lemma_kept_moves(ops, -1, ops.len() as int);
    if forall|i: int| 0 <= i < ops.len() ==> !((#[trigger] ops[i]) is Adjust) {
        lemma_setting(ops);
        lemma_all_kept(ops, ops.len() as int);
        if last_adjust(ops) >= 0 {
            assert(ops[last_adjust(ops)] is Adjust);
        }
    }
}

proof fn lemma_kept_filter(ops: Seq<Op>, last: int, n: int)
    requires
        0 <= n <= ops.len(),
    ensures
        kept(ops, last, n).filter(|op: Op| !(op is Adjust)) == ops.take(n).filter(
            |op: Op| !(op is Adjust),
        ),
    decreases n,
{
    reveal(Seq::filter);
    let moves = |op: Op| !(op is Adjust);
    if n > 0 {
        lemma_kept_filter(ops, last, n - 1);
        let before = kept(ops, last, n - 1);
        assert(ops.take(n).drop_last() =~= ops.take(n - 1));
        assert(before.push(ops[n - 1]).drop_last() =~= before);
    } else {
        assert(ops.take(0) =~= kept(ops, last, 0));
    }
}

proof fn lemma_kept_moves(ops: Seq<Op>, last: int, n: int)
    requires
        0 <= n <= ops.len(),
        last < 0,
    ensures
        kept(ops, last, n).filter(|op: Op| !(op is Adjust)) == kept(ops, last, n),
    decreases n,
{
    reveal(Seq::filter);
    if n > 0 {
        lemma_kept_moves(ops, last, n - 1);
        let before = kept(ops, last, n - 1);
        assert(before.push(ops[n - 1]).drop_last() =~= before);
    }
}

proof fn lemma_all_kept(ops: Seq<Op>, n: int)
    requires
        0 <= n <= ops.len(),
        forall|i: int| 0 <= i < ops.len() ==> !((#[trigger] ops[i]) is Adjust),
    ensures
        kept(ops, last_adjust(ops), n) == ops.take(n),
    decreases n,
{
    if n > 0 {
        lemma_all_kept(ops, n - 1);
        assert(ops.take(n) =~= ops.take(n - 1).push(ops[n - 1]));
    } else {
        assert(ops.take(0) =~= Seq::<Op>::empty());
    }
}

/// The setting in force is that of the last adjustment, whatever was done to the picture after.
pub proof fn law_the_last_setting_is_in_force(ops: Seq<Op>, op: Op, adjust: Adjust)
    ensures
        setting(Seq::empty()) == (Adjust { brightness: 0, contrast: 0, saturation: 0 }),
        setting(ops.push(Op::Adjust(adjust))) == adjust,
        !(op is Adjust) ==> setting(ops.push(op)) == setting(ops),
{
    assert(ops.push(op).drop_last() =~= ops);
}

/// Steps pile up at the end, and undo takes them away from there, newest first, to be redone in
/// the opposite order.
pub proof fn law_undo_starts_with_the_newest(stack: Stack, op: Op)
    ensures
        stack.push(op).applied == stack.applied + seq![op],
        stack.applied.len() > 0 ==> stack.undo().applied + seq![stack.applied[stack.applied.len()
            - 1]] == stack.applied,
        stack.applied.len() > 0 ==> stack.undo().undone == stack.undone + seq![
            stack.applied[stack.applied.len() - 1],
        ],
        stack.applied.len() == 0 ==> stack.undo() == stack,
        stack.undone.len() > 0 ==> stack.redo().applied == stack.applied + seq![
            stack.undone[stack.undone.len() - 1],
        ],
        stack.undone.len() == 0 ==> stack.redo() == stack,
{
    assert(stack.push(op).applied =~= stack.applied + seq![op]);
    if stack.applied.len() > 0 {
        let newest = stack.applied[stack.applied.len() - 1];
        assert(stack.undo().applied + seq![newest] =~= stack.applied);
        assert(stack.undo().undone =~= stack.undone + seq![newest]);
    }
    if stack.undone.len() > 0 {
        let newest = stack.undone[stack.undone.len() - 1];
        assert(stack.redo().applied =~= stack.applied + seq![newest]);
    }
}

/// A step can be run exactly when what it makes of a picture that can be held can be held too.
pub proof fn law_a_step_fits_if_its_result_does(op: Op, p: Picture)
    requires
        p.wf(),
        p.width <= u32::MAX,
        p.height <= u32::MAX,
        p.width * p.height * 4 <= isize::MAX,
    ensures
        op.fits((p.width as int, p.height as int)) == (op.of(p).width <= u32::MAX && op.of(p).height <= u32::MAX
            && op.of(p).width * op.of(p).height * 4 <= isize::MAX),
{
    let q = op.of(p);
    assert(p.height * p.width == p.width * p.height) by (nonlinear_arith);
    assert(q.width <= p.width && q.height <= p.height ==> q.width * q.height <= p.width
        * p.height) by (nonlinear_arith);
}

/// A trim keeps every pixel that can be seen, and no rectangle that does so is smaller: any other
/// holds this one.
pub proof fn law_a_trim_keeps_all_that_can_be_seen(
    p: Picture,
    left: int,
    top: int,
    width: int,
    height: int,
    other: (int, int, int, int),
)
    requires
        bounds_content(p, left, top, width, height),
    ensures
        1 <= width <= p.width - left && 0 <= left,
        1 <= height <= p.height - top && 0 <= top,
        forall|x: int, y: int|
            0 <= x < p.width && 0 <= y < p.height && (#[trigger] p.at(x, y)).a > 0 ==> left <= x
                < left + width && top <= y < top + height,
        (forall|x: int, y: int|
            0 <= x < p.width && 0 <= y < p.height && (#[trigger] p.at(x, y)).a > 0 ==> other.0 <= x
                < other.0 + other.2 && other.1 <= y < other.1 + other.3) ==> other.0 <= left
            && other.1 <= top && left + width <= other.0 + other.2 && top + height <= other.1
            + other.3,
{
    let west = choose|y: int| p.holds(left, y) && (#[trigger] p.at(left, y)).a != 0;
    let east = choose|y: int|
        p.holds(left + width - 1, y) && (#[trigger] p.at(left + width - 1, y)).a != 0;
    let north = choose|x: int| p.holds(x, top) && (#[trigger] p.at(x, top)).a != 0;
    let south = choose|x: int|
        p.holds(x, top + height - 1) && (#[trigger] p.at(x, top + height - 1)).a != 0;
    assert(p.at(left, west).a > 0 && p.at(left + width - 1, east).a > 0);
    assert(p.at(north, top).a > 0 && p.at(south, top + height - 1).a > 0);
}

/// A picture is clear if not one pixel of it can be seen.
pub proof fn law_one_pixel_is_enough_to_trim_to(p: Picture, x: int, y: int)
    requires
        0 <= x < p.width,
        0 <= y < p.height,
    ensures
        p.at(x, y).a > 0 ==> !all_clear(p),
        all_clear(p) ==> p.at(x, y).a == 0,
{
    assert(p.holds(x, y));
}

} // verus!
