//! Editing the image on screen: the undo stack, the colour sliders, cropping and trimming.

use vstd::prelude::*;
use crate::adjust::Adjust;
use crate::edit;
use crate::edit::Op;
use crate::session::{Scene, Session};
use crate::views::crop::{Aspect, Selection};
use crate::views::sidebar::Action;

verus! {

/// What an action of the sidebar leads to, beyond the session itself.
#[derive(Debug, Clone, Copy, PartialEq, Eq)]
pub enum Effect {
    Nothing,
    /// Run the pipeline over the original pixels.
    Apply,
    /// Measure the transparent border.
    Measure,
    /// Fit the image to the window, and let a rectangle be drawn over it.
    Fit,
    /// Cut the rectangle to the ratio that was chosen, for an image of this size.
    Recut((u32, u32)),
    /// Write the file.
    Save,
}

impl Scene {
    /// With the whole pipeline to be run again, from the original pixels. That pauses an
    /// animation, and the sliders follow the stack.
    pub open spec fn reapplied(self) -> Scene {
        if self.source is None {
            self
        } else {
            Scene {
                player: self.player.paused(),
                adjust: edit::setting(self.edits.applied),
                applying: true,
                ..self
            }
        }
    }

    pub open spec fn pushed(self, op: Op) -> Scene {
        (Scene { edits: self.edits.push(op), ..self }).reapplied()
    }

    pub open spec fn undone(self) -> Scene {
        if self.edits.applied.len() > 0 {
            (Scene { edits: self.edits.undo(), ..self }).reapplied()
        } else {
            self
        }
    }

    pub open spec fn redone(self) -> Scene {
        if self.edits.undone.len() > 0 {
            (Scene { edits: self.edits.redo(), ..self }).reapplied()
        } else {
            self
        }
    }

    /// With what the sliders show on the stack, if it is not there already. The pixels stay
    /// as they are: colour is no part of them.
    pub open spec fn committed(self) -> Scene {
        if self.adjust == edit::setting(self.edits.applied) {
            self
        } else {
            Scene { edits: self.edits.push(Op::Adjust(self.adjust)), ..self }
        }
    }

    /// The size that the pipeline makes of the original.
    pub open spec fn edited_size(self) -> Option<(int, int)> {
        match self.source {
            Some(source) => Some(
                edit::resized_by(
                    self.edits.applied,
                    (source.width as int, source.height as int),
                ),
            ),
            None => None,
        }
    }

    pub open spec fn cropping(self) -> Scene {
        if self.source is None {
            self
        } else {
            Scene {
                panels: crate::panels::Panels::only_sidebar(),
                crop: Some(
                    match self.crop {
                        Some(aspect) => aspect,
                        None => Aspect::Free,
                    },
                ),
                ..self
            }
        }
    }

    pub open spec fn cropped(self, selection: Option<Selection>) -> Scene {
        match selection {
            Some(part) => if self.crop is Some && part.is_meant() {
                (Scene { crop: None, ..self }).pushed(crop_to(part))
            } else {
                self
            },
            None => self,
        }
    }

    /// Whether there is a border to take away.
    pub open spec fn trims(self, bounds: Option<(u32, u32, u32, u32)>) -> bool {
        match bounds {
            Some((x, y, width, height)) => !(x == 0 && y == 0 && self.edited_size() == Some(
                (width as int, height as int),
            )),
            None => false,
        }
    }

    /// With the transparent border known. Nothing is pushed that would change nothing.
    pub open spec fn trimmed(self, bounds: Option<(u32, u32, u32, u32)>, now: u64) -> Scene {
        let idle = Scene { trimming: false, ..self };
        match bounds {
            Some((x, y, width, height)) => if self.trims(bounds) {
                idle.pushed(Op::Crop { x, y, width, height })
            } else {
                Scene { said: idle.said.notified("Nothing to trim"@, now), ..idle }
            },
            None => Scene {
                said: idle.said.notified("The whole image is transparent"@, now),
                ..idle
            },
        }
    }

    /// With the pipeline's pixels on screen.
    pub open spec fn edited(self, size: (u32, u32)) -> Scene {
        Scene { canvas: Some(size), applying: false, ..self }
    }

    /// What an action of the sidebar makes of the session.
    pub open spec fn asked(self, action: Action, selection: Option<Selection>) -> Scene {
        match action {
            Action::Close => Scene {
                panels: crate::panels::Panels { sidebar: false, ..self.panels },
                ..self
            },
            Action::Apply(op) => self.pushed(op),
            Action::Undo => self.undone(),
            Action::Redo => self.redone(),
            Action::Trim => Scene { trimming: self.trimming || self.source is Some, ..self },
            Action::StartCrop => self.cropping(),
            Action::SetAspect(aspect) => if self.crop is Some && self.source is Some {
                Scene { crop: Some(aspect), ..self }
            } else {
                self
            },
            Action::ApplyCrop => self.cropped(selection),
            Action::CancelCrop => Scene { crop: None, ..self },
            Action::CommitAdjust => self.committed(),
            Action::ResetAdjust => (Scene { adjust: Adjust::neutral(), ..self }).committed(),
            Action::Adjusting => self,
            Action::Save => self,
        }
    }

    /// What an action of the sidebar leads to.
    pub open spec fn effect(
        self,
        action: Action,
        selection: Option<Selection>,
        effect: Effect,
    ) -> bool {
        match action {
            Action::Apply(_) => effect == apply_if(self.source is Some),
            Action::Undo => effect == apply_if(
                self.source is Some && self.edits.applied.len() > 0,
            ),
            Action::Redo => effect == apply_if(self.source is Some && self.edits.undone.len() > 0),
            Action::ApplyCrop => effect == apply_if(
                self.source is Some && self.crop is Some && selection is Some
                    && selection->0.is_meant(),
            ),
            Action::Save => effect is Save,
            Action::Trim => effect == (if self.source is Some {
                Effect::Measure
            } else {
                Effect::Nothing
            }),
            Action::StartCrop => effect == (if self.source is Some {
                Effect::Fit
            } else {
                Effect::Nothing
            }),
            Action::SetAspect(_) => match self.edited_size() {
                Some(size) => if self.crop is Some {
                    effect matches Effect::Recut(cut) && (cut.0 as int, cut.1 as int) == size
                } else {
                    effect is Nothing
                },
                None => effect is Nothing,
            },
            _ => effect is Nothing,
        }
    }
}

pub open spec fn apply_if(due: bool) -> Effect {
    if due {
        Effect::Apply
    } else {
        Effect::Nothing
    }
}

/// The step that keeps a part of the image.
pub open spec fn crop_to(part: Selection) -> Op {
    Op::Crop { x: part.x, y: part.y, width: part.width, height: part.height }
}

impl Session {
    /// Has the whole pipeline run again. Says whether there is anything to run it over.
    pub fn reapply(&mut self) -> (due: bool)
        ensures
            due == (old(self)@.source is Some),
            final(self)@ == old(self)@.reapplied(),
            old(self)@.wf() ==> final(self)@.wf(),
    {
        proof {
            reveal(Session::scene);
        }
        if self.source.is_none() {
            return false;
        }
        self.player.pause();
        self.adjust = self.edits.adjust();
        self.applying = true;
        true
    }

    pub fn push_op(&mut self, op: Op) -> (due: bool)
        ensures
            due == (old(self)@.source is Some),
            final(self)@ == old(self)@.pushed(op),
            old(self)@.wf() ==> final(self)@.wf(),
    {
        proof {
            reveal(Session::scene);
        }
        self.edits.push(op);
        self.reapply()
    }

    pub fn undo(&mut self) -> (due: bool)
        ensures
            due == (old(self)@.source is Some && old(self)@.edits.applied.len() > 0),
            final(self)@ == old(self)@.undone(),
            old(self)@.wf() ==> final(self)@.wf(),
    {
        proof {
            reveal(Session::scene);
        }
        if self.edits.undo() {
            self.reapply()
        } else {
            false
        }
    }

    pub fn redo(&mut self) -> (due: bool)
        ensures
            due == (old(self)@.source is Some && old(self)@.edits.undone.len() > 0),
            final(self)@ == old(self)@.redone(),
            old(self)@.wf() ==> final(self)@.wf(),
    {
        proof {
            reveal(Session::scene);
        }
        if self.edits.redo() {
            self.reapply()
        } else {
            false
        }
    }

    /// Records what the sliders show, so that it can be undone. A slider that was only
    /// touched records nothing.
    pub fn commit_adjust(&mut self)
        ensures
            final(self)@ == old(self)@.committed(),
            old(self)@.wf() ==> final(self)@.wf(),
    {
        proof {
            reveal(Session::scene);
        }
        if self.adjust == self.edits.adjust() {
            return;
        }
        self.edits.push(Op::Adjust(self.adjust));
    }

    /// The pipeline's pixels are on screen. Says whether to fit them to the window: only if
    /// their shape is another.
    pub fn edited(&mut self, size: (u32, u32)) -> (refit: bool)
        ensures
            refit == (old(self)@.canvas != Some(size)),
            final(self)@ == old(self)@.edited(size),
            old(self)@.wf() ==> final(self)@.wf(),
    {
        proof {
            reveal(Session::scene);
        }
        let refit = match self.canvas {
            Some(shown) => shown.0 != size.0 || shown.1 != size.1,
            None => true,
        };
        self.canvas = Some(size);
        self.applying = false;
        refit
    }

    /// No pixels will come of the pipeline.
    pub fn edit_ended(&mut self)
        ensures
            final(self)@ == (Scene { applying: false, ..old(self)@ }),
            old(self)@.wf() ==> final(self)@.wf(),
    {
        proof {
            reveal(Session::scene);
        }
        self.applying = false;
    }

    /// The size that the pipeline makes of the original, which a crop is measured against.
    pub fn edited_size(&self) -> (size: Option<(u32, u32)>)
        ensures
            size is Some == (self@.source is Some),
            size matches Some(size) ==> self@.edited_size() == Some(
                (size.0 as int, size.1 as int),
            ),
    {
        proof {
            reveal(Session::scene);
        }
        match &self.source {
            Some(source) => Some(self.edits.size_after(source.dimensions())),
            None => None,
        }
    }

    /// Lets a rectangle be drawn over the image. Says whether there is one.
    pub fn start_crop(&mut self) -> (begun: bool)
        ensures
            begun == (old(self)@.source is Some),
            final(self)@ == old(self)@.cropping(),
            old(self)@.wf() ==> final(self)@.wf(),
    {
        proof {
            reveal(Session::scene);
        }
        if self.source.is_none() {
            return false;
        }
        self.panels.open_sidebar();
        self.crop = Some(
            match self.crop {
                Some(aspect) => aspect,
                None => Aspect::Free,
            },
        );
        true
    }

    /// Keeps what was selected. Says whether the pipeline has to be run.
    pub fn apply_crop(&mut self, selection: Option<Selection>) -> (due: bool)
        ensures
            due == (old(self)@.source is Some && old(self)@.crop is Some && selection is Some
                && selection->0.is_meant()),
            final(self)@ == old(self)@.cropped(selection),
            old(self)@.wf() ==> final(self)@.wf(),
    {
        proof {
            reveal(Session::scene);
        }
        if self.crop.is_none() {
            return false;
        }
        let part = match selection {
            Some(selection) => selection.rectangle(),
            None => None,
        };
        match part {
            Some(part) => {
                self.crop = None;
                self.push_op(
                    Op::Crop { x: part.x, y: part.y, width: part.width, height: part.height },
                )
            },
            None => false,
        }
    }

    /// Asks for the transparent border to be measured. Says whether there is anything to
    /// measure.
    pub fn request_trim(&mut self) -> (due: bool)
        ensures
            due == (old(self)@.source is Some),
            final(self)@ == (Scene {
                trimming: old(self)@.trimming || old(self)@.source is Some,
                ..old(self)@
            }),
            old(self)@.wf() ==> final(self)@.wf(),
    {
        proof {
            reveal(Session::scene);
        }
        if self.source.is_none() {
            return false;
        }
        self.trimming = true;
        true
    }

    /// The transparent border is known: it becomes an ordinary crop, or a word that there
    /// is nothing to take away. Says whether the pipeline has to be run.
    pub fn trimmed(&mut self, bounds: Option<(u32, u32, u32, u32)>, now: u64) -> (due: bool)
        ensures
            final(self)@ == old(self)@.trimmed(bounds, now),
            due == (old(self)@.source is Some && old(self)@.trims(bounds)),
            old(self)@.wf() ==> final(self)@.wf(),
    {
        self.trim_ended();
        let current = self.edited_size();
        match bounds {
            Some((x, y, width, height)) => {
                let whole = match current {
                    Some(size) => x == 0 && y == 0 && size.0 == width && size.1 == height,
                    None => false,
                };
                if whole {
                    self.notify("Nothing to trim", now);
                    false
                } else {
                    self.push_op(Op::Crop { x, y, width, height })
                }
            },
            None => {
                self.notify("The whole image is transparent", now);
                false
            },
        }
    }

    /// The border will not be known.
    pub fn trim_ended(&mut self)
        ensures
            final(self)@ == (Scene { trimming: false, ..old(self)@ }),
            old(self)@.wf() ==> final(self)@.wf(),
    {
        proof {
            reveal(Session::scene);
        }
        self.trimming = false;
    }

    /// Gives the rectangle another ratio, while one is being drawn. Says the size of the
    /// image it is cut from.
    pub fn set_aspect(&mut self, aspect: Aspect) -> (size: Option<(u32, u32)>)
        ensures
            final(self)@ == (if old(self)@.crop is Some && old(self)@.source is Some {
                Scene { crop: Some(aspect), ..old(self)@ }
            } else {
                old(self)@
            }),
            size is Some == (old(self)@.crop is Some && old(self)@.source is Some),
            size matches Some(size) ==> old(self)@.edited_size() == Some(
                (size.0 as int, size.1 as int),
            ),
            old(self)@.wf() ==> final(self)@.wf(),
    {
        proof {
            reveal(Session::scene);
        }
        let size = self.edited_size();
        if self.crop.is_some() && size.is_some() {
            self.crop = Some(aspect);
            size
        } else {
            None
        }
    }

    pub fn cancel_crop(&mut self)
        ensures
            final(self)@ == (Scene { crop: None, ..old(self)@ }),
            old(self)@.wf() ==> final(self)@.wf(),
    {
        proof {
            reveal(Session::scene);
        }
        self.crop = None;
    }

    pub fn close_sidebar(&mut self)
        ensures
            final(self)@ == (Scene {
                panels: crate::panels::Panels { sidebar: false, ..old(self)@.panels },
                ..old(self)@
            }),
            old(self)@.wf() ==> final(self)@.wf(),
    {
        proof {
            reveal(Session::scene);
        }
        self.panels.sidebar = false;
    }

    /// Puts the sliders back, which can be undone as well.
    pub fn reset_adjust(&mut self)
        ensures
            final(self)@ == (Scene { adjust: Adjust::neutral(), ..old(self)@ }).committed(),
            old(self)@.wf() ==> final(self)@.wf(),
    {
        proof {
            reveal(Session::scene);
        }
        self.adjust = Adjust::none();
        self.commit_adjust();
    }

    /// Does what the sidebar asked for. `selection` is the rectangle drawn so far.
    pub fn apply_sidebar(&mut self, action: Action, selection: Option<Selection>) -> (effect:
        Effect)
        ensures
            final(self)@ == old(self)@.asked(action, selection),
            old(self)@.effect(action, selection, effect),
            old(self)@.wf() ==> final(self)@.wf(),
    {
        let due = match action {
            Action::Close => {
                self.close_sidebar();
                false
            },
            Action::Apply(op) => self.push_op(op),
            Action::Undo => self.undo(),
            Action::Redo => self.redo(),
            Action::ApplyCrop => self.apply_crop(selection),
            Action::Save => {
                return Effect::Save;
            },
            Action::Trim => {
                return if self.request_trim() {
                    Effect::Measure
                } else {
                    Effect::Nothing
                };
            },
            Action::StartCrop => {
                return if self.start_crop() {
                    Effect::Fit
                } else {
                    Effect::Nothing
                };
            },
            Action::SetAspect(aspect) => {
                return match self.set_aspect(aspect) {
                    Some(size) => Effect::Recut(size),
                    None => Effect::Nothing,
                };
            },
            Action::CancelCrop => {
                self.cancel_crop();
                false
            },
            Action::Adjusting => false,
            Action::CommitAdjust => {
                self.commit_adjust();
                false
            },
            Action::ResetAdjust => {
                self.reset_adjust();
                false
            },
        };
        if due {
            Effect::Apply
        } else {
            Effect::Nothing
        }
    }
}

/// Undoing an edit that was just made leaves the edits as they were, and the sliders show
/// what the stack holds.
pub proof fn law_undoing_an_edit_takes_it_back(scene: Scene, op: Op)
    requires
        scene.source is Some,
    ensures
        scene.pushed(op).undone().edits.applied == scene.edits.applied,
        scene.pushed(op).undone().adjust == edit::setting(scene.edits.applied),
        scene.pushed(op).undone().source == scene.source,
{
    assert(scene.edits.applied.push(op).drop_last() =~= scene.edits.applied);
}

/// A slider that was let go where the stack already has it adds nothing to undo, and one
/// that was let go elsewhere adds one step, whose setting is what it shows.
pub proof fn law_a_slider_let_go_is_one_step(scene: Scene)
    ensures
        scene.committed().committed() == scene.committed(),
        scene.committed().adjust == edit::setting(scene.committed().edits.applied),
        scene.committed().edits.applied.len() <= scene.edits.applied.len() + 1,
{
    let pushed = scene.edits.applied.push(Op::Adjust(scene.adjust));
    assert(pushed.last() == Op::Adjust(scene.adjust));
}

/// A step that is made goes on top of those before, and the sliders show what is now in force.
/// The image stands still meanwhile. The original pixels are never touched.
pub proof fn law_a_step_goes_on_top(scene: Scene, op: Op)
    ensures
        scene.pushed(op).edits.applied == scene.edits.applied.push(op),
        scene.pushed(op).edits.undone.len() == 0,
        scene.pushed(op).source == scene.source,
        scene.source is Some ==> scene.pushed(op).applying && !scene.pushed(op).player.playing,
        scene.source is Some ==> (op matches Op::Adjust(adjust) ==> scene.pushed(op).adjust
            == adjust),
        scene.source is None ==> scene.pushed(op).applying == scene.applying,
{
    assert(scene.edits.applied.push(op).last() == op);
}

/// What was undone can be made again, as it was.
pub proof fn law_redoing_brings_a_step_back(scene: Scene)
    requires
        scene.edits.applied.len() > 0,
        scene.source is Some,
    ensures
        scene.undone().edits.applied == scene.edits.applied.drop_last(),
        scene.undone().redone().edits.applied == scene.edits.applied,
        scene.undone().redone().edits.undone == scene.edits.undone,
        scene.undone().redone().adjust == edit::setting(scene.edits.applied),
        scene.undone().source == scene.source,
{
    assert(scene.undone().redone().edits.applied =~= scene.edits.applied);
    assert(scene.undone().redone().edits.undone =~= scene.edits.undone);
}

/// A crop that is taken is a step with just the rectangle that was drawn, and ends the drawing.
/// A slip of the hand, or no rectangle, changes nothing.
pub proof fn law_a_crop_takes_the_rectangle(scene: Scene, part: Selection)
    ensures
        scene.crop is Some && part.width >= 8 && part.height >= 8 ==> {
            let after = scene.cropped(Some(part));
            &&& after.crop is None
            &&& after.edits.applied.len() == scene.edits.applied.len() + 1
            &&& after.edits.applied.drop_last() == scene.edits.applied
            &&& after.edits.applied.last() == (Op::Crop {
                x: part.x,
                y: part.y,
                width: part.width,
                height: part.height,
            })
        },
        scene.crop is None || part.width < 8 || part.height < 8 ==> scene.cropped(Some(part))
            == scene,
        scene.cropped(None) == scene,
{
    assert(scene.edits.applied.push(crop_to(part)).drop_last() =~= scene.edits.applied);
}

/// A border that is found is cropped away. Where there is none, or nothing but border, that is
/// said and nothing is cropped.
pub proof fn law_trimming_crops_to_what_can_be_seen(
    scene: Scene,
    bounds: (u32, u32, u32, u32),
    now: u64,
)
    requires
        scene.source is Some,
    ensures
        ({
            let (x, y, width, height) = bounds;
            let after = scene.trimmed(Some(bounds), now);
            let whole = x == 0 && y == 0 && scene.edited_size() == Some(
                (width as int, height as int),
            );
            &&& !after.trimming
            &&& !whole ==> after.edits.applied == scene.edits.applied.push(
                Op::Crop { x, y, width, height },
            ) && after.applying
            &&& whole ==> after.edits == scene.edits && after.said.notice is Some
        }),
        scene.trimmed(None, now).edits == scene.edits,
        !scene.trimmed(None, now).trimming,
        scene.trimmed(None, now).said.notice is Some,
{
}

/// Letting go of a slider makes a step of where it stands, if that is anything new. Resetting
/// puts all of them back to rest.
pub proof fn law_a_slider_let_go_is_a_step(scene: Scene)
    ensures
        scene.adjust != edit::setting(scene.edits.applied) ==> {
            &&& scene.committed().edits.applied == scene.edits.applied.push(
                Op::Adjust(scene.adjust),
            )
            &&& scene.committed().adjust == scene.adjust
        },
        scene.adjust == edit::setting(scene.edits.applied) ==> scene.committed() == scene,
        ({
            let reset = scene.asked(Action::ResetAdjust, None);
            &&& reset.adjust == Adjust::neutral()
            &&& edit::setting(reset.edits.applied) == Adjust::neutral()
        }),
{
    let still = Scene { adjust: Adjust::neutral(), ..scene };
    assert(still.edits.applied.push(Op::Adjust(still.adjust)).last() == Op::Adjust(still.adjust));
}

/// A crop begins with the sidebar open and no ratio chosen, or the one chosen already. It ends
/// without a trace when it is given up.
pub proof fn law_a_crop_begins_and_ends(scene: Scene, aspect: Aspect)
    requires
        scene.source is Some,
    ensures
        ({
            let begun = scene.asked(Action::StartCrop, None);
            &&& begun.crop is Some && begun.panels.sidebar && !begun.panels.info
                && !begun.panels.settings
            &&& scene.crop is None ==> begun.crop == Some(Aspect::Free)
            &&& scene.crop is Some ==> begun.crop == scene.crop
            &&& begun.asked(Action::SetAspect(aspect), None).crop == Some(aspect)
            &&& begun.asked(Action::CancelCrop, None).crop is None
            &&& begun.asked(Action::CancelCrop, None).edits == scene.edits
        }),
{
}

/// The sidebar does what its buttons say, and asks for the work that this needs.
pub proof fn law_the_sidebar_does_what_it_says(
    scene: Scene,
    op: Op,
    selection: Option<Selection>,
    effect: Effect,
)
    requires
        scene.source is Some,
    ensures
        scene.asked(Action::Apply(op), selection).edits.applied == scene.edits.applied.push(op),
        scene.effect(Action::Apply(op), selection, effect) ==> effect is Apply,
        scene.edits.applied.len() > 0 ==> scene.asked(Action::Undo, selection).edits.applied
            == scene.edits.applied.drop_last(),
        scene.effect(Action::Undo, selection, effect) ==> (effect is Apply
            <==> scene.edits.applied.len() > 0),
        scene.effect(Action::Redo, selection, effect) ==> (effect is Apply
            <==> scene.edits.undone.len() > 0),
        scene.edits.undone.len() > 0 ==> scene.asked(Action::Redo, selection).edits.applied.len()
            == scene.edits.applied.len() + 1,
        scene.effect(Action::Save, selection, effect) ==> effect is Save,
        scene.asked(Action::Save, selection) == scene,
        scene.effect(Action::Trim, selection, effect) ==> effect is Measure,
        scene.asked(Action::Trim, selection).trimming,
        scene.effect(Action::StartCrop, selection, effect) ==> effect is Fit,
        scene.effect(Action::Close, selection, effect) ==> effect is Nothing,
        !scene.asked(Action::Close, selection).panels.sidebar,
        scene.effect(Action::Adjusting, selection, effect) ==> effect is Nothing,
{
}

/// An edited image is laid out at its new size, and the work is over.
pub proof fn law_an_edited_image_is_laid_out_anew(scene: Scene, size: (u32, u32))
    ensures
        scene.edited(size).canvas == Some(size),
        !scene.edited(size).applying,
        scene.edited(size).edits == scene.edits,
        scene.edited(size).source == scene.source,
{
}

} // verus!
