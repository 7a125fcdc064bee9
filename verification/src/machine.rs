//! The renderer as a state machine, in the abstract: its states, the action
//! that is pending in each state, and the state that follows on a reply.

use vstd::prelude::*;
use crate::geom::{Color, Matrix, Rect};
use crate::protocol::{Action, Error, Reply};
use crate::tree::{NodeKind, RenderTree};

verus! {

/// A group whose children are being painted.
#[derive(Clone, Copy, Debug, PartialEq, Eq)]
pub struct Frame {
    /// The group, or the root.
    pub node: usize,
    /// Index, among the children, of the child that is painted next.
    pub next: usize,
    /// The matrix that the group's surface has before and after each child.
    pub restore: Matrix,
    /// The union of the bounding boxes of the children painted so far.
    pub bbox: Rect,
}

/// Which action is pending.
#[derive(Clone, Copy, Debug, PartialEq, Eq)]
pub enum Stage {
    /// The canvas is being allocated.
    Canvas,
    /// The canvas is being filled with the background.
    Background(Color),
    /// The view box is being mapped into the view.
    ViewBox,
    /// The matrix of the canvas is being read.
    RootMatrix,
    /// The next child's transform is being composed.
    Transform,
    /// The next child, a leaf, is being painted.
    Draw,
    /// The offscreen surface of the next child, a group, is being allocated.
    Create,
    /// The matrix under which that group is painted is being read.
    GroupMatrix,
    /// The offscreen surface is being given that matrix.
    InitMatrix,
    /// The finished group is being clipped by the clip path at this index.
    Clip(usize),
    /// The matrix of the surface below is being set aside for the paste.
    Reset,
    /// The finished group is being pasted onto the surface below.
    Paste,
    /// The matrix of the surface below is being put back after the paste.
    Unwind,
    /// The matrix is being restored after a child.
    Restore,
    /// The picture is complete.
    Finished,
    /// The canvas could not be allocated.
    Failed,
}

/// What does not change while a picture is rendered.
pub struct Setup {
    /// The box whose extent every surface has.
    pub view: Rect,
    /// The colour under the picture, if any.
    pub background: Option<Color>,
}

/// A state of the renderer: the groups that are open, outermost first, and
/// the pending action's stage. Frame `d` paints on surface `d`.
pub struct Machine {
    pub frames: Seq<Frame>,
    pub stage: Stage,
}

/// Frame `f` as it starts on the group `node` under the matrix `restore`.
pub open spec fn fresh_frame(node: usize, restore: Matrix) -> Frame {
    Frame { node, next: 0, restore, bbox: Rect::blank_spec() }
}

impl Machine {
    /// The innermost open group.
    pub open spec fn top(self) -> Frame {
        self.frames.last()
    }

    /// The number of the surface that the innermost open group paints on.
    pub open spec fn depth(self) -> int {
        self.frames.len() - 1
    }

    /// The child of the innermost open group that is painted next.
    pub open spec fn child(self, t: &RenderTree) -> usize {
        t.children_of(self.top().node as int)[self.top().next as int]
    }

    /// The state in which the open groups are `frames` and the innermost has
    /// just finished a child, or was just opened: its next child is begun,
    /// or, where it has none left, the group is closed.
    pub open spec fn settle(t: &RenderTree, frames: Seq<Frame>) -> Machine {
        let top = frames.last();
        let stage = if top.next < t.children_of(top.node as int).len() {
            Stage::Transform
        } else if frames.len() == 1 {
            Stage::Finished
        } else {
            match t.kind_of(top.node as int) {
                NodeKind::Group(g) => match t.clip_of(g.clip_path) {
                    Some(clip) => Stage::Clip(clip),
                    None => Stage::Reset,
                },
                _ => Stage::Reset,
            }
        };
        Machine { frames, stage }
    }

    /// The action that is pending in this state.
    pub open spec fn pending(self, t: &RenderTree, setup: Setup) -> Action {
        let d = self.depth();
        let top = self.top();
        match self.stage {
            Stage::Canvas => Action::CreateCanvas { view: setup.view },
            Stage::Background(color) => Action::Fill { color },
            Stage::ViewBox => Action::ApplyViewBox {
                view_box: t.view_box_spec(),
                view: setup.view,
            },
            Stage::RootMatrix => Action::GetMatrix { surface: 0 },
            Stage::Transform => Action::Transform {
                surface: d as usize,
                matrix: t.transform_of(self.child(t) as int).to_native_spec(),
            },
            Stage::Draw => match t.kind_of(self.child(t) as int) {
                NodeKind::Text => Action::DrawText { surface: d as usize, node: self.child(t) },
                NodeKind::Image => Action::DrawImage { surface: d as usize, node: self.child(t) },
                _ => Action::DrawPath { surface: d as usize, node: self.child(t) },
            },
            Stage::Create => Action::CreateSurface { surface: (d + 1) as usize, view: setup.view },
            Stage::GroupMatrix => Action::GetMatrix { surface: d as usize },
            Stage::InitMatrix => Action::SetMatrix { surface: d as usize, matrix: top.restore },
            Stage::Clip(clip) => Action::ApplyClip { surface: d as usize, clip, bbox: top.bbox },
            Stage::Reset => Action::ResetMatrix { surface: (d - 1) as usize },
            Stage::Paste => Action::Paste {
                onto: (d - 1) as usize,
                opacity: match t.kind_of(top.node as int) {
                    NodeKind::Group(g) => g.opacity,
                    _ => None,
                },
            },
            Stage::Unwind => Action::SetMatrix { surface: (d - 1) as usize, matrix: top.restore },
            Stage::Restore => Action::SetMatrix { surface: d as usize, matrix: top.restore },
            Stage::Finished => Action::Finish { bbox: self.frames[0].bbox },
            Stage::Failed => Action::Fail { error: Error::NoCanvas },
        }
    }

    /// `reply` answers the action that is pending at `stage`.
    pub open spec fn accepts(stage: Stage, reply: Reply) -> bool {
        match stage {
            Stage::Canvas | Stage::Create => reply is Created || reply is Failed,
            Stage::RootMatrix | Stage::GroupMatrix => reply is Matrix,
            Stage::Draw => reply is Drawn,
            Stage::Finished | Stage::Failed => false,
            _ => reply is Done,
        }
    }

    /// The open groups with the innermost replaced by `f`.
    pub open spec fn with_top(self, f: Frame) -> Seq<Frame> {
        self.frames.drop_last().push(f)
    }

    /// The state that follows when `reply` answers the pending action. A
    /// reply that does not answer it changes nothing.
    pub open spec fn step(self, t: &RenderTree, setup: Setup, reply: Reply) -> Machine {
        let top = self.top();
        if !Machine::accepts(self.stage, reply) {
            self
        } else {
            match self.stage {
                Stage::Canvas => if reply is Created {
                    Machine {
                        stage: match setup.background {
                            Some(color) => Stage::Background(color),
                            None => Stage::ViewBox,
                        },
                        ..self
                    }
                } else {
                    Machine { stage: Stage::Failed, ..self }
                },
                Stage::Background(_) => Machine { stage: Stage::ViewBox, ..self },
                Stage::ViewBox => Machine { stage: Stage::RootMatrix, ..self },
                Stage::RootMatrix => Machine::settle(t, seq![fresh_frame(0, reply->Matrix_0)]),
                Stage::Transform => Machine {
                    stage: match t.kind_of(self.child(t) as int) {
                        NodeKind::Path | NodeKind::Text | NodeKind::Image => Stage::Draw,
                        NodeKind::Group(_) => Stage::Create,
                        _ => Stage::Restore,
                    },
                    ..self
                },
                Stage::Draw => Machine {
                    frames: self.with_top(Frame { bbox: top.bbox.union(reply->Drawn_0), ..top }),
                    stage: Stage::Restore,
                },
                Stage::Create => Machine {
                    stage: if reply is Created {
                        Stage::GroupMatrix
                    } else {
                        Stage::Restore
                    },
                    ..self
                },
                Stage::GroupMatrix => Machine {
                    frames: self.frames.push(fresh_frame(self.child(t), reply->Matrix_0)),
                    stage: Stage::InitMatrix,
                },
                Stage::InitMatrix => Machine::settle(t, self.frames),
                Stage::Clip(_) => Machine { stage: Stage::Reset, ..self },
                Stage::Reset => Machine { stage: Stage::Paste, ..self },
                Stage::Paste => Machine { stage: Stage::Unwind, ..self },
                Stage::Unwind => {
                    let below = self.frames[self.depth() - 1];
                    Machine {
                        frames: self.frames.drop_last().drop_last().push(
                            Frame { bbox: below.bbox.union(top.bbox), ..below },
                        ),
                        stage: Stage::Restore,
                    }
                },
                Stage::Restore => Machine::settle(
                    t,
                    self.with_top(Frame { next: (top.next + 1) as usize, ..top }),
                ),
                Stage::Finished | Stage::Failed => self,
            }
        }
    }

    /// The state is one that rendering `t` can be in.
    pub open spec fn wf(self, t: &RenderTree, setup: Setup) -> bool {
        match self.stage {
            Stage::Canvas | Stage::Background(_) | Stage::ViewBox | Stage::RootMatrix
            | Stage::Failed => self.frames.len() == 0,
            _ => {
                &&& self.frames.len() >= 1
                &&& self.frames[0].node == 0
                &&& forall|k: int|
                    0 <= k < self.frames.len() ==> {
                        &&& (#[trigger] self.frames[k]).node < t.len()
                        &&& self.frames[k].next <= t.children_of(self.frames[k].node as int).len()
                    }
                &&& forall|k: int|
                    0 <= k < self.frames.len() - 1 ==> {
                        &&& (#[trigger] self.frames[k]).next < t.children_of(
                            self.frames[k].node as int,
                        ).len()
                        &&& self.frames[k + 1].node == t.children_of(
                            self.frames[k].node as int,
                        )[self.frames[k].next as int]
                    }
                &&& forall|k: int|
                    1 <= k < self.frames.len() ==> (#[trigger] t.kind_of(
                        self.frames[k].node as int,
                    )) is Group
                &&& match self.stage {
                    Stage::Transform | Stage::Restore => self.top().next < t.children_of(
                        self.top().node as int,
                    ).len(),
                    Stage::Draw => {
                        &&& self.top().next < t.children_of(self.top().node as int).len()
                        &&& (t.kind_of(self.child(t) as int) is Path || t.kind_of(
                            self.child(t) as int,
                        ) is Text || t.kind_of(self.child(t) as int) is Image)
                    },
                    Stage::Create | Stage::GroupMatrix => {
                        &&& self.top().next < t.children_of(self.top().node as int).len()
                        &&& t.kind_of(self.child(t) as int) is Group
                    },
                    Stage::InitMatrix => self.frames.len() >= 2,
                    Stage::Clip(_) | Stage::Reset | Stage::Paste | Stage::Unwind => {
                        &&& self.frames.len() >= 2
                        &&& self.top().next == t.children_of(self.top().node as int).len()
                    },
                    Stage::Finished => {
                        &&& self.frames.len() == 1
                        &&& self.top().next == t.children_of(self.top().node as int).len()
                    },
                    _ => true,
                }
            },
        }
    }
}

/// Every step leads from a state that rendering can be in to another.
pub proof fn lemma_step_wf(m: Machine, t: &RenderTree, setup: Setup, reply: Reply)
    requires
        t.wf(),
        m.wf(t, setup),
    ensures
        m.step(t, setup, reply).wf(t, setup),
{
    let n = m.step(t, setup, reply);
    if Machine::accepts(m.stage, reply) {
        match m.stage {
            Stage::RootMatrix => {},
            Stage::GroupMatrix => {
                assert(m.frames[m.depth()] == m.top());
                assert(m.child(t) < t.len());
            },
            Stage::Draw => {},
            Stage::InitMatrix => {},
            Stage::Unwind => {
                let below = m.frames[m.depth() - 1];
                assert(below.next < t.children_of(below.node as int).len());
            },
            Stage::Restore => {
                assert(m.frames[m.depth()] == m.top());
            },
            _ => {},
        }
    }
}

} // verus!
