//! The renderer itself: the two ways to start a picture, and the machine
//! that the caller drives by performing its actions.

use vstd::prelude::*;
use crate::geom::{Color, Rect, Size};
use crate::machine::{fresh_frame, Frame, Machine, Setup, Stage};
use crate::protocol::{Action, Error, Reply};
use crate::tree::{NodeKind, RenderTree};

verus! {

/// How the size of the picture follows from the size of the document.
#[derive(Clone, Copy, Debug, PartialEq, Eq)]
pub enum FitTo {
    /// The picture has the document's size.
    Intrinsic,
    /// The picture has this width, and its height in proportion.
    Width(i64),
    /// The picture has this height, and its width in proportion.
    Height(i64),
}

/// What the caller may choose about a picture.
#[derive(Clone, Copy, Debug, PartialEq, Eq)]
pub struct Options {
    pub fit_to: FitTo,
    /// The colour under the picture; `None` leaves the canvas transparent.
    pub background: Option<Color>,
}

/// `len * num / den`, rounded up, and no more than the largest `i64`.
pub open spec fn scaled(len: int, num: int, den: int) -> int {
    let q = (len * num + den - 1) / den;
    if q > i64::MAX {
        i64::MAX as int
    } else {
        q
    }
}

/// The size of the picture of a document of size `size` under `fit`. A
/// document without area keeps its size, and a target that is not positive
/// gives a picture without area.
pub open spec fn fit_to_spec(size: Size, fit: FitTo) -> Size {
    match fit {
        FitTo::Intrinsic => size,
        FitTo::Width(w) => if size.is_empty_or_negative_spec() {
            size
        } else if w <= 0 {
            Size { width: w, height: 0 }
        } else {
            Size { width: w, height: scaled(size.height as int, w as int, size.width as int) as i64 }
        },
        FitTo::Height(h) => if size.is_empty_or_negative_spec() {
            size
        } else if h <= 0 {
            Size { width: 0, height: h }
        } else {
            Size { width: scaled(size.width as int, h as int, size.height as int) as i64, height: h }
        },
    }
}

fn scale(len: i64, num: i64, den: i64) -> (r: i64)
    requires
        len > 0,
        num > 0,
        den > 0,
    ensures
        r == scaled(len as int, num as int, den as int),
        r > 0,
{
    assert(0 < len * num <= 0x7fff_ffff_ffff_ffff * 0x7fff_ffff_ffff_ffff) by (nonlinear_arith)
        requires
            0 < len <= 0x7fff_ffff_ffff_ffff,
            0 < num <= 0x7fff_ffff_ffff_ffff,
    ;
    let product: i128 = (len as i128) * (num as i128);
    let q: i128 = (product + (den as i128 - 1)) / (den as i128);
    assert(q > 0) by (nonlinear_arith)
        requires
            q == (product + (den - 1)) / (den as int),
            product > 0,
            den > 0,
    ;
    if q > i64::MAX as i128 {
        i64::MAX
    } else {
        q as i64
    }
}

/// Computes the size of the picture from the size of the document.
pub fn fit_to(size: Size, fit: FitTo) -> (r: Size)
    ensures
        r == fit_to_spec(size, fit),
        size.is_empty_or_negative_spec() ==> r == size,
        fit is Intrinsic ==> r == size,
{
    match fit {
        FitTo::Intrinsic => size,
        FitTo::Width(w) => {
            if size.is_empty_or_negative() {
                size
            } else if w <= 0 {
                Size { width: w, height: 0 }
            } else {
                Size { width: w, height: scale(size.height, w, size.width) }
            }
        },
        FitTo::Height(h) => {
            if size.is_empty_or_negative() {
                size
            } else if h <= 0 {
                Size { width: 0, height: h }
            } else {
                Size { width: scale(size.width, h, size.height), height: h }
            }
        },
    }
}

/// A picture in the making. The caller performs [`Renderer::action`],
/// hands the answer to [`Renderer::advance`], and goes on until the action
/// is `Finish` or `Fail`.
pub struct Renderer<'a> {
    tree: &'a RenderTree,
    view: Rect,
    background: Option<Color>,
    frames: Vec<Frame>,
    stage: Stage,
}

impl<'a> View for Renderer<'a> {
    type V = Machine;

    closed spec fn view(&self) -> Machine {
        Machine { frames: self.frames@, stage: self.stage }
    }
}

impl<'a> Renderer<'a> {
    /// The document that is rendered.
    pub closed spec fn tree(&self) -> &RenderTree {
        self.tree
    }

    pub closed spec fn setup(&self) -> Setup {
        Setup { view: self.view, background: self.background }
    }

    /// The renderer is in a state that rendering its document can be in.
    pub open spec fn wf(&self) -> bool {
        &&& self.tree().wf()
        &&& self@.wf(self.tree(), self.setup())
    }

    /// Whether rendering has come to its end, well or not.
    pub open spec fn is_over_spec(&self) -> bool {
        self@.stage is Finished || self@.stage is Failed
    }

    /// The action that the caller is to perform now.
    pub fn action(&self) -> (a: Action)
        requires
            self.wf(),
        ensures
            a == self@.pending(self.tree(), self.setup()),
    {
        let depth: usize = if self.frames.len() > 0 {
            self.frames.len() - 1
        } else {
            0
        };
        match self.stage {
            Stage::Canvas => Action::CreateCanvas { view: self.view },
            Stage::Background(color) => Action::Fill { color },
            Stage::ViewBox => Action::ApplyViewBox {
                view_box: self.tree.view_box(),
                view: self.view,
            },
            Stage::RootMatrix => Action::GetMatrix { surface: 0 },
            Stage::Transform => {
                let child: usize = self.child();
                Action::Transform { surface: depth, matrix: self.tree.transform(child).to_native() }
            },
            Stage::Draw => {
                let child: usize = self.child();
                match self.tree.kind(child) {
                    NodeKind::Text => Action::DrawText { surface: depth, node: child },
                    NodeKind::Image => Action::DrawImage { surface: depth, node: child },
                    _ => Action::DrawPath { surface: depth, node: child },
                }
            },
            Stage::Create => Action::CreateSurface { surface: depth + 1, view: self.view },
            Stage::GroupMatrix => Action::GetMatrix { surface: depth },
            Stage::InitMatrix => Action::SetMatrix {
                surface: depth,
                matrix: self.frames[depth].restore,
            },
            Stage::Clip(clip) => Action::ApplyClip {
                surface: depth,
                clip,
                bbox: self.frames[depth].bbox,
            },
            Stage::Reset => Action::ResetMatrix { surface: depth - 1 },
            Stage::Paste => {
                let opacity: Option<i64> = match self.tree.kind(self.frames[depth].node) {
                    NodeKind::Group(g) => g.opacity,
                    _ => None,
                };
                Action::Paste { onto: depth - 1, opacity }
            },
            Stage::Unwind => Action::SetMatrix {
                surface: depth - 1,
                matrix: self.frames[depth].restore,
            },
            Stage::Restore => Action::SetMatrix {
                surface: depth,
                matrix: self.frames[depth].restore,
            },
            Stage::Finished => Action::Finish { bbox: self.frames[0].bbox },
            Stage::Failed => Action::Fail { error: Error::NoCanvas },
        }
    }

    /// Whether `reply` answers the pending action.
    pub fn accepts(&self, reply: &Reply) -> (b: bool)
        ensures
            b == Machine::accepts(self@.stage, *reply),
    {
        match self.stage {
            Stage::Canvas | Stage::Create => match reply {
                Reply::Created | Reply::Failed => true,
                _ => false,
            },
            Stage::RootMatrix | Stage::GroupMatrix => match reply {
                Reply::Matrix(_) => true,
                _ => false,
            },
            Stage::Draw => match reply {
                Reply::Drawn(_) => true,
                _ => false,
            },
            Stage::Finished | Stage::Failed => false,
            _ => match reply {
                Reply::Done => true,
                _ => false,
            },
        }
    }

    /// Takes the answer to the pending action and moves on to the next.
    /// Returns whether `reply` answered the pending action; where it did
    /// not, nothing changes.
    pub fn advance(&mut self, reply: Reply) -> (accepted: bool)
        requires
            old(self).wf(),
        ensures
            final(self).wf(),
            final(self).tree() == old(self).tree(),
            final(self).setup() == old(self).setup(),
            final(self)@ == old(self)@.step(old(self).tree(), old(self).setup(), reply),
            accepted == Machine::accepts(old(self)@.stage, reply),
    {
        proof {
            crate::machine::lemma_step_wf(self@, self.tree, self.setup(), reply);
        }
        if !self.accepts(&reply) {
            return false;
        }
        match self.stage {
            Stage::Canvas => {
                self.stage = match reply {
                    Reply::Created => match self.background {
                        Some(color) => Stage::Background(color),
                        None => Stage::ViewBox,
                    },
                    _ => Stage::Failed,
                };
            },
            Stage::Background(_) => {
                self.stage = Stage::ViewBox;
            },
            Stage::ViewBox => {
                self.stage = Stage::RootMatrix;
            },
            Stage::RootMatrix => {
                if let Reply::Matrix(m) = reply {
                    self.frames.push(Frame { node: 0, next: 0, restore: m, bbox: Rect::blank() });
                    assert(self.frames@ =~= seq![fresh_frame(0, m)]);
                    self.settle();
                }
            },
            Stage::Transform => {
                let child: usize = self.child();
                self.stage = match self.tree.kind(child) {
                    NodeKind::Path | NodeKind::Text | NodeKind::Image => Stage::Draw,
                    NodeKind::Group(_) => Stage::Create,
                    _ => Stage::Restore,
                };
            },
            Stage::Draw => {
                if let Reply::Drawn(bbox) = reply {
                    let mut top: Frame = self.frames.pop().unwrap();
                    top.bbox.expand(bbox);
                    self.frames.push(top);
                    self.stage = Stage::Restore;
                }
            },
            Stage::Create => {
                self.stage = match reply {
                    Reply::Created => Stage::GroupMatrix,
                    _ => Stage::Restore,
                };
            },
            Stage::GroupMatrix => {
                if let Reply::Matrix(m) = reply {
                    let child: usize = self.child();
                    self.frames.push(Frame { node: child, next: 0, restore: m, bbox: Rect::blank() });
                    self.stage = Stage::InitMatrix;
                }
            },
            Stage::InitMatrix => {
                self.settle();
            },
            Stage::Clip(_) => {
                self.stage = Stage::Reset;
            },
            Stage::Reset => {
                self.stage = Stage::Paste;
            },
            Stage::Paste => {
                self.stage = Stage::Unwind;
            },
            Stage::Unwind => {
                let top: Frame = self.frames.pop().unwrap();
                let mut below: Frame = self.frames.pop().unwrap();
                below.bbox.expand(top.bbox);
                self.frames.push(below);
                self.stage = Stage::Restore;
            },
            Stage::Restore => {
                let mut top: Frame = self.frames.pop().unwrap();
                proof {
                    assert(top == old(self)@.top());
                    self.tree.lemma_child_count_fits(top.node as int);
                }
                top.next = top.next + 1;
                self.frames.push(top);
                self.settle();
            },
            Stage::Finished | Stage::Failed => {},
        }
        true
    }

    /// Whether rendering has come to its end, well or not.
    #[verifier::when_used_as_spec(is_over_spec)]
    pub fn is_over(&self) -> (b: bool)
        ensures
            b == self.is_over_spec(),
    {
        match self.stage {
            Stage::Finished | Stage::Failed => true,
            _ => false,
        }
    }

    /// How rendering ended: with the bounding box of the whole picture, or
    /// with the reason why there is none. `None` while it has not ended.
    pub fn outcome(&self) -> (r: Option<Result<Rect, Error>>)
        requires
            self.wf(),
        ensures
            r == match self@.stage {
                Stage::Finished => Some(Ok::<Rect, Error>(self@.frames[0].bbox)),
                Stage::Failed => Some(Err::<Rect, Error>(Error::NoCanvas)),
                _ => None,
            },
    {
        match self.stage {
            Stage::Finished => Some(Ok(self.frames[0].bbox)),
            Stage::Failed => Some(Err(Error::NoCanvas)),
            _ => None,
        }
    }

    fn child(&self) -> (c: usize)
        requires
            self.tree().wf(),
            self.frames@.len() >= 1,
            self@.top().node < self.tree().len(),
            self@.top().next < self.tree().children_of(self@.top().node as int).len(),
        ensures
            c == self@.child(self.tree()),
            c < self.tree().len(),
    {
        let top: Frame = self.frames[self.frames.len() - 1];
        self.tree.child(top.node, top.next)
    }

    fn settle(&mut self)
        requires
            old(self).tree().wf(),
            old(self).frames@.len() >= 1,
            old(self)@.top().node < old(self).tree().len(),
        ensures
            final(self)@ == Machine::settle(old(self).tree(), old(self)@.frames),
            final(self).tree() == old(self).tree(),
            final(self).setup() == old(self).setup(),
    {
        let top: Frame = self.frames[self.frames.len() - 1];
        if top.next < self.tree.child_count(top.node) {
            self.stage = Stage::Transform;
        } else if self.frames.len() == 1 {
            self.stage = Stage::Finished;
        } else {
            self.stage = match self.tree.kind(top.node) {
                NodeKind::Group(g) => match self.tree.clip(g.clip_path) {
                    Some(clip) => Stage::Clip(clip),
                    None => Stage::Reset,
                },
                _ => Stage::Reset,
            };
        }
    }
}

/// Starts a picture of `rtree` on a canvas of its own, sized and filled as
/// `opt` says. There is no canvas for a picture without area.
///
/// The renderer's first action allocates the canvas; where that fails, the
/// renderer ends with the same error.
pub fn render_to_image<'a>(rtree: &'a RenderTree, opt: &Options) -> (r: Result<
    Renderer<'a>,
    Error,
>)
    requires
        rtree.wf(),
    ensures
        r is Err <==> fit_to_spec(rtree.size_spec(), opt.fit_to).is_empty_or_negative_spec(),
        r matches Err(e) ==> e == Error::NoCanvas,
        r matches Ok(renderer) ==> {
            &&& renderer.wf()
            &&& renderer.tree() == rtree
            &&& renderer.setup() == (Setup {
                view: Rect {
                    left: 0,
                    top: 0,
                    right: fit_to_spec(rtree.size_spec(), opt.fit_to).width,
                    bottom: fit_to_spec(rtree.size_spec(), opt.fit_to).height,
                },
                background: opt.background,
            })
            &&& renderer@ == (Machine { frames: Seq::empty(), stage: Stage::Canvas })
        },
{
    let img_size: Size = fit_to(rtree.size(), opt.fit_to);
    if img_size.is_empty_or_negative() {
        return Err(Error::NoCanvas);
    }
    let img_view: Rect = Rect::from_size(img_size);
    Ok(
        Renderer {
            tree: rtree,
            view: img_view,
            background: opt.background,
            frames: Vec::new(),
            stage: Stage::Canvas,
        },
    )
}

/// Starts a picture of `rtree` on a canvas that the caller has, within
/// `img_view`.
///
/// The renderer's first action maps the document's view box into
/// `img_view`; the matrix that the canvas has after that is the one under
/// which the root's children are painted.
pub fn render_to_canvas<'a>(img_view: Rect, rtree: &'a RenderTree) -> (renderer: Renderer<'a>)
    requires
        rtree.wf(),
    ensures
        renderer.wf(),
        renderer.tree() == rtree,
        renderer.setup() == (Setup { view: img_view, background: None }),
        renderer@ == (Machine { frames: Seq::empty(), stage: Stage::ViewBox }),
{
    Renderer {
        tree: rtree,
        view: img_view,
        background: None,
        frames: Vec::new(),
        stage: Stage::ViewBox,
    }
}

} // verus!
