//! What rendering a group means, told by recursion over the tree: the
//! actions in the order in which they are to be performed, and the bounding
//! box that results, given the replies that the surfaces make.
//!
//! Replies are taken from one sequence `rs`, in which reply `k` answers the
//! `k`-th action of the whole picture; every function here is told at which
//! index its own first action stands.

use vstd::prelude::*;
use crate::geom::{Color, Matrix, Rect};
use crate::protocol::{Action, Error, Reply};
use crate::tree::{NodeKind, RenderTree};

verus! {

/// The actions that paint one child, and the child's bounding box: `None`
/// where the child paints nothing.
pub struct ChildScript {
    pub actions: Seq<Action>,
    pub bbox: Option<Rect>,
}

/// The actions that paint the children of a group from some child on, and
/// the union of their bounding boxes with what was there before.
pub struct Script {
    pub actions: Seq<Action>,
    pub bbox: Rect,
}

/// The actions by which a group that was painted on `surface` is put onto
/// the surface below under the matrix `m` that the surface below had:
/// clipped first where `clip` names a clip path, then pasted at the origin,
/// as opaque as `opacity` says.
pub open spec fn closing(
    surface: int,
    clip: Option<usize>,
    opacity: Option<i64>,
    bbox: Rect,
    m: Matrix,
) -> Seq<Action> {
    let clipping = match clip {
        Some(idx) => seq![Action::ApplyClip { surface: surface as usize, clip: idx, bbox }],
        None => Seq::<Action>::empty(),
    };
    clipping + seq![
        Action::ResetMatrix { surface: (surface - 1) as usize },
        Action::Paste { onto: (surface - 1) as usize, opacity },
        Action::SetMatrix { surface: (surface - 1) as usize, matrix: m },
    ]
}

/// Child `i` of `node`, painted onto surface `d`, the first action standing
/// at index `k`.
///
/// The child's transform is composed first. A leaf is then painted. A group
/// is painted onto a surface of its own, `d + 1`, under the matrix that
/// surface `d` has at that point, and then put onto surface `d`; where the
/// surface cannot be had, the group is left out. Any other node paints
/// nothing.
pub open spec fn child_script(
    t: &RenderTree,
    view: Rect,
    node: int,
    i: int,
    d: int,
    rs: Seq<Reply>,
    k: int,
) -> ChildScript
    decreases t.len() - node, t.children_of(node).len() - i, 0int,
{
    let c = t.children_of(node)[i];
    let compose = Action::Transform {
        surface: d as usize,
        matrix: t.transform_of(c as int).to_native_spec(),
    };
    match t.kind_of(c as int) {
        NodeKind::Path => ChildScript {
            actions: seq![compose, Action::DrawPath { surface: d as usize, node: c }],
            bbox: Some(rs[k + 1]->Drawn_0),
        },
        NodeKind::Text => ChildScript {
            actions: seq![compose, Action::DrawText { surface: d as usize, node: c }],
            bbox: Some(rs[k + 1]->Drawn_0),
        },
        NodeKind::Image => ChildScript {
            actions: seq![compose, Action::DrawImage { surface: d as usize, node: c }],
            bbox: Some(rs[k + 1]->Drawn_0),
        },
        NodeKind::Group(g) => {
            let create = Action::CreateSurface { surface: (d + 1) as usize, view };
            if rs[k + 1] is Created && node < c < t.len() {
                let m = rs[k + 2]->Matrix_0;
                let inner = children_script(t, view, c as int, 0, d + 1, m, Rect::blank_spec(), rs, k + 4);
                ChildScript {
                    actions: seq![
                        compose,
                        create,
                        Action::GetMatrix { surface: d as usize },
                        Action::SetMatrix { surface: (d + 1) as usize, matrix: m },
                    ] + inner.actions + closing(
                        d + 1,
                        t.clip_of(g.clip_path),
                        g.opacity,
                        inner.bbox,
                        m,
                    ),
                    bbox: Some(inner.bbox),
                }
            } else {
                ChildScript { actions: seq![compose, create], bbox: None }
            }
        },
        _ => ChildScript { actions: seq![compose], bbox: None },
    }
}

/// The children of `node` from child `i` on, painted onto surface `d` one
/// after the other, the first action standing at index `k`. After each child
/// the matrix of surface `d` is set back to `restore`, and the child's
/// bounding box is joined to `acc`.
pub open spec fn children_script(
    t: &RenderTree,
    view: Rect,
    node: int,
    i: int,
    d: int,
    restore: Matrix,
    acc: Rect,
    rs: Seq<Reply>,
    k: int,
) -> Script
    decreases t.len() - node, t.children_of(node).len() - i, 1int,
{
    if 0 <= i < t.children_of(node).len() {
        let child = child_script(t, view, node, i, d, rs, k);
        let rest = children_script(
            t,
            view,
            node,
            i + 1,
            d,
            restore,
            acc.union_opt(child.bbox),
            rs,
            k + child.actions.len() + 1,
        );
        Script {
            actions: child.actions + seq![
                Action::SetMatrix { surface: d as usize, matrix: restore },
            ] + rest.actions,
            bbox: rest.bbox,
        }
    } else {
        Script { actions: Seq::empty(), bbox: acc }
    }
}

/// The whole picture, painted onto a canvas that the caller has: the view
/// box is mapped into the view, the matrix that the canvas then has is
/// read, and the root's children are painted under it.
pub open spec fn canvas_script(t: &RenderTree, view: Rect, rs: Seq<Reply>, k: int) -> Script {
    let m = rs[k + 1]->Matrix_0;
    let body = children_script(t, view, 0, 0, 0, m, Rect::blank_spec(), rs, k + 2);
    Script {
        actions: seq![
            Action::ApplyViewBox { view_box: t.view_box_spec(), view },
            Action::GetMatrix { surface: 0 },
        ] + body.actions + seq![Action::Finish { bbox: body.bbox }],
        bbox: body.bbox,
    }
}

/// The whole picture, painted onto a canvas of its own: the canvas is
/// allocated, filled with the background where there is one, and painted as
/// a canvas that the caller has. Where the canvas cannot be had, nothing is
/// painted and there is no picture.
pub open spec fn image_script(
    t: &RenderTree,
    view: Rect,
    background: Option<Color>,
    rs: Seq<Reply>,
) -> Seq<Action> {
    let create = Action::CreateCanvas { view };
    if rs[0] is Created {
        match background {
            Some(color) => seq![create, Action::Fill { color }] + canvas_script(t, view, rs, 2).actions,
            None => seq![create] + canvas_script(t, view, rs, 1).actions,
        }
    } else {
        seq![create, Action::Fail { error: Error::NoCanvas }]
    }
}

} // verus!
