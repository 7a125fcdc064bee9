//! What holds of every picture: the matrix of a surface is restored after
//! each child, a group's bounding box is the union of its children's, a
//! group that cannot have its surface is left out and nothing else is, and
//! a group is clipped after its children are painted and before it is
//! pasted.

use vstd::prelude::*;
use crate::geom::{lemma_union_all_front, Matrix, Rect};
use crate::protocol::{Action, Reply};
use crate::script::{child_script, children_script, closing};
use crate::tree::{NodeKind, RenderTree};

verus! {

/// What one action does to the matrix `before` of `surface`, as far as the
/// action itself tells: a matrix that is set is known, a matrix that is
/// composed onto, reset or new is not (`None`), and any other action leaves
/// the matrix as it was.
pub open spec fn matrix_after_one(action: Action, surface: usize, before: Option<Matrix>) -> Option<
    Matrix,
> {
    match action {
        Action::SetMatrix { surface: s, matrix } => if s == surface {
            Some(matrix)
        } else {
            before
        },
        Action::Transform { surface: s, .. } => if s == surface {
            None
        } else {
            before
        },
        Action::ResetMatrix { surface: s } => if s == surface {
            None
        } else {
            before
        },
        Action::CreateSurface { surface: s, .. } => if s == surface {
            None
        } else {
            before
        },
        Action::ApplyViewBox { .. } | Action::CreateCanvas { .. } => if surface == 0 {
            None
        } else {
            before
        },
        _ => before,
    }
}

/// The matrix of `surface` after `actions`, where it was `before`.
pub open spec fn matrix_after(actions: Seq<Action>, surface: usize, before: Option<Matrix>) -> Option<
    Matrix,
>
    decreases actions.len(),
{
    if actions.len() == 0 {
        before
    } else {
        matrix_after_one(actions.last(), surface, matrix_after(actions.drop_last(), surface, before))
    }
}

/// The matrix after two runs of actions is the one after the second run,
/// begun with the matrix after the first.
proof fn lemma_matrix_after_concat(
    a: Seq<Action>,
    b: Seq<Action>,
    surface: usize,
    before: Option<Matrix>,
)
    ensures
        matrix_after(a + b, surface, before) == matrix_after(
            b,
            surface,
            matrix_after(a, surface, before),
        ),
    decreases b.len(),
{
    if b.len() == 0 {
        assert(a + b =~= a);
    } else {
        assert((a + b).drop_last() =~= a + b.drop_last());
        assert((a + b).last() == b.last());
        lemma_matrix_after_concat(a, b.drop_last(), surface, before);
    }
}

/// After a child is painted and the matrix is set back, the group's surface
/// has the matrix `restore`, whatever the child was and whatever matrix the
/// surface had before.
pub proof fn lemma_matrix_restored_after_child(
    t: &RenderTree,
    view: Rect,
    node: int,
    i: int,
    d: usize,
    restore: Matrix,
    rs: Seq<Reply>,
    k: int,
    before: Option<Matrix>,
)
    ensures
        matrix_after(
            child_script(t, view, node, i, d as int, rs, k).actions.push(
                Action::SetMatrix { surface: d, matrix: restore },
            ),
            d,
            before,
        ) == Some(restore),
{
    let actions = child_script(t, view, node, i, d as int, rs, k).actions.push(
        Action::SetMatrix { surface: d, matrix: restore },
    );
    assert(actions.last() == Action::SetMatrix { surface: d, matrix: restore });
}

/// A surface that has the matrix `restore` before the children of a group
/// are painted onto it has it after any number of them: no child's
/// transform reaches the child after it.
pub proof fn lemma_matrix_restored(
    t: &RenderTree,
    view: Rect,
    node: int,
    i: int,
    d: usize,
    restore: Matrix,
    acc: Rect,
    rs: Seq<Reply>,
    k: int,
)
    ensures
        matrix_after(
            children_script(t, view, node, i, d as int, restore, acc, rs, k).actions,
            d,
            Some(restore),
        ) == Some(restore),
    decreases t.children_of(node).len() - i,
{
    if 0 <= i < t.children_of(node).len() {
        let child = child_script(t, view, node, i, d as int, rs, k);
        let close = Action::SetMatrix { surface: d, matrix: restore };
        let rest = children_script(
            t,
            view,
            node,
            i + 1,
            d as int,
            restore,
            acc.union_opt(child.bbox),
            rs,
            k + child.actions.len() + 1,
        );
        lemma_matrix_restored_after_child(t, view, node, i, d, restore, rs, k, Some(restore));
        assert(child.actions + seq![close] =~= child.actions.push(close));
        lemma_matrix_restored(
            t,
            view,
            node,
            i + 1,
            d,
            restore,
            acc.union_opt(child.bbox),
            rs,
            k + child.actions.len() + 1,
        );
        lemma_matrix_after_concat(child.actions + seq![close], rest.actions, d, Some(restore));
    }
}

/// The bounding boxes of the children of `node` from child `i` on, in paint
/// order; a child that paints nothing has none.
pub open spec fn child_boxes(
    t: &RenderTree,
    view: Rect,
    node: int,
    i: int,
    d: int,
    rs: Seq<Reply>,
    k: int,
) -> Seq<Rect>
    decreases t.children_of(node).len() - i,
{
    if 0 <= i < t.children_of(node).len() {
        let child = child_script(t, view, node, i, d, rs, k);
        let rest = child_boxes(t, view, node, i + 1, d, rs, k + child.actions.len() + 1);
        match child.bbox {
            Some(b) => seq![b] + rest,
            None => rest,
        }
    } else {
        Seq::empty()
    }
}

/// A group's bounding box is the union of its children's bounding boxes,
/// joined to what was there before. A group without children has the box
/// that was there before: the blank box, which covers no area, where it
/// starts from nothing.
pub proof fn lemma_bbox_is_union(
    t: &RenderTree,
    view: Rect,
    node: int,
    i: int,
    d: int,
    restore: Matrix,
    acc: Rect,
    rs: Seq<Reply>,
    k: int,
)
    ensures
        children_script(t, view, node, i, d, restore, acc, rs, k).bbox == acc.union(
            Rect::union_all(child_boxes(t, view, node, i, d, rs, k)),
        ),
        !(0 <= i < t.children_of(node).len()) ==> children_script(
            t,
            view,
            node,
            i,
            d,
            restore,
            acc,
            rs,
            k,
        ).bbox == acc,
        acc.within(children_script(t, view, node, i, d, restore, acc, rs, k).bbox),
    decreases t.children_of(node).len() - i,
{
    if 0 <= i < t.children_of(node).len() {
        let child = child_script(t, view, node, i, d, rs, k);
        let next = k + child.actions.len() + 1;
        let rest = child_boxes(t, view, node, i + 1, d, rs, next);
        lemma_bbox_is_union(t, view, node, i + 1, d, restore, acc.union_opt(child.bbox), rs, next);
        match child.bbox {
            Some(b) => {
                lemma_union_all_front(b, rest);
            },
            None => {},
        }
    }
}

/// A group whose surface cannot be had is left out, and nothing else is:
/// after its transform and the attempt there is no action for it, it adds
/// nothing to the bounding box, and the children after it are painted as
/// they are without it.
pub proof fn lemma_failed_group_is_left_out(
    t: &RenderTree,
    view: Rect,
    node: int,
    i: int,
    d: int,
    restore: Matrix,
    acc: Rect,
    rs: Seq<Reply>,
    k: int,
)
    requires
        0 <= i < t.children_of(node).len(),
        t.kind_of(t.children_of(node)[i] as int) is Group,
        !(rs[k + 1] is Created),
    ensures
        child_script(t, view, node, i, d, rs, k).actions == seq![
            Action::Transform {
                surface: d as usize,
                matrix: t.transform_of(t.children_of(node)[i] as int).to_native_spec(),
            },
            Action::CreateSurface { surface: (d + 1) as usize, view },
        ],
        child_script(t, view, node, i, d, rs, k).bbox is None,
        children_script(t, view, node, i, d, restore, acc, rs, k).actions == child_script(
            t,
            view,
            node,
            i,
            d,
            rs,
            k,
        ).actions + seq![Action::SetMatrix { surface: d as usize, matrix: restore }]
            + children_script(t, view, node, i + 1, d, restore, acc, rs, k + 3).actions,
        children_script(t, view, node, i, d, restore, acc, rs, k).bbox == children_script(
            t,
            view,
            node,
            i + 1,
            d,
            restore,
            acc,
            rs,
            k + 3,
        ).bbox,
{
}

/// A group is put onto the surface below in this order: it is clipped,
/// where it names a clip path, with the bounding box of its children; the
/// matrix of the surface below is reset; the group is pasted with its own
/// opacity; and the matrix of the surface below is put back. A group that
/// names no clip path is not clipped.
pub proof fn lemma_closing_order(
    surface: int,
    clip: Option<usize>,
    opacity: Option<i64>,
    bbox: Rect,
    m: Matrix,
)
    ensures
        clip matches Some(idx) ==> closing(surface, clip, opacity, bbox, m) == seq![
            Action::ApplyClip { surface: surface as usize, clip: idx, bbox },
            Action::ResetMatrix { surface: (surface - 1) as usize },
            Action::Paste { onto: (surface - 1) as usize, opacity },
            Action::SetMatrix { surface: (surface - 1) as usize, matrix: m },
        ],
        clip is None ==> closing(surface, clip, opacity, bbox, m) == seq![
            Action::ResetMatrix { surface: (surface - 1) as usize },
            Action::Paste { onto: (surface - 1) as usize, opacity },
            Action::SetMatrix { surface: (surface - 1) as usize, matrix: m },
        ],
{
    match clip {
        Some(idx) => {
            assert(closing(surface, clip, opacity, bbox, m) =~= seq![
                Action::ApplyClip { surface: surface as usize, clip: idx, bbox },
                Action::ResetMatrix { surface: (surface - 1) as usize },
                Action::Paste { onto: (surface - 1) as usize, opacity },
                Action::SetMatrix { surface: (surface - 1) as usize, matrix: m },
            ]);
        },
        None => {
            assert(closing(surface, clip, opacity, bbox, m) =~= seq![
                Action::ResetMatrix { surface: (surface - 1) as usize },
                Action::Paste { onto: (surface - 1) as usize, opacity },
                Action::SetMatrix { surface: (surface - 1) as usize, matrix: m },
            ]);
        },
    }
}

/// `action`, asked of the surface one above the surface it names.
pub open spec fn raised(action: Action) -> Action {
    match action {
        Action::GetMatrix { surface } => Action::GetMatrix { surface: (surface + 1) as usize },
        Action::SetMatrix { surface, matrix } => Action::SetMatrix {
            surface: (surface + 1) as usize,
            matrix,
        },
        Action::ResetMatrix { surface } => Action::ResetMatrix { surface: (surface + 1) as usize },
        Action::Transform { surface, matrix } => Action::Transform {
            surface: (surface + 1) as usize,
            matrix,
        },
        Action::DrawPath { surface, node } => Action::DrawPath {
            surface: (surface + 1) as usize,
            node,
        },
        Action::DrawText { surface, node } => Action::DrawText {
            surface: (surface + 1) as usize,
            node,
        },
        Action::DrawImage { surface, node } => Action::DrawImage {
            surface: (surface + 1) as usize,
            node,
        },
        Action::CreateSurface { surface, view } => Action::CreateSurface {
            surface: (surface + 1) as usize,
            view,
        },
        Action::ApplyClip { surface, clip, bbox } => Action::ApplyClip {
            surface: (surface + 1) as usize,
            clip,
            bbox,
        },
        Action::Paste { onto, opacity } => Action::Paste { onto: (onto + 1) as usize, opacity },
        other => other,
    }
}

/// Each of `actions`, asked of the surface one above.
pub open spec fn raised_all(actions: Seq<Action>) -> Seq<Action> {
    actions.map_values(|a: Action| raised(a))
}

/// Raising goes action by action.
proof fn lemma_raised_concat(a: Seq<Action>, b: Seq<Action>)
    ensures
        raised_all(a + b) =~= raised_all(a) + raised_all(b),
{
}

/// One child takes the same actions on the surface one above.
proof fn lemma_child_raised(
    t: &RenderTree,
    view: Rect,
    node: int,
    i: int,
    d: int,
    rs: Seq<Reply>,
    k: int,
)
    requires
        0 <= node <= t.len(),
        0 <= d,
        d + 2 + (t.len() - node) <= usize::MAX,
    ensures
        child_script(t, view, node, i, d + 1, rs, k).actions == raised_all(
            child_script(t, view, node, i, d, rs, k).actions,
        ),
        child_script(t, view, node, i, d + 1, rs, k).bbox == child_script(
            t,
            view,
            node,
            i,
            d,
            rs,
            k,
        ).bbox,
    decreases t.len() - node, t.children_of(node).len() - i, 0int,
{
    let c = t.children_of(node)[i];
    let low = child_script(t, view, node, i, d, rs, k);
    let high = child_script(t, view, node, i, d + 1, rs, k);
    match t.kind_of(c as int) {
        NodeKind::Group(g) => {
            if rs[k + 1] is Created && node < c < t.len() {
                let m = rs[k + 2]->Matrix_0;
                let inner_low = children_script(
                    t,
                    view,
                    c as int,
                    0,
                    d + 1,
                    m,
                    Rect::blank_spec(),
                    rs,
                    k + 4,
                );
                let inner_high = children_script(
                    t,
                    view,
                    c as int,
                    0,
                    d + 2,
                    m,
                    Rect::blank_spec(),
                    rs,
                    k + 4,
                );
                lemma_children_raised(t, view, c as int, 0, d + 1, m, Rect::blank_spec(), rs, k + 4);
                let clip = t.clip_of(g.clip_path);
                let head_low = low.actions.subrange(0, 4);
                let head_high = high.actions.subrange(0, 4);
                let tail_low = closing(d + 1, clip, g.opacity, inner_low.bbox, m);
                let tail_high = closing(d + 2, clip, g.opacity, inner_high.bbox, m);
                assert(low.actions =~= head_low + inner_low.actions + tail_low);
                assert(high.actions =~= head_high + inner_high.actions + tail_high);
                assert(head_high =~= raised_all(head_low));
                lemma_closing_order(d + 1, clip, g.opacity, inner_low.bbox, m);
                lemma_closing_order(d + 2, clip, g.opacity, inner_high.bbox, m);
                assert(tail_high =~= raised_all(tail_low));
                lemma_raised_concat(head_low, inner_low.actions);
                lemma_raised_concat(head_low + inner_low.actions, tail_low);
            } else {
                assert(high.actions =~= raised_all(low.actions));
            }
        },
        _ => {
            assert(high.actions =~= raised_all(low.actions));
        },
    }
}

/// What is asked of a surface for the children of a node does not depend on
/// which surface it is: painted onto the surface one above, under the same
/// matrix, the children take the same actions, each asked of the surface
/// one above, and have the same bounding box.
pub proof fn lemma_children_raised(
    t: &RenderTree,
    view: Rect,
    node: int,
    i: int,
    d: int,
    restore: Matrix,
    acc: Rect,
    rs: Seq<Reply>,
    k: int,
)
    requires
        0 <= node <= t.len(),
        0 <= d,
        d + 2 + (t.len() - node) <= usize::MAX,
    ensures
        children_script(t, view, node, i, d + 1, restore, acc, rs, k).actions == raised_all(
            children_script(t, view, node, i, d, restore, acc, rs, k).actions,
        ),
        children_script(t, view, node, i, d + 1, restore, acc, rs, k).bbox == children_script(
            t,
            view,
            node,
            i,
            d,
            restore,
            acc,
            rs,
            k,
        ).bbox,
    decreases t.len() - node, t.children_of(node).len() - i, 1int,
{
    let low = children_script(t, view, node, i, d, restore, acc, rs, k);
    let high = children_script(t, view, node, i, d + 1, restore, acc, rs, k);
    if 0 <= i < t.children_of(node).len() {
        lemma_child_raised(t, view, node, i, d, rs, k);
        let child_low = child_script(t, view, node, i, d, rs, k);
        let child_high = child_script(t, view, node, i, d + 1, rs, k);
        let next = k + child_low.actions.len() + 1;
        assert(child_high.actions.len() == child_low.actions.len());
        let acc1 = acc.union_opt(child_low.bbox);
        lemma_children_raised(t, view, node, i + 1, d, restore, acc1, rs, next);
        let rest_low = children_script(t, view, node, i + 1, d, restore, acc1, rs, next);
        let rest_high = children_script(t, view, node, i + 1, d + 1, restore, acc1, rs, next);
        let close_low = seq![Action::SetMatrix { surface: d as usize, matrix: restore }];
        let close_high = seq![Action::SetMatrix { surface: (d + 1) as usize, matrix: restore }];
        assert(close_high =~= raised_all(close_low));
        lemma_raised_concat(child_low.actions, close_low);
        lemma_raised_concat(child_low.actions + close_low, rest_low.actions);
        assert(low.actions =~= child_low.actions + close_low + rest_low.actions);
        assert(high.actions =~= child_high.actions + close_high + rest_high.actions);
    } else {
        assert(high.actions =~= raised_all(low.actions));
    }
}

/// A group is painted as its children are without it: what is asked of the
/// group's own surface is what painting the children directly onto the
/// surface below would ask of that surface, under the matrix that the
/// surface below has when the group begins; and the group's bounding box is
/// the one that the children would have there. Without opacity and without
/// a clip path, the group's surface is then pasted as it is.
pub proof fn lemma_group_paints_as_ungrouped(
    t: &RenderTree,
    view: Rect,
    node: int,
    i: int,
    d: int,
    rs: Seq<Reply>,
    k: int,
)
    requires
        t.wf(),
        0 <= node < t.len(),
        0 <= i < t.children_of(node).len(),
        0 <= d,
        d + 2 + (t.len() - node) <= usize::MAX,
        t.kind_of(t.children_of(node)[i] as int) is Group,
        rs[k + 1] is Created,
    ensures
        ({
            let c = t.children_of(node)[i];
            let g = t.kind_of(c as int)->Group_0;
            let m = rs[k + 2]->Matrix_0;
            let direct = children_script(t, view, c as int, 0, d, m, Rect::blank_spec(), rs, k + 4);
            let child = child_script(t, view, node, i, d, rs, k);
            &&& child.actions == seq![
                Action::Transform {
                    surface: d as usize,
                    matrix: t.transform_of(c as int).to_native_spec(),
                },
                Action::CreateSurface { surface: (d + 1) as usize, view },
                Action::GetMatrix { surface: d as usize },
                Action::SetMatrix { surface: (d + 1) as usize, matrix: m },
            ] + raised_all(direct.actions) + closing(
                d + 1,
                t.clip_of(g.clip_path),
                g.opacity,
                direct.bbox,
                m,
            )
            &&& child.bbox == Some(direct.bbox)
            &&& g.opacity is None && g.clip_path is None ==> closing(
                d + 1,
                t.clip_of(g.clip_path),
                g.opacity,
                direct.bbox,
                m,
            ) == seq![
                Action::ResetMatrix { surface: d as usize },
                Action::Paste { onto: d as usize, opacity: None },
                Action::SetMatrix { surface: d as usize, matrix: m },
            ]
        }),
{
    let c = t.children_of(node)[i];
    let g = t.kind_of(c as int)->Group_0;
    let m = rs[k + 2]->Matrix_0;
    assert(node < c < t.len());
    lemma_children_raised(t, view, c as int, 0, d, m, Rect::blank_spec(), rs, k + 4);
    let direct = children_script(t, view, c as int, 0, d, m, Rect::blank_spec(), rs, k + 4);
    lemma_closing_order(d + 1, t.clip_of(g.clip_path), g.opacity, direct.bbox, m);
}

/// How many offscreen surfaces there are after `actions`, the first of
/// which stands at index `k`, where there were `before`: a surface that is
/// allocated is one more, a surface that is pasted is released.
pub open spec fn surfaces_after(actions: Seq<Action>, rs: Seq<Reply>, k: int, before: int) -> int
    decreases actions.len(),
{
    if actions.len() == 0 {
        before
    } else {
        let earlier = surfaces_after(actions.drop_last(), rs, k, before);
        match actions.last() {
            Action::CreateSurface { .. } => if rs[k + actions.len() - 1] is Created {
                earlier + 1
            } else {
                earlier
            },
            Action::Paste { .. } => earlier - 1,
            _ => earlier,
        }
    }
}

/// The surfaces after two runs of actions are those after the second run,
/// begun with those after the first.
proof fn lemma_surfaces_concat(a: Seq<Action>, b: Seq<Action>, rs: Seq<Reply>, k: int, n: int)
    ensures
        surfaces_after(a + b, rs, k, n) == surfaces_after(
            b,
            rs,
            k + a.len(),
            surfaces_after(a, rs, k, n),
        ),
    decreases b.len(),
{
    if b.len() == 0 {
        assert(a + b =~= a);
    } else {
        assert((a + b).drop_last() =~= a + b.drop_last());
        assert((a + b).last() == b.last());
        lemma_surfaces_concat(a, b.drop_last(), rs, k, n);
    }
}

/// Painting one child leaves no surface behind.
proof fn lemma_child_surfaces(
    t: &RenderTree,
    view: Rect,
    node: int,
    i: int,
    d: int,
    rs: Seq<Reply>,
    k: int,
    n: int,
)
    requires
        t.wf(),
        0 <= node < t.len(),
        0 <= i < t.children_of(node).len(),
    ensures
        surfaces_after(child_script(t, view, node, i, d, rs, k).actions, rs, k, n) == n,
    decreases t.len() - node, t.children_of(node).len() - i, 0int,
{
    let c = t.children_of(node)[i];
    let child = child_script(t, view, node, i, d, rs, k);
    assert(node < c < t.len());
    reveal_with_fuel(surfaces_after, 5);
    if t.kind_of(c as int) is Group && rs[k + 1] is Created {
        let g = t.kind_of(c as int)->Group_0;
        let m = rs[k + 2]->Matrix_0;
        let inner = children_script(t, view, c as int, 0, d + 1, m, Rect::blank_spec(), rs, k + 4);
        let head = child.actions.subrange(0, 4);
        let tail = closing(d + 1, t.clip_of(g.clip_path), g.opacity, inner.bbox, m);
        assert(child.actions =~= head + inner.actions + tail);
        assert(head.drop_last() =~= child.actions.subrange(0, 3));
        assert(head.drop_last().drop_last() =~= child.actions.subrange(0, 2));
        assert(head.drop_last().drop_last().drop_last() =~= child.actions.subrange(0, 1));
        assert(head.drop_last().drop_last().drop_last().drop_last() =~= Seq::<Action>::empty());
        assert(surfaces_after(head, rs, k, n) == n + 1);
        lemma_children_surfaces(t, view, c as int, 0, d + 1, m, Rect::blank_spec(), rs, k + 4, n + 1);
        lemma_closing_order(d + 1, t.clip_of(g.clip_path), g.opacity, inner.bbox, m);
        let e = k + 4 + inner.actions.len();
        match t.clip_of(g.clip_path) {
            Some(idx) => {
                assert(tail.drop_last() =~= tail.subrange(0, 3));
                assert(tail.drop_last().drop_last() =~= tail.subrange(0, 2));
                assert(tail.drop_last().drop_last().drop_last() =~= tail.subrange(0, 1));
                assert(tail.drop_last().drop_last().drop_last().drop_last() =~= Seq::<
                    Action,
                >::empty());
                assert(surfaces_after(tail, rs, e, n + 1) == n);
            },
            None => {
                assert(tail.drop_last() =~= tail.subrange(0, 2));
                assert(tail.drop_last().drop_last() =~= tail.subrange(0, 1));
                assert(tail.drop_last().drop_last().drop_last() =~= Seq::<Action>::empty());
                assert(surfaces_after(tail, rs, e, n + 1) == n);
            },
        }
        lemma_surfaces_concat(head, inner.actions, rs, k, n);
        lemma_surfaces_concat(head + inner.actions, tail, rs, k, n);
    } else {
        let a = child.actions;
        assert(a.len() <= 2);
        if a.len() == 2 {
            assert(a.drop_last().drop_last() =~= Seq::<Action>::empty());
        } else {
            assert(a.drop_last() =~= Seq::<Action>::empty());
        }
    }
}

/// Painting the children of a group leaves no surface behind: every
/// offscreen surface that is allocated for a group among them is pasted and
/// released before the group's parent goes on, and none is pasted twice.
pub proof fn lemma_children_surfaces(
    t: &RenderTree,
    view: Rect,
    node: int,
    i: int,
    d: int,
    restore: Matrix,
    acc: Rect,
    rs: Seq<Reply>,
    k: int,
    n: int,
)
    requires
        t.wf(),
        0 <= node < t.len(),
    ensures
        surfaces_after(
            children_script(t, view, node, i, d, restore, acc, rs, k).actions,
            rs,
            k,
            n,
        ) == n,
    decreases t.len() - node, t.children_of(node).len() - i, 1int,
{
    if 0 <= i < t.children_of(node).len() {
        let child = child_script(t, view, node, i, d, rs, k);
        let close = seq![Action::SetMatrix { surface: d as usize, matrix: restore }];
        let next = k + child.actions.len() + 1;
        let rest = children_script(
            t,
            view,
            node,
            i + 1,
            d,
            restore,
            acc.union_opt(child.bbox),
            rs,
            next,
        );
        lemma_child_surfaces(t, view, node, i, d, rs, k, n);
        lemma_children_surfaces(
            t,
            view,
            node,
            i + 1,
            d,
            restore,
            acc.union_opt(child.bbox),
            rs,
            next,
            n,
        );
        assert(close.drop_last() =~= Seq::<Action>::empty());
        assert(surfaces_after(close, rs, k + child.actions.len(), n) == n) by {
            reveal_with_fuel(surfaces_after, 2);
        }
        lemma_surfaces_concat(child.actions, close, rs, k, n);
        lemma_surfaces_concat(child.actions + close, rest.actions, rs, k, n);
    }
}

} // verus!
