//! The machine does what the scripts say: driven by replies that answer
//! its actions, it asks for the script's actions, one after the other, and
//! ends with the script's bounding box.

use vstd::prelude::*;
use crate::geom::Rect;
use crate::machine::{fresh_frame, Frame, Machine, Setup, Stage};
use crate::protocol::{Action, Reply};
use crate::script::{canvas_script, child_script, children_script, closing, image_script};
use crate::tree::{NodeKind, RenderTree};

verus! {

/// The state that the machine is in after it started in `m0` and was handed
/// the first `j` replies of `rs`.
#[verifier::opaque]
pub open spec fn state_after(
    m0: Machine,
    t: &RenderTree,
    setup: Setup,
    rs: Seq<Reply>,
    j: int,
) -> Machine
    decreases j,
{
    if j <= 0 {
        m0
    } else {
        state_after(m0, t, setup, rs, j - 1).step(t, setup, rs[j - 1])
    }
}

/// Each of the replies from index `lo` up to index `hi` answers the action
/// that is pending when it comes.
#[verifier::opaque]
pub open spec fn answered(
    m0: Machine,
    t: &RenderTree,
    setup: Setup,
    rs: Seq<Reply>,
    lo: int,
    hi: int,
) -> bool {
    forall|j: int|
        lo <= j < hi ==> Machine::accepts(
            (#[trigger] state_after(m0, t, setup, rs, j)).stage,
            rs[j],
        )
}

/// From the `k`-th action on, the machine asks for `actions`, in this order.
#[verifier::opaque]
pub open spec fn performs(
    m0: Machine,
    t: &RenderTree,
    setup: Setup,
    rs: Seq<Reply>,
    k: int,
    actions: Seq<Action>,
) -> bool {
    forall|j: int|
        k <= j < k + actions.len() ==> (#[trigger] state_after(m0, t, setup, rs, j)).pending(
            t,
            setup,
        ) == actions[j - k]
}

/// The open groups `frames` with the innermost replaced by `f`.
pub open spec fn replace_top(frames: Seq<Frame>, f: Frame) -> Seq<Frame> {
    frames.drop_last().push(f)
}

/// Reply `j` answers the action that is pending in `s`, and leads on from
/// there.
proof fn lemma_go(
    m0: Machine,
    t: &RenderTree,
    setup: Setup,
    rs: Seq<Reply>,
    lo: int,
    hi: int,
    j: int,
    s: Machine,
)
    requires
        answered(m0, t, setup, rs, lo, hi),
        0 <= lo <= j < hi,
        state_after(m0, t, setup, rs, j) == s,
    ensures
        Machine::accepts(s.stage, rs[j]),
        state_after(m0, t, setup, rs, j + 1) == s.step(t, setup, rs[j]),
{
    reveal(state_after);
    reveal(answered);
}

/// Replies that are answered over a range are answered over each part of it.
proof fn lemma_answered_within(
    m0: Machine,
    t: &RenderTree,
    setup: Setup,
    rs: Seq<Reply>,
    lo: int,
    hi: int,
    from: int,
    to: int,
)
    requires
        answered(m0, t, setup, rs, lo, hi),
        lo <= from,
        to <= hi,
    ensures
        answered(m0, t, setup, rs, from, to),
{
    reveal(answered);
}

/// Actions asked for one run after the other are asked for in a row.
proof fn lemma_performs_concat(
    m0: Machine,
    t: &RenderTree,
    setup: Setup,
    rs: Seq<Reply>,
    k: int,
    a: Seq<Action>,
    b: Seq<Action>,
)
    requires
        performs(m0, t, setup, rs, k, a),
        performs(m0, t, setup, rs, k + a.len(), b),
    ensures
        performs(m0, t, setup, rs, k, a + b),
{
    reveal(performs);
    assert forall|j: int| k <= j < k + (a + b).len() implies (#[trigger] state_after(
        m0,
        t,
        setup,
        rs,
        j,
    )).pending(t, setup) == (a + b)[j - k] by {
        if j >= k + a.len() {
            assert((a + b)[j - k] == b[j - k - a.len()]);
        }
    }
}

/// No actions are asked for in no time.
proof fn lemma_performs_none(m0: Machine, t: &RenderTree, setup: Setup, rs: Seq<Reply>, k: int)
    ensures
        performs(m0, t, setup, rs, k, Seq::empty()),
{
    reveal(performs);
}

/// The action that is pending is the one asked for.
proof fn lemma_performs_one(
    m0: Machine,
    t: &RenderTree,
    setup: Setup,
    rs: Seq<Reply>,
    k: int,
    a: Action,
)
    requires
        state_after(m0, t, setup, rs, k).pending(t, setup) == a,
    ensures
        performs(m0, t, setup, rs, k, seq![a]),
{
    reveal(performs);
}

/// One more action after those that are known.
proof fn lemma_performs_push(
    m0: Machine,
    t: &RenderTree,
    setup: Setup,
    rs: Seq<Reply>,
    k: int,
    a: Seq<Action>,
    last: Action,
)
    requires
        performs(m0, t, setup, rs, k, a),
        state_after(m0, t, setup, rs, k + a.len()).pending(t, setup) == last,
    ensures
        performs(m0, t, setup, rs, k, a.push(last)),
{
    lemma_performs_one(m0, t, setup, rs, k + a.len(), last);
    lemma_performs_concat(m0, t, setup, rs, k, a, seq![last]);
    assert(a + seq![last] =~= a.push(last));
}

/// The machine stands before the next child of the innermost of the open
/// groups `frames`, or before the end of that group, and is about to ask
/// for the `k`-th action.
pub open spec fn stands_at(
    m0: Machine,
    t: &RenderTree,
    setup: Setup,
    rs: Seq<Reply>,
    k: int,
    frames: Seq<Frame>,
) -> bool {
    &&& t.wf()
    &&& k >= 0
    &&& frames.len() >= 1
    &&& frames.last().node < t.len()
    &&& frames.last().next <= t.children_of(frames.last().node as int).len()
    &&& state_after(m0, t, setup, rs, k) == Machine::settle(t, frames)
}

/// The state in which the innermost of the open groups `frames` has painted
/// a child with the bounding box `bbox` and is about to restore its matrix.
pub open spec fn child_done(frames: Seq<Frame>, bbox: Option<Rect>) -> Machine {
    let top = frames.last();
    Machine {
        frames: replace_top(frames, Frame { bbox: top.bbox.union_opt(bbox), ..top }),
        stage: Stage::Restore,
    }
}

/// The state in which the innermost of the open groups `frames` has painted
/// all its children, with the bounding box `bbox`.
pub open spec fn group_done(t: &RenderTree, frames: Seq<Frame>, bbox: Rect) -> Machine {
    let top = frames.last();
    Machine::settle(
        t,
        replace_top(
            frames,
            Frame { next: t.children_of(top.node as int).len() as usize, bbox, ..top },
        ),
    )
}

/// A child that is no group, or a group whose surface could not be had.
proof fn lemma_plain_child(
    m0: Machine,
    t: &RenderTree,
    setup: Setup,
    rs: Seq<Reply>,
    k: int,
    frames: Seq<Frame>,
    hi: int,
)
    requires
        stands_at(m0, t, setup, rs, k, frames),
        frames.last().next < t.children_of(frames.last().node as int).len(),
        !(t.kind_of(
            t.children_of(frames.last().node as int)[frames.last().next as int] as int,
        ) is Group && rs[k + 1] is Created),
        answered(m0, t, setup, rs, k, hi),
        hi == k + child_script(
            t,
            setup.view,
            frames.last().node as int,
            frames.last().next as int,
            frames.len() - 1,
            rs,
            k,
        ).actions.len(),
    ensures
        ({
            let child = child_script(
                t,
                setup.view,
                frames.last().node as int,
                frames.last().next as int,
                frames.len() - 1,
                rs,
                k,
            );
            &&& performs(m0, t, setup, rs, k, child.actions)
            &&& state_after(m0, t, setup, rs, hi) == child_done(frames, child.bbox)
        }),
{
    let top = frames.last();
    let n = top.node as int;
    let i = top.next as int;
    let d = frames.len() - 1;
    let c = t.children_of(n)[i];
    let child = child_script(t, setup.view, n, i, d, rs, k);
    let s0 = Machine { frames, stage: Stage::Transform };
    assert(Machine::settle(t, frames) == s0);
    assert(s0.child(t) == c);
    assert(child.actions.len() >= 1);
    lemma_go(m0, t, setup, rs, k, hi, k, s0);
    lemma_performs_one(m0, t, setup, rs, k, s0.pending(t, setup));
    let s1 = state_after(m0, t, setup, rs, k + 1);
    assert(replace_top(frames, top) =~= frames);
    match t.kind_of(c as int) {
        NodeKind::Path | NodeKind::Text | NodeKind::Image => {
            assert(s1 == Machine { frames, stage: Stage::Draw });
            assert(child.actions =~= seq![s0.pending(t, setup)].push(s1.pending(t, setup)));
            lemma_go(m0, t, setup, rs, k, hi, k + 1, s1);
            lemma_performs_push(m0, t, setup, rs, k, seq![s0.pending(t, setup)], s1.pending(t, setup));
        },
        NodeKind::Group(g) => {
            assert(s1 == Machine { frames, stage: Stage::Create });
            assert(child.actions =~= seq![s0.pending(t, setup)].push(s1.pending(t, setup)));
            lemma_go(m0, t, setup, rs, k, hi, k + 1, s1);
            lemma_performs_push(m0, t, setup, rs, k, seq![s0.pending(t, setup)], s1.pending(t, setup));
        },
        _ => {
            assert(child.actions =~= seq![s0.pending(t, setup)]);
        },
    }
}

/// The four actions that open a group whose surface could be had.
pub open spec fn opening(t: &RenderTree, view: Rect, c: usize, d: int, m: crate::geom::Matrix) -> Seq<
    Action,
> {
    seq![
        Action::Transform { surface: d as usize, matrix: t.transform_of(c as int).to_native_spec() },
        Action::CreateSurface { surface: (d + 1) as usize, view },
        Action::GetMatrix { surface: d as usize },
        Action::SetMatrix { surface: (d + 1) as usize, matrix: m },
    ]
}

/// Before a group whose surface can be had, the machine asks for the four
/// opening actions and then stands before the group's first child.
proof fn lemma_open_group(
    m0: Machine,
    t: &RenderTree,
    setup: Setup,
    rs: Seq<Reply>,
    k: int,
    frames: Seq<Frame>,
    hi: int,
)
    requires
        stands_at(m0, t, setup, rs, k, frames),
        frames.last().next < t.children_of(frames.last().node as int).len(),
        t.kind_of(
            t.children_of(frames.last().node as int)[frames.last().next as int] as int,
        ) is Group,
        rs[k + 1] is Created,
        answered(m0, t, setup, rs, k, hi),
        hi >= k + 4,
    ensures
        ({
            let c = t.children_of(frames.last().node as int)[frames.last().next as int];
            let m = rs[k + 2]->Matrix_0;
            &&& performs(m0, t, setup, rs, k, opening(t, setup.view, c, frames.len() - 1, m))
            &&& stands_at(m0, t, setup, rs, k + 4, frames.push(fresh_frame(c, m)))
        }),
{
    let top = frames.last();
    let n = top.node as int;
    let i = top.next as int;
    let d = frames.len() - 1;
    let c = t.children_of(n)[i];
    let m = rs[k + 2]->Matrix_0;
    let head = opening(t, setup.view, c, d, m);
    let s0 = Machine { frames, stage: Stage::Transform };
    assert(Machine::settle(t, frames) == s0);
    assert(s0.child(t) == c);
    assert(n < c < t.len());
    lemma_go(m0, t, setup, rs, k, hi, k, s0);
    let s1 = Machine { frames, stage: Stage::Create };
    assert(state_after(m0, t, setup, rs, k + 1) == s1);
    lemma_go(m0, t, setup, rs, k, hi, k + 1, s1);
    let s2 = Machine { frames, stage: Stage::GroupMatrix };
    assert(state_after(m0, t, setup, rs, k + 2) == s2);
    lemma_go(m0, t, setup, rs, k, hi, k + 2, s2);
    let opened = frames.push(fresh_frame(c, m));
    let s3 = Machine { frames: opened, stage: Stage::InitMatrix };
    assert(state_after(m0, t, setup, rs, k + 3) == s3);
    lemma_go(m0, t, setup, rs, k, hi, k + 3, s3);
    assert(state_after(m0, t, setup, rs, k + 4) == Machine::settle(t, opened));
    assert(s0.pending(t, setup) == head[0]);
    assert(s1.pending(t, setup) == head[1]);
    assert(s2.pending(t, setup) == head[2]);
    assert(s3.pending(t, setup) == head[3]);
    lemma_performs_one(m0, t, setup, rs, k, head[0]);
    lemma_performs_push(m0, t, setup, rs, k, seq![head[0]], head[1]);
    lemma_performs_push(m0, t, setup, rs, k, seq![head[0]].push(head[1]), head[2]);
    lemma_performs_push(m0, t, setup, rs, k, seq![head[0]].push(head[1]).push(head[2]), head[3]);
    assert(seq![head[0]].push(head[1]).push(head[2]).push(head[3]) =~= head);
}

/// At the end of a group, the machine asks for the closing actions and then
/// is about to restore the matrix of the group below, the group's bounding
/// box joined to that of the group below.
proof fn lemma_close_group(
    m0: Machine,
    t: &RenderTree,
    setup: Setup,
    rs: Seq<Reply>,
    e: int,
    frames: Seq<Frame>,
    inner: Frame,
    lo: int,
    hi: int,
)
    requires
        t.wf(),
        frames.len() >= 1,
        t.kind_of(inner.node as int) is Group,
        inner.next == t.children_of(inner.node as int).len(),
        state_after(m0, t, setup, rs, e) == Machine::settle(t, frames.push(inner)),
        answered(m0, t, setup, rs, lo, hi),
        0 <= lo <= e,
        hi == e + closing(
            frames.len() as int,
            t.clip_of(t.kind_of(inner.node as int)->Group_0.clip_path),
            t.kind_of(inner.node as int)->Group_0.opacity,
            inner.bbox,
            inner.restore,
        ).len(),
    ensures
        performs(
            m0,
            t,
            setup,
            rs,
            e,
            closing(
                frames.len() as int,
                t.clip_of(t.kind_of(inner.node as int)->Group_0.clip_path),
                t.kind_of(inner.node as int)->Group_0.opacity,
                inner.bbox,
                inner.restore,
            ),
        ),
        state_after(m0, t, setup, rs, hi) == child_done(frames, Some(inner.bbox)),
{
    let g = t.kind_of(inner.node as int)->Group_0;
    let d = frames.len() as int;
    let top = frames.last();
    let full = frames.push(inner);
    let tail = closing(d, t.clip_of(g.clip_path), g.opacity, inner.bbox, inner.restore);
    assert(full.last() == inner);
    assert(full[d - 1] == top);
    let below = Frame { bbox: top.bbox.union(inner.bbox), ..top };
    assert(full.drop_last().drop_last().push(below) =~= replace_top(frames, below));
    let reset = Machine { frames: full, stage: Stage::Reset };
    let paste = Machine { frames: full, stage: Stage::Paste };
    let unwind = Machine { frames: full, stage: Stage::Unwind };
    let r = match t.clip_of(g.clip_path) {
        Some(idx) => e + 1,
        None => e,
    };
    match t.clip_of(g.clip_path) {
        Some(idx) => {
            let clip = Machine { frames: full, stage: Stage::Clip(idx) };
            assert(Machine::settle(t, full) == clip);
            assert(tail.len() == 4);
            assert(clip.pending(t, setup) == tail[0]);
            lemma_go(m0, t, setup, rs, lo, hi, e, clip);
            assert(state_after(m0, t, setup, rs, e + 1) == reset);
        },
        None => {
            assert(Machine::settle(t, full) == reset);
            assert(tail.len() == 3);
        },
    }
    lemma_go(m0, t, setup, rs, lo, hi, r, reset);
    assert(state_after(m0, t, setup, rs, r + 1) == paste);
    lemma_go(m0, t, setup, rs, lo, hi, r + 1, paste);
    assert(state_after(m0, t, setup, rs, r + 2) == unwind);
    lemma_go(m0, t, setup, rs, lo, hi, r + 2, unwind);
    assert(state_after(m0, t, setup, rs, r + 3) == child_done(frames, Some(inner.bbox)));
    let last3 = seq![reset.pending(t, setup)].push(paste.pending(t, setup)).push(
        unwind.pending(t, setup),
    );
    lemma_performs_one(m0, t, setup, rs, r, reset.pending(t, setup));
    lemma_performs_push(m0, t, setup, rs, r, seq![reset.pending(t, setup)], paste.pending(t, setup));
    lemma_performs_push(
        m0,
        t,
        setup,
        rs,
        r,
        seq![reset.pending(t, setup)].push(paste.pending(t, setup)),
        unwind.pending(t, setup),
    );
    match t.clip_of(g.clip_path) {
        Some(idx) => {
            lemma_performs_one(m0, t, setup, rs, e, tail[0]);
            lemma_performs_concat(m0, t, setup, rs, e, seq![tail[0]], last3);
            assert(seq![tail[0]] + last3 =~= tail);
        },
        None => {
            assert(last3 =~= tail);
        },
    }
}

/// Standing before a child of the innermost open group, the machine asks
/// for the actions of that child's script, and then is about to restore the
/// group's matrix, the child's bounding box joined to the group's.
pub proof fn lemma_child(
    m0: Machine,
    t: &RenderTree,
    setup: Setup,
    rs: Seq<Reply>,
    k: int,
    frames: Seq<Frame>,
    hi: int,
)
    requires
        stands_at(m0, t, setup, rs, k, frames),
        frames.last().next < t.children_of(frames.last().node as int).len(),
        answered(m0, t, setup, rs, k, hi),
        hi == k + child_script(
            t,
            setup.view,
            frames.last().node as int,
            frames.last().next as int,
            frames.len() - 1,
            rs,
            k,
        ).actions.len(),
    ensures
        ({
            let child = child_script(
                t,
                setup.view,
                frames.last().node as int,
                frames.last().next as int,
                frames.len() - 1,
                rs,
                k,
            );
            &&& performs(m0, t, setup, rs, k, child.actions)
            &&& state_after(m0, t, setup, rs, hi) == child_done(frames, child.bbox)
        }),
    decreases
            t.len() - frames.last().node,
            t.children_of(frames.last().node as int).len() - frames.last().next,
            0int,
{
    let top = frames.last();
    let n = top.node as int;
    let i = top.next as int;
    let d = frames.len() - 1;
    let c = t.children_of(n)[i];
    let child = child_script(t, setup.view, n, i, d, rs, k);
    assert(n < c < t.len());
    if t.kind_of(c as int) is Group && rs[k + 1] is Created {
        let g = t.kind_of(c as int)->Group_0;
        let m = rs[k + 2]->Matrix_0;
        let inner = children_script(
            t,
            setup.view,
            c as int,
            0,
            d + 1,
            m,
            Rect::blank_spec(),
            rs,
            k + 4,
        );
        let head = opening(t, setup.view, c, d, m);
        let tail = closing(d + 1, t.clip_of(g.clip_path), g.opacity, inner.bbox, m);
        assert(child.actions =~= head + inner.actions + tail);
        assert(child.bbox == Some(inner.bbox));
        let e = k + 4 + inner.actions.len();
        lemma_open_group(m0, t, setup, rs, k, frames, hi);
        let opened = frames.push(fresh_frame(c, m));
        assert(opened.last() == fresh_frame(c, m));
        lemma_answered_within(m0, t, setup, rs, k, hi, k + 4, e);
        lemma_children(m0, t, setup, rs, k + 4, opened, e);
        t.lemma_child_count_fits(c as int);
        let closed = Frame {
            node: c,
            next: t.children_of(c as int).len() as usize,
            restore: m,
            bbox: inner.bbox,
        };
        assert(replace_top(opened, closed) =~= frames.push(closed));
        lemma_close_group(m0, t, setup, rs, e, frames, closed, k, hi);
        lemma_performs_concat(m0, t, setup, rs, k, head, inner.actions);
        lemma_performs_concat(m0, t, setup, rs, k, head + inner.actions, tail);
    } else {
        lemma_plain_child(m0, t, setup, rs, k, frames, hi);
    }
}

/// Standing before child `i` of the innermost open group, the machine asks
/// for the actions of the script of the children from `i` on, and then
/// stands at the end of the group with the script's bounding box.
pub proof fn lemma_children(
    m0: Machine,
    t: &RenderTree,
    setup: Setup,
    rs: Seq<Reply>,
    k: int,
    frames: Seq<Frame>,
    hi: int,
)
    requires
        stands_at(m0, t, setup, rs, k, frames),
        answered(m0, t, setup, rs, k, hi),
        hi == k + children_script(
            t,
            setup.view,
            frames.last().node as int,
            frames.last().next as int,
            frames.len() - 1,
            frames.last().restore,
            frames.last().bbox,
            rs,
            k,
        ).actions.len(),
    ensures
        ({
            let script = children_script(
                t,
                setup.view,
                frames.last().node as int,
                frames.last().next as int,
                frames.len() - 1,
                frames.last().restore,
                frames.last().bbox,
                rs,
                k,
            );
            &&& performs(m0, t, setup, rs, k, script.actions)
            &&& state_after(m0, t, setup, rs, hi) == group_done(t, frames, script.bbox)
        }),
    decreases
            t.len() - frames.last().node,
            t.children_of(frames.last().node as int).len() - frames.last().next,
            1int,
{
    let top = frames.last();
    let n = top.node as int;
    let i = top.next as int;
    let d = frames.len() - 1;
    let len = t.children_of(n).len();
    let script = children_script(t, setup.view, n, i, d, top.restore, top.bbox, rs, k);
    t.lemma_child_count_fits(n);
    if i < len {
        let child = child_script(t, setup.view, n, i, d, rs, k);
        let lc = child.actions.len() as int;
        let close = Action::SetMatrix { surface: d as usize, matrix: top.restore };
        let acc = top.bbox.union_opt(child.bbox);
        let rest = children_script(t, setup.view, n, i + 1, d, top.restore, acc, rs, k + lc + 1);
        assert(script.actions =~= child.actions + seq![close] + rest.actions);
        assert(script.bbox == rest.bbox);
        lemma_answered_within(m0, t, setup, rs, k, hi, k, k + lc);
        lemma_child(m0, t, setup, rs, k, frames, k + lc);
        let painted = Frame { bbox: acc, ..top };
        let s = Machine { frames: replace_top(frames, painted), stage: Stage::Restore };
        assert(s.top() == painted);
        assert(s.pending(t, setup) == close);
        lemma_performs_one(m0, t, setup, rs, k + lc, close);
        lemma_go(m0, t, setup, rs, k, hi, k + lc, s);
        let moved = Frame { next: (top.next + 1) as usize, ..painted };
        let after = replace_top(frames, moved);
        assert(replace_top(replace_top(frames, painted), moved) =~= after);
        assert(state_after(m0, t, setup, rs, k + lc + 1) == Machine::settle(t, after));
        assert(after.last() == moved);
        lemma_answered_within(m0, t, setup, rs, k, hi, k + lc + 1, hi);
        lemma_children(m0, t, setup, rs, k + lc + 1, after, hi);
        assert(replace_top(after, Frame { next: len as usize, bbox: rest.bbox, ..moved })
            =~= replace_top(frames, Frame { next: len as usize, bbox: script.bbox, ..top }));
        lemma_performs_concat(m0, t, setup, rs, k, child.actions, seq![close]);
        lemma_performs_concat(m0, t, setup, rs, k, child.actions + seq![close], rest.actions);
    } else {
        assert(replace_top(frames, Frame { next: len as usize, bbox: script.bbox, ..top })
            =~= frames);
        lemma_performs_none(m0, t, setup, rs, k);
        assert(script.actions =~= Seq::<Action>::empty());
    }
}

/// From the mapping of the view box on, the machine asks for the actions of
/// the canvas script and ends with its bounding box.
proof fn lemma_canvas(
    m0: Machine,
    t: &RenderTree,
    setup: Setup,
    rs: Seq<Reply>,
    k: int,
    hi: int,
)
    requires
        t.wf(),
        k >= 0,
        state_after(m0, t, setup, rs, k) == (Machine { frames: Seq::empty(), stage: Stage::ViewBox }),
        answered(m0, t, setup, rs, k, hi),
        hi == k + canvas_script(t, setup.view, rs, k).actions.len() - 1,
    ensures
        performs(m0, t, setup, rs, k, canvas_script(t, setup.view, rs, k).actions),
        state_after(m0, t, setup, rs, hi).stage is Finished,
        state_after(m0, t, setup, rs, hi).frames.len() == 1,
        state_after(m0, t, setup, rs, hi).frames[0].bbox == canvas_script(
            t,
            setup.view,
            rs,
            k,
        ).bbox,
{
    let m = rs[k + 1]->Matrix_0;
    let body = children_script(t, setup.view, 0, 0, 0, m, Rect::blank_spec(), rs, k + 2);
    let script = canvas_script(t, setup.view, rs, k);
    let s0 = Machine { frames: Seq::empty(), stage: Stage::ViewBox };
    let s1 = Machine { frames: Seq::empty(), stage: Stage::RootMatrix };
    lemma_go(m0, t, setup, rs, k, hi, k, s0);
    assert(state_after(m0, t, setup, rs, k + 1) == s1);
    lemma_go(m0, t, setup, rs, k, hi, k + 1, s1);
    let frames = seq![fresh_frame(0, m)];
    assert(frames.last() == fresh_frame(0, m));
    assert(state_after(m0, t, setup, rs, k + 2) == Machine::settle(t, frames));
    lemma_answered_within(m0, t, setup, rs, k, hi, k + 2, hi);
    lemma_children(m0, t, setup, rs, k + 2, frames, hi);
    t.lemma_child_count_fits(0);
    let done = Frame { next: t.children_of(0).len() as usize, bbox: body.bbox, ..frames.last() };
    assert(replace_top(frames, done) =~= seq![done]);
    let end = state_after(m0, t, setup, rs, hi);
    assert(end == Machine { frames: seq![done], stage: Stage::Finished });
    let head = seq![s0.pending(t, setup)].push(s1.pending(t, setup));
    lemma_performs_one(m0, t, setup, rs, k, s0.pending(t, setup));
    lemma_performs_push(m0, t, setup, rs, k, seq![s0.pending(t, setup)], s1.pending(t, setup));
    lemma_performs_concat(m0, t, setup, rs, k, head, body.actions);
    lemma_performs_push(m0, t, setup, rs, k, head + body.actions, end.pending(t, setup));
    assert(script.actions =~= (head + body.actions).push(end.pending(t, setup)));
}

/// A picture on a canvas that the caller has: handed replies that answer
/// its actions, the renderer asks for the actions of the script, the last
/// of which is `Finish`, and ends with the script's bounding box.
pub proof fn theorem_render_to_canvas(t: &RenderTree, setup: Setup, rs: Seq<Reply>)
    requires
        t.wf(),
        answered(
            Machine { frames: Seq::empty(), stage: Stage::ViewBox },
            t,
            setup,
            rs,
            0,
            canvas_script(t, setup.view, rs, 0).actions.len() - 1,
        ),
    ensures
        ({
            let start = Machine { frames: Seq::empty(), stage: Stage::ViewBox };
            let script = canvas_script(t, setup.view, rs, 0);
            let end = state_after(start, t, setup, rs, script.actions.len() - 1);
            &&& performs(start, t, setup, rs, 0, script.actions)
            &&& end.stage is Finished
            &&& end.pending(t, setup) == (Action::Finish { bbox: script.bbox })
        }),
{
    let start = Machine { frames: Seq::empty(), stage: Stage::ViewBox };
    assert(state_after(start, t, setup, rs, 0) == start) by {
        reveal(state_after);
    }
    lemma_canvas(start, t, setup, rs, 0, canvas_script(t, setup.view, rs, 0).actions.len() - 1);
}

/// A picture on a canvas of its own: handed replies that answer its
/// actions, the renderer asks for the actions of the script. It ends with
/// `Fail` exactly where the canvas could not be had, and with `Finish`
/// otherwise.
pub proof fn theorem_render_to_image(t: &RenderTree, setup: Setup, rs: Seq<Reply>)
    requires
        t.wf(),
        answered(
            Machine { frames: Seq::empty(), stage: Stage::Canvas },
            t,
            setup,
            rs,
            0,
            image_script(t, setup.view, setup.background, rs).len() - 1,
        ),
    ensures
        ({
            let start = Machine { frames: Seq::empty(), stage: Stage::Canvas };
            let actions = image_script(t, setup.view, setup.background, rs);
            let end = state_after(start, t, setup, rs, actions.len() - 1);
            &&& performs(start, t, setup, rs, 0, actions)
            &&& end.pending(t, setup) == actions.last()
            &&& end.stage is Failed <==> !(rs[0] is Created)
            &&& end.stage is Finished <==> rs[0] is Created
        }),
{
    let start = Machine { frames: Seq::empty(), stage: Stage::Canvas };
    let actions = image_script(t, setup.view, setup.background, rs);
    let hi = actions.len() - 1;
    assert(state_after(start, t, setup, rs, 0) == start) by {
        reveal(state_after);
    }
    lemma_go(start, t, setup, rs, 0, hi, 0, start);
    lemma_performs_one(start, t, setup, rs, 0, start.pending(t, setup));
    let s1 = state_after(start, t, setup, rs, 1);
    if rs[0] is Created {
        match setup.background {
            Some(color) => {
                let rest = canvas_script(t, setup.view, rs, 2);
                assert(s1 == Machine { frames: Seq::empty(), stage: Stage::Background(color) });
                lemma_go(start, t, setup, rs, 0, hi, 1, s1);
                lemma_performs_push(
                    start,
                    t,
                    setup,
                    rs,
                    0,
                    seq![start.pending(t, setup)],
                    s1.pending(t, setup),
                );
                lemma_answered_within(start, t, setup, rs, 0, hi, 2, hi);
                lemma_canvas(start, t, setup, rs, 2, hi);
                let head = seq![start.pending(t, setup)].push(s1.pending(t, setup));
                lemma_performs_concat(start, t, setup, rs, 0, head, rest.actions);
                assert(actions =~= head + rest.actions);
            },
            None => {
                let rest = canvas_script(t, setup.view, rs, 1);
                assert(s1 == Machine { frames: Seq::empty(), stage: Stage::ViewBox });
                lemma_answered_within(start, t, setup, rs, 0, hi, 1, hi);
                lemma_canvas(start, t, setup, rs, 1, hi);
                lemma_performs_concat(
                    start,
                    t,
                    setup,
                    rs,
                    0,
                    seq![start.pending(t, setup)],
                    rest.actions,
                );
                assert(actions =~= seq![start.pending(t, setup)] + rest.actions);
            },
        }
    } else {
        assert(s1 == Machine { frames: Seq::empty(), stage: Stage::Failed });
        lemma_performs_push(
            start,
            t,
            setup,
            rs,
            0,
            seq![start.pending(t, setup)],
            s1.pending(t, setup),
        );
        assert(actions =~= seq![start.pending(t, setup)].push(s1.pending(t, setup)));
    }
}

} // verus!
