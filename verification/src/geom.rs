//! Plain geometric values: sizes, boxes, colours and affine coefficients.
//!
//! Every number is an integer on a scale that the caller chooses (whole
//! pixels, or some fixed fraction of a pixel). The scale only has to be
//! linear: the library compares and copies coordinates, and scales sizes
//! proportionally, which is independent of the unit.

use vstd::prelude::*;

verus! {

/// A width and a height.
#[derive(Clone, Copy, Debug, PartialEq, Eq)]
pub struct Size {
    pub width: i64,
    pub height: i64,
}

impl Size {
    /// No canvas can have this size: one extent is zero or negative.
    pub open spec fn is_empty_or_negative_spec(self) -> bool {
        self.width <= 0 || self.height <= 0
    }

    pub fn new(width: i64, height: i64) -> (s: Size)
        ensures
            s == (Size { width, height }),
    {
        Size { width, height }
    }

    #[verifier::when_used_as_spec(is_empty_or_negative_spec)]
    pub fn is_empty_or_negative(self) -> (b: bool)
        ensures
            b == self.is_empty_or_negative_spec(),
    {
        self.width <= 0 || self.height <= 0
    }
}

/// An axis-aligned box, held by its four edges.
///
/// A box whose right edge lies left of its left edge, or whose bottom edge
/// lies above its top edge, is *inverted*: it covers nothing. The blank box
/// of [`Rect::blank`] is the most inverted one.
#[derive(Clone, Copy, Debug, PartialEq, Eq)]
pub struct Rect {
    pub left: i64,
    pub top: i64,
    pub right: i64,
    pub bottom: i64,
}

pub open spec fn min_int(a: int, b: int) -> int {
    if a <= b {
        a
    } else {
        b
    }
}

pub open spec fn max_int(a: int, b: int) -> int {
    if a >= b {
        a
    } else {
        b
    }
}

impl Rect {
    /// The box that covers nothing and is neutral for [`Rect::union`]:
    /// its near edges are as large, its far edges as small as can be.
    pub open spec fn blank_spec() -> Rect {
        Rect { left: i64::MAX, top: i64::MAX, right: i64::MIN, bottom: i64::MIN }
    }

    /// Horizontal extent; negative for an inverted box.
    pub open spec fn width(self) -> int {
        self.right - self.left
    }

    /// Vertical extent; negative for an inverted box.
    pub open spec fn height(self) -> int {
        self.bottom - self.top
    }

    /// The box covers no area.
    pub open spec fn is_degenerate_spec(self) -> bool {
        self.width() <= 0 || self.height() <= 0
    }

    /// The area covered; zero for a degenerate box.
    pub open spec fn area(self) -> int {
        if self.is_degenerate_spec() {
            0
        } else {
            self.width() * self.height()
        }
    }

    /// `self` lies within `outer`, edge by edge.
    pub open spec fn within(self, outer: Rect) -> bool {
        &&& outer.left <= self.left
        &&& outer.top <= self.top
        &&& self.right <= outer.right
        &&& self.bottom <= outer.bottom
    }

    /// The smallest box that holds both boxes.
    pub open spec fn union(self, other: Rect) -> Rect {
        Rect {
            left: min_int(self.left as int, other.left as int) as i64,
            top: min_int(self.top as int, other.top as int) as i64,
            right: max_int(self.right as int, other.right as int) as i64,
            bottom: max_int(self.bottom as int, other.bottom as int) as i64,
        }
    }

    /// `self` joined with `other` where there is one.
    pub open spec fn union_opt(self, other: Option<Rect>) -> Rect {
        match other {
            Some(r) => self.union(r),
            None => self,
        }
    }

    /// The union of all boxes of `boxes`, starting from the blank box.
    pub open spec fn union_all(boxes: Seq<Rect>) -> Rect
        decreases boxes.len(),
    {
        if boxes.len() == 0 {
            Rect::blank_spec()
        } else {
            Rect::union_all(boxes.drop_last()).union(boxes.last())
        }
    }

    pub fn new(left: i64, top: i64, right: i64, bottom: i64) -> (r: Rect)
        ensures
            r == (Rect { left, top, right, bottom }),
    {
        Rect { left, top, right, bottom }
    }

    #[verifier::when_used_as_spec(blank_spec)]
    pub fn blank() -> (r: Rect)
        ensures
            r == Rect::blank_spec(),
            r.is_degenerate_spec(),
            r.area() == 0,
    {
        Rect { left: i64::MAX, top: i64::MAX, right: i64::MIN, bottom: i64::MIN }
    }

    /// The box of the given size whose top left corner is the origin.
    pub fn from_size(size: Size) -> (r: Rect)
        ensures
            r == (Rect { left: 0, top: 0, right: size.width, bottom: size.height }),
            r.width() == size.width,
            r.height() == size.height,
            r.is_degenerate_spec() == size.is_empty_or_negative_spec(),
    {
        Rect { left: 0, top: 0, right: size.width, bottom: size.height }
    }

    #[verifier::when_used_as_spec(is_degenerate_spec)]
    pub fn is_degenerate(self) -> (b: bool)
        ensures
            b == self.is_degenerate_spec(),
    {
        self.right <= self.left || self.bottom <= self.top
    }

    /// Grows `self` to the smallest box that also holds `other`.
    pub fn expand(&mut self, other: Rect)
        ensures
            *final(self) == old(self).union(other),
            old(self).within(*final(self)),
            other.within(*final(self)),
    {
        if other.left < self.left {
            self.left = other.left;
        }
        if other.top < self.top {
            self.top = other.top;
        }
        if other.right > self.right {
            self.right = other.right;
        }
        if other.bottom > self.bottom {
            self.bottom = other.bottom;
        }
    }
}

/// The blank box is neutral: joining it changes nothing.
pub proof fn lemma_union_blank(r: Rect)
    ensures
        Rect::blank_spec().union(r) == r,
        r.union(Rect::blank_spec()) == r,
{
}

/// The order of two boxes does not matter to their union.
pub proof fn lemma_union_commutative(a: Rect, b: Rect)
    ensures
        a.union(b) == b.union(a),
{
}

/// Grouping does not matter to a union of three boxes.
pub proof fn lemma_union_associative(a: Rect, b: Rect, c: Rect)
    ensures
        a.union(b).union(c) == a.union(b.union(c)),
{
}

/// The union is exact: it holds both boxes, and every box that holds both
/// holds the union.
pub proof fn lemma_union_least(a: Rect, b: Rect, outer: Rect)
    ensures
        a.within(a.union(b)),
        b.within(a.union(b)),
        a.within(outer) && b.within(outer) ==> a.union(b).within(outer),
{
}

/// Every box of `boxes` lies within their union.
pub proof fn lemma_union_all_holds_each(boxes: Seq<Rect>, i: int)
    requires
        0 <= i < boxes.len(),
    ensures
        boxes[i].within(Rect::union_all(boxes)),
    decreases boxes.len(),
{
    if i < boxes.len() - 1 {
        lemma_union_all_holds_each(boxes.drop_last(), i);
    }
}

/// A box that holds every box of `boxes` holds their union.
pub proof fn lemma_union_all_least(boxes: Seq<Rect>, outer: Rect)
    requires
        forall|i: int| 0 <= i < boxes.len() ==> (#[trigger] boxes[i]).within(outer),
    ensures
        Rect::union_all(boxes).within(outer),
    decreases boxes.len(),
{
    if boxes.len() > 0 {
        assert forall|i: int| 0 <= i < boxes.drop_last().len() implies (#[trigger] boxes.drop_last()[i]).within(
            outer,
        ) by {
            assert(boxes.drop_last()[i] == boxes[i]);
        }
        lemma_union_all_least(boxes.drop_last(), outer);
        assert(boxes.last() == boxes[boxes.len() - 1]);
    }
}

/// The union of boxes does not depend on their order, nor on how often a
/// box occurs: two sequences that hold the same boxes have the same union.
pub proof fn lemma_union_all_any_order(a: Seq<Rect>, b: Seq<Rect>)
    requires
        forall|i: int| 0 <= i < a.len() ==> b.contains(#[trigger] a[i]),
        forall|j: int| 0 <= j < b.len() ==> a.contains(#[trigger] b[j]),
    ensures
        Rect::union_all(a) == Rect::union_all(b),
{
    assert forall|i: int| 0 <= i < a.len() implies (#[trigger] a[i]).within(
        Rect::union_all(b),
    ) by {
        let j = choose|j: int| 0 <= j < b.len() && b[j] == a[i];
        lemma_union_all_holds_each(b, j);
    }
    lemma_union_all_least(a, Rect::union_all(b));
    assert forall|j: int| 0 <= j < b.len() implies (#[trigger] b[j]).within(
        Rect::union_all(a),
    ) by {
        let i = choose|i: int| 0 <= i < a.len() && a[i] == b[j];
        lemma_union_all_holds_each(a, i);
    }
    lemma_union_all_least(b, Rect::union_all(a));
}

/// The union of no boxes covers no area; the union of two boxes is the box
/// from their smaller near edges to their larger far edges, whichever comes
/// first.
pub proof fn lemma_union_of_two(a: Rect, b: Rect)
    ensures
        Rect::union_all(Seq::empty()) == Rect::blank_spec(),
        Rect::union_all(Seq::empty()).area() == 0,
        Rect::union_all(seq![a, b]) == a.union(b),
        Rect::union_all(seq![a, b]) == Rect::union_all(seq![b, a]),
{
    reveal_with_fuel(Rect::union_all, 3);
    let s: Seq<Rect> = seq![a, b];
    assert(s.drop_last() =~= seq![a]);
    assert(s.drop_last().drop_last() =~= Seq::<Rect>::empty());
    let t: Seq<Rect> = seq![b, a];
    assert(t.drop_last() =~= seq![b]);
    assert(t.drop_last().drop_last() =~= Seq::<Rect>::empty());
}

/// Joining a box in front is joining it at the end.
pub proof fn lemma_union_all_front(first: Rect, rest: Seq<Rect>)
    ensures
        Rect::union_all(seq![first] + rest) == first.union(Rect::union_all(rest)),
    decreases rest.len(),
{
    let all = seq![first] + rest;
    if rest.len() == 0 {
        assert(all.drop_last() =~= Seq::<Rect>::empty());
        assert(Rect::union_all(all.drop_last()) == Rect::blank_spec());
    } else {
        assert(all.drop_last() =~= seq![first] + rest.drop_last());
        assert(all.last() == rest.last());
        lemma_union_all_front(first, rest.drop_last());
    }
}

/// An RGB colour.
#[derive(Clone, Copy, Debug, PartialEq, Eq)]
pub struct Color {
    pub red: u8,
    pub green: u8,
    pub blue: u8,
}

/// A node's affine map relative to its parent, by its six coefficients.
/// The library copies coefficients and never computes with them.
#[derive(Clone, Copy, Debug, PartialEq, Eq)]
pub struct Transform {
    pub a: i64,
    pub b: i64,
    pub c: i64,
    pub d: i64,
    pub e: i64,
    pub f: i64,
}

/// A drawing surface's matrix, with the coefficients under the names that
/// surfaces use.
#[derive(Clone, Copy, Debug, PartialEq, Eq)]
pub struct Matrix {
    pub xx: i64,
    pub yx: i64,
    pub xy: i64,
    pub yy: i64,
    pub x0: i64,
    pub y0: i64,
}

impl Transform {
    pub open spec fn to_native_spec(self) -> Matrix {
        Matrix { xx: self.a, yx: self.b, xy: self.c, yy: self.d, x0: self.e, y0: self.f }
    }

    pub open spec fn from_native_spec(ts: Matrix) -> Transform {
        Transform { a: ts.xx, b: ts.yx, c: ts.xy, d: ts.yy, e: ts.x0, f: ts.y0 }
    }

    pub fn new(a: i64, b: i64, c: i64, d: i64, e: i64, f: i64) -> (t: Transform)
        ensures
            t == (Transform { a, b, c, d, e, f }),
    {
        Transform { a, b, c, d, e, f }
    }

    /// The same map as a surface matrix, coefficient by coefficient.
    #[verifier::when_used_as_spec(to_native_spec)]
    pub fn to_native(self) -> (m: Matrix)
        ensures
            m == self.to_native_spec(),
            Transform::from_native_spec(m) == self,
    {
        Matrix { xx: self.a, yx: self.b, xy: self.c, yy: self.d, x0: self.e, y0: self.f }
    }

    /// The same map as a node transform, coefficient by coefficient.
    pub fn from_native(ts: &Matrix) -> (t: Transform)
        ensures
            t == Transform::from_native_spec(*ts),
            t.to_native_spec() == *ts,
    {
        Transform { a: ts.xx, b: ts.yx, c: ts.xy, d: ts.yy, e: ts.x0, f: ts.y0 }
    }
}

/// Going to the surface's form and back loses nothing, in either direction.
pub proof fn lemma_native_round_trip(t: Transform, m: Matrix)
    ensures
        Transform::from_native_spec(t.to_native_spec()) == t,
        Transform::from_native_spec(m).to_native_spec() == m,
{
}

} // verus!
