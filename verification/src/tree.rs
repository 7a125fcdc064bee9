//! The tree of nodes to paint, and its table of definitions.

use vstd::prelude::*;
use crate::geom::{Rect, Size, Transform};

verus! {

/// What a group applies to its children as a unit.
#[derive(Clone, Copy, Debug, PartialEq, Eq)]
pub struct Group {
    /// How opaque the group is as a whole; `None` is fully opaque.
    pub opacity: Option<i64>,
    /// Index of a clip path in the table of definitions.
    pub clip_path: Option<usize>,
}

/// The kinds of node.
#[derive(Clone, Copy, Debug, PartialEq, Eq)]
pub enum NodeKind {
    /// The root of the paint tree.
    Svg,
    Path,
    Text,
    Image,
    Group(Group),
    /// A clip path; it is painted only as the mask of a group.
    ClipPath,
}

/// A node: its kind, its transform relative to its parent, and its children
/// in paint order, back to front.
pub struct Node {
    pub kind: NodeKind,
    pub transform: Transform,
    pub children: Vec<usize>,
}

/// A document: the paint tree under node 0, the definitions beside it, and
/// the document's own size and view box.
///
/// Nodes are numbered in the order in which they were added, so a child's
/// number is larger than its parent's.
pub struct RenderTree {
    nodes: Vec<Node>,
    defs: Vec<usize>,
    size: Size,
    view_box: Rect,
}

impl RenderTree {
    pub closed spec fn len(&self) -> nat {
        self.nodes@.len()
    }

    pub closed spec fn kind_of(&self, node: int) -> NodeKind {
        self.nodes@[node].kind
    }

    pub closed spec fn transform_of(&self, node: int) -> Transform {
        self.nodes@[node].transform
    }

    pub closed spec fn children_of(&self, node: int) -> Seq<usize> {
        self.nodes@[node].children@
    }

    pub closed spec fn defs(&self) -> Seq<usize> {
        self.defs@
    }

    pub closed spec fn size_spec(&self) -> Size {
        self.size
    }

    pub closed spec fn view_box_spec(&self) -> Rect {
        self.view_box
    }

    /// The tree has its root, children are numbered above their parent, and
    /// every definition is a node.
    pub open spec fn wf(&self) -> bool {
        &&& self.len() >= 1
        &&& self.kind_of(0) == NodeKind::Svg
        &&& forall|n: int, j: int|
            0 <= n < self.len() && 0 <= j < self.children_of(n).len() ==> n
                < #[trigger] self.children_of(n)[j] < self.len()
        &&& forall|k: int|
            0 <= k < self.defs().len() ==> (#[trigger] self.defs()[k]) < self.len()
    }

    /// The clip path that a group's reference `clip` names, where it names
    /// one: the reference is in the table, and the node there is a clip
    /// path.
    pub open spec fn clip_of(&self, clip: Option<usize>) -> Option<usize> {
        match clip {
            Some(idx) => if idx < self.defs().len() && self.kind_of(self.defs()[idx as int] as int)
                == NodeKind::ClipPath {
                Some(idx)
            } else {
                None
            },
            None => None,
        }
    }

    /// A node's children can be counted in a `usize`.
    pub proof fn lemma_child_count_fits(&self, node: int)
        ensures
            self.children_of(node).len() <= usize::MAX,
    {
        let children = &self.nodes@[node].children;
        assert(children.len() == children@.len());
    }

    /// A document of the given size and view box with nothing to paint.
    pub fn new(size: Size, view_box: Rect) -> (t: RenderTree)
        ensures
            t.wf(),
            t.len() == 1,
            t.children_of(0) == Seq::<usize>::empty(),
            t.defs() == Seq::<usize>::empty(),
            t.size_spec() == size,
            t.view_box_spec() == view_box,
    {
        let root = Node {
            kind: NodeKind::Svg,
            transform: Transform { a: 0, b: 0, c: 0, d: 0, e: 0, f: 0 },
            children: Vec::new(),
        };
        let mut nodes: Vec<Node> = Vec::new();
        nodes.push(root);
        RenderTree { nodes, defs: Vec::new(), size, view_box }
    }

    /// The number of the root.
    pub fn root(&self) -> (n: usize)
        ensures
            n == 0,
    {
        0
    }

    pub fn node_count(&self) -> (n: usize)
        ensures
            n == self.len(),
    {
        self.nodes.len()
    }

    pub fn size(&self) -> (s: Size)
        ensures
            s == self.size_spec(),
    {
        self.size
    }

    pub fn view_box(&self) -> (r: Rect)
        ensures
            r == self.view_box_spec(),
    {
        self.view_box
    }

    pub fn kind(&self, node: usize) -> (k: NodeKind)
        requires
            node < self.len(),
        ensures
            k == self.kind_of(node as int),
    {
        self.nodes[node].kind
    }

    pub fn transform(&self, node: usize) -> (t: Transform)
        requires
            node < self.len(),
        ensures
            t == self.transform_of(node as int),
    {
        self.nodes[node].transform
    }

    pub fn child_count(&self, node: usize) -> (n: usize)
        requires
            node < self.len(),
        ensures
            n == self.children_of(node as int).len(),
    {
        self.nodes[node].children.len()
    }

    pub fn child(&self, node: usize, i: usize) -> (c: usize)
        requires
            node < self.len(),
            i < self.children_of(node as int).len(),
        ensures
            c == self.children_of(node as int)[i as int],
    {
        self.nodes[node].children[i]
    }

    /// Looks a group's clip reference up in the table of definitions.
    pub fn clip(&self, clip: Option<usize>) -> (r: Option<usize>)
        requires
            self.wf(),
        ensures
            r == self.clip_of(clip),
    {
        match clip {
            Some(idx) => {
                if idx < self.defs.len() {
                    let node: usize = self.defs[idx];
                    match self.nodes[node].kind {
                        NodeKind::ClipPath => Some(idx),
                        _ => None,
                    }
                } else {
                    None
                }
            },
            None => None,
        }
    }

    /// Adds a node as the last child of `parent` and returns its number, or
    /// returns `None` and changes nothing where `parent` is no node or the
    /// new node would be a second root.
    pub fn append(&mut self, parent: usize, kind: NodeKind, transform: Transform) -> (r: Option<
        usize,
    >)
        requires
            old(self).wf(),
        ensures
            final(self).wf(),
            r is Some <==> parent < old(self).len() && kind != NodeKind::Svg,
            r is None ==> *final(self) == *old(self),
            r matches Some(id) ==> {
                &&& id == old(self).len()
                &&& final(self).len() == old(self).len() + 1
                &&& final(self).kind_of(id as int) == kind
                &&& final(self).transform_of(id as int) == transform
                &&& final(self).children_of(id as int) == Seq::<usize>::empty()
                &&& final(self).children_of(parent as int) == old(self).children_of(
                    parent as int,
                ).push(id)
                &&& forall|n: int|
                    0 <= n < old(self).len() ==> {
                        &&& final(self).kind_of(n) == old(self).kind_of(n)
                        &&& final(self).transform_of(n) == old(self).transform_of(n)
                        &&& n != parent ==> final(self).children_of(n) == old(self).children_of(n)
                    }
                &&& final(self).defs() == old(self).defs()
                &&& final(self).size_spec() == old(self).size_spec()
                &&& final(self).view_box_spec() == old(self).view_box_spec()
            },
    {
        if parent >= self.nodes.len() {
            return None;
        }
        match kind {
            NodeKind::Svg => {
                return None;
            },
            _ => {},
        }
        let id: usize = self.nodes.len();
        let ghost before = *self;
        self.nodes.push(Node { kind, transform, children: Vec::new() });
        let mut children: Vec<usize> = Vec::new();
        std::mem::swap(&mut children, &mut self.nodes[parent].children);
        children.push(id);
        std::mem::swap(&mut children, &mut self.nodes[parent].children);
        proof {
            assert forall|n: int, j: int|
                0 <= n < self.len() && 0 <= j < self.children_of(n).len() implies n
                < #[trigger] self.children_of(n)[j] < self.len() by {
                if n == parent {
                    if j < before.children_of(n).len() {
                        assert(self.children_of(n)[j] == before.children_of(n)[j]);
                    }
                } else if n < before.len() {
                    assert(self.children_of(n)[j] == before.children_of(n)[j]);
                }
            }
            assert forall|k: int| 0 <= k < self.defs().len() implies (#[trigger] self.defs()[k])
                < self.len() by {
                assert(before.defs()[k] < before.len());
            }
        }
        Some(id)
    }

    /// Adds `node` to the table of definitions and returns its index there,
    /// or returns `None` and changes nothing where `node` is no node.
    pub fn define(&mut self, node: usize) -> (r: Option<usize>)
        requires
            old(self).wf(),
        ensures
            final(self).wf(),
            r is Some <==> node < old(self).len(),
            r is None ==> *final(self) == *old(self),
            r matches Some(idx) ==> {
                &&& idx == old(self).defs().len()
                &&& final(self).defs() == old(self).defs().push(node)
                &&& final(self).len() == old(self).len()
                &&& forall|n: int|
                    0 <= n < old(self).len() ==> {
                        &&& final(self).kind_of(n) == old(self).kind_of(n)
                        &&& final(self).transform_of(n) == old(self).transform_of(n)
                        &&& final(self).children_of(n) == old(self).children_of(n)
                    }
                &&& final(self).size_spec() == old(self).size_spec()
                &&& final(self).view_box_spec() == old(self).view_box_spec()
            },
    {
        if node >= self.nodes.len() {
            return None;
        }
        let idx: usize = self.defs.len();
        let ghost before = *self;
        self.defs.push(node);
        proof {
            assert forall|n: int, j: int|
                0 <= n < self.len() && 0 <= j < self.children_of(n).len() implies n
                < #[trigger] self.children_of(n)[j] < self.len() by {
                assert(self.children_of(n)[j] == before.children_of(n)[j]);
            }
            assert forall|k: int| 0 <= k < self.defs().len() implies (#[trigger] self.defs()[k])
                < self.len() by {
                if k < before.defs().len() {
                    assert(before.defs()[k] < before.len());
                }
            }
        }
        Some(idx)
    }
}

} // verus!
