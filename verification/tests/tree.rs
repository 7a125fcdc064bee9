use scene_render::geom::{Rect, Size, Transform};
use scene_render::tree::{Group, NodeKind, RenderTree};

fn still() -> Transform {
    Transform::new(1, 0, 0, 1, 0, 0)
}

#[test]
fn a_new_document_has_only_its_root() {
    let tree = RenderTree::new(Size::new(3, 4), Rect::new(1, 2, 3, 4));
    assert_eq!(tree.node_count(), 1);
    assert_eq!(tree.root(), 0);
    assert_eq!(tree.kind(0), NodeKind::Svg);
    assert_eq!(tree.child_count(0), 0);
    assert_eq!(tree.size(), Size::new(3, 4));
    assert_eq!(tree.view_box(), Rect::new(1, 2, 3, 4));
}

#[test]
fn children_are_kept_in_the_order_in_which_they_were_added() {
    let mut tree = RenderTree::new(Size::new(3, 4), Rect::new(0, 0, 3, 4));
    let g = tree.append(0, NodeKind::Group(Group { opacity: Some(5), clip_path: None }), still()).unwrap();
    let p = tree.append(g, NodeKind::Path, Transform::new(1, 2, 3, 4, 5, 6)).unwrap();
    let q = tree.append(0, NodeKind::Text, still()).unwrap();
    let r = tree.append(g, NodeKind::Image, still()).unwrap();
    assert_eq!((g, p, q, r), (1, 2, 3, 4));
    assert_eq!(tree.node_count(), 5);
    assert_eq!(tree.child_count(0), 2);
    assert_eq!((tree.child(0, 0), tree.child(0, 1)), (g, q));
    assert_eq!(tree.child_count(g), 2);
    assert_eq!((tree.child(g, 0), tree.child(g, 1)), (p, r));
    assert_eq!(tree.kind(g), NodeKind::Group(Group { opacity: Some(5), clip_path: None }));
    assert_eq!(tree.kind(r), NodeKind::Image);
    assert_eq!(tree.transform(p), Transform::new(1, 2, 3, 4, 5, 6));
}

#[test]
fn a_node_cannot_be_added_under_a_parent_that_is_not_there() {
    let mut tree = RenderTree::new(Size::new(3, 4), Rect::new(0, 0, 3, 4));
    assert_eq!(tree.append(1, NodeKind::Path, still()), None);
    assert_eq!(tree.append(usize::MAX, NodeKind::Path, still()), None);
    assert_eq!(tree.node_count(), 1);
    assert_eq!(tree.child_count(0), 0);
}

#[test]
fn there_is_no_second_root() {
    let mut tree = RenderTree::new(Size::new(3, 4), Rect::new(0, 0, 3, 4));
    assert_eq!(tree.append(0, NodeKind::Svg, still()), None);
    assert_eq!(tree.node_count(), 1);
}

#[test]
fn a_clip_reference_is_resolved_through_the_definitions() {
    let mut tree = RenderTree::new(Size::new(3, 4), Rect::new(0, 0, 3, 4));
    let path = tree.append(0, NodeKind::Path, still()).unwrap();
    let clip = tree.append(0, NodeKind::ClipPath, still()).unwrap();
    assert_eq!(tree.define(path), Some(0));
    assert_eq!(tree.define(clip), Some(1));
    assert_eq!(tree.define(9), None);
    assert_eq!(tree.clip(None), None);
    assert_eq!(tree.clip(Some(0)), None);
    assert_eq!(tree.clip(Some(1)), Some(1));
    assert_eq!(tree.clip(Some(2)), None);
}
