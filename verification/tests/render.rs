use scene_render::geom::{Color, Matrix, Rect, Size, Transform};
use scene_render::protocol::{Action, Error, Reply};
use scene_render::render::{render_to_canvas, render_to_image, FitTo, Options, Renderer};
use scene_render::tree::{Group, NodeKind, RenderTree};

/// A stand-in for the drawing surfaces: it keeps the matrix of every
/// surface, answers every action, and writes down what was painted where.
struct Surfaces {
    matrices: Vec<Matrix>,
    boxes: Vec<(usize, Rect)>,
    failing: Vec<usize>,
    canvas_fails: bool,
    created: usize,
    log: Vec<Action>,
    painted: Vec<(usize, usize, Matrix)>,
    pasted: Vec<(usize, Option<i64>)>,
    clipped: Vec<(usize, usize, Rect)>,
    filled: Vec<Color>,
}

const IDENTITY: Matrix = Matrix { xx: 1, yx: 0, xy: 0, yy: 1, x0: 0, y0: 0 };

fn compose(first: Matrix, then: Matrix) -> Matrix {
    Matrix {
        xx: first.xx * then.xx + first.yx * then.xy,
        yx: first.xx * then.yx + first.yx * then.yy,
        xy: first.xy * then.xx + first.yy * then.xy,
        yy: first.xy * then.yx + first.yy * then.yy,
        x0: first.x0 * then.xx + first.y0 * then.xy + then.x0,
        y0: first.x0 * then.yx + first.y0 * then.yy + then.y0,
    }
}

fn shift(x: i64, y: i64) -> Transform {
    Transform::new(1, 0, 0, 1, x, y)
}

fn moved(x: i64, y: i64) -> Matrix {
    shift(x, y).to_native()
}

impl Surfaces {
    fn new(has_canvas: bool) -> Surfaces {
        Surfaces {
            matrices: if has_canvas { vec![IDENTITY] } else { vec![] },
            boxes: vec![],
            failing: vec![],
            canvas_fails: false,
            created: 0,
            log: vec![],
            painted: vec![],
            pasted: vec![],
            clipped: vec![],
            filled: vec![],
        }
    }

    fn box_of(&self, node: usize) -> Rect {
        for (n, b) in &self.boxes {
            if *n == node {
                return *b;
            }
        }
        Rect::new(0, 0, 1, 1)
    }

    fn draw(&mut self, surface: usize, node: usize) -> Reply {
        assert_eq!(surface + 1, self.matrices.len(), "painted onto the innermost surface");
        self.painted.push((surface, node, self.matrices[surface]));
        Reply::Drawn(self.box_of(node))
    }

    fn perform(&mut self, action: Action) -> Option<Reply> {
        self.log.push(action);
        Some(match action {
            Action::CreateCanvas { .. } => {
                if self.canvas_fails {
                    Reply::Failed
                } else {
                    assert!(self.matrices.is_empty());
                    self.matrices.push(IDENTITY);
                    Reply::Created
                }
            }
            Action::Fill { color } => {
                self.filled.push(color);
                Reply::Done
            }
            Action::ApplyViewBox { view_box, view } => {
                let sx = (view.right - view.left) / (view_box.right - view_box.left);
                let sy = (view.bottom - view.top) / (view_box.bottom - view_box.top);
                let map = Matrix { xx: sx, yx: 0, xy: 0, yy: sy, x0: view.left, y0: view.top };
                self.matrices[0] = compose(map, self.matrices[0]);
                Reply::Done
            }
            Action::GetMatrix { surface } => Reply::Matrix(self.matrices[surface]),
            Action::SetMatrix { surface, matrix } => {
                self.matrices[surface] = matrix;
                Reply::Done
            }
            Action::ResetMatrix { surface } => {
                self.matrices[surface] = IDENTITY;
                Reply::Done
            }
            Action::Transform { surface, matrix } => {
                self.matrices[surface] = compose(matrix, self.matrices[surface]);
                Reply::Done
            }
            Action::DrawPath { surface, node } => self.draw(surface, node),
            Action::DrawText { surface, node } => self.draw(surface, node),
            Action::DrawImage { surface, node } => self.draw(surface, node),
            Action::CreateSurface { surface, .. } => {
                let n = self.created;
                self.created += 1;
                if self.failing.contains(&n) {
                    Reply::Failed
                } else {
                    assert_eq!(surface, self.matrices.len());
                    self.matrices.push(IDENTITY);
                    Reply::Created
                }
            }
            Action::ApplyClip { surface, clip, bbox } => {
                assert_eq!(surface + 1, self.matrices.len());
                self.clipped.push((surface, clip, bbox));
                Reply::Done
            }
            Action::Paste { onto, opacity } => {
                assert_eq!(onto + 2, self.matrices.len(), "the innermost surface is pasted");
                assert_eq!(self.matrices[onto], IDENTITY, "pasted at the origin");
                self.matrices.pop();
                self.pasted.push((onto, opacity));
                Reply::Done
            }
            Action::Finish { .. } | Action::Fail { .. } => return None,
        })
    }

    /// Drives the renderer to its end and returns its last action.
    fn run(&mut self, renderer: &mut Renderer) -> Action {
        for _ in 0..10_000 {
            let action = renderer.action();
            match self.perform(action) {
                Some(reply) => assert!(renderer.advance(reply)),
                None => return action,
            }
        }
        panic!("the renderer does not come to an end");
    }
}

fn document() -> RenderTree {
    RenderTree::new(Size::new(10, 10), Rect::new(0, 0, 10, 10))
}

fn view() -> Rect {
    Rect::new(0, 0, 10, 10)
}

fn group(opacity: Option<i64>, clip_path: Option<usize>) -> NodeKind {
    NodeKind::Group(Group { opacity, clip_path })
}

#[test]
fn a_single_path_is_transformed_drawn_and_restored() {
    let mut tree = RenderTree::new(Size::new(10, 10), Rect::new(0, 0, 10, 10));
    let path = tree.append(0, NodeKind::Path, shift(3, 3)).unwrap();
    let view = Rect::new(0, 0, 20, 20);
    let base = Matrix { xx: 2, yx: 0, xy: 0, yy: 2, x0: 0, y0: 0 };
    let mut r = render_to_canvas(view, &tree);
    assert_eq!(r.action(), Action::ApplyViewBox { view_box: Rect::new(0, 0, 10, 10), view });
    assert!(r.advance(Reply::Done));
    assert_eq!(r.action(), Action::GetMatrix { surface: 0 });
    assert!(r.advance(Reply::Matrix(base)));
    assert_eq!(r.action(), Action::Transform { surface: 0, matrix: moved(3, 3) });
    assert!(r.advance(Reply::Done));
    assert_eq!(r.action(), Action::DrawPath { surface: 0, node: path });
    assert!(r.advance(Reply::Drawn(Rect::new(1, 2, 3, 4))));
    assert_eq!(r.action(), Action::SetMatrix { surface: 0, matrix: base });
    assert!(r.advance(Reply::Done));
    assert_eq!(r.action(), Action::Finish { bbox: Rect::new(1, 2, 3, 4) });
    assert!(r.is_over());
    assert_eq!(r.outcome(), Some(Ok(Rect::new(1, 2, 3, 4))));
}

#[test]
fn each_kind_of_leaf_has_its_own_action() {
    let mut tree = document();
    let path = tree.append(0, NodeKind::Path, shift(0, 0)).unwrap();
    let text = tree.append(0, NodeKind::Text, shift(0, 0)).unwrap();
    let image = tree.append(0, NodeKind::Image, shift(0, 0)).unwrap();
    let mut surfaces = Surfaces::new(true);
    let mut r = render_to_canvas(view(), &tree);
    surfaces.run(&mut r);
    let draws: Vec<Action> = surfaces
        .log
        .iter()
        .copied()
        .filter(|a| {
            matches!(a, Action::DrawPath { .. } | Action::DrawText { .. } | Action::DrawImage { .. })
        })
        .collect();
    assert_eq!(
        draws,
        vec![
            Action::DrawPath { surface: 0, node: path },
            Action::DrawText { surface: 0, node: text },
            Action::DrawImage { surface: 0, node: image },
        ]
    );
}

#[test]
fn a_node_that_is_not_drawable_paints_nothing_and_has_no_box() {
    let mut tree = document();
    tree.append(0, NodeKind::ClipPath, shift(4, 4)).unwrap();
    let mut surfaces = Surfaces::new(true);
    let mut r = render_to_canvas(view(), &tree);
    let last = surfaces.run(&mut r);
    assert_eq!(last, Action::Finish { bbox: Rect::blank() });
    assert!(surfaces.painted.is_empty());
    assert_eq!(
        surfaces.log,
        vec![
            Action::ApplyViewBox { view_box: view(), view: view() },
            Action::GetMatrix { surface: 0 },
            Action::Transform { surface: 0, matrix: moved(4, 4) },
            Action::SetMatrix { surface: 0, matrix: IDENTITY },
            Action::Finish { bbox: Rect::blank() },
        ]
    );
}

#[test]
fn the_second_leaf_is_not_moved_by_the_first_leafs_transform() {
    let mut tree = document();
    let first = tree.append(0, NodeKind::Path, shift(5, 7)).unwrap();
    let second = tree.append(0, NodeKind::Path, shift(100, 200)).unwrap();
    let mut surfaces = Surfaces::new(true);
    let mut r = render_to_canvas(view(), &tree);
    surfaces.run(&mut r);
    assert_eq!(
        surfaces.painted,
        vec![(0, first, moved(5, 7)), (0, second, moved(100, 200))]
    );
    assert_eq!(surfaces.matrices, vec![IDENTITY]);
}

#[test]
fn the_matrix_is_restored_after_every_sibling() {
    let mut tree = document();
    tree.append(0, NodeKind::Path, shift(1, 0)).unwrap();
    let g = tree.append(0, group(None, None), shift(2, 0)).unwrap();
    tree.append(g, NodeKind::Text, shift(3, 0)).unwrap();
    tree.append(g, NodeKind::Image, shift(4, 0)).unwrap();
    tree.append(0, NodeKind::Path, shift(5, 0)).unwrap();
    let mut surfaces = Surfaces::new(true);
    surfaces.matrices[0] = moved(0, 9);
    let mut r = render_to_canvas(view(), &tree);
    loop {
        let action = r.action();
        let before_child = matches!(action, Action::Transform { .. });
        if let Action::Transform { surface, .. } = action {
            let expected = if surface == 0 { moved(0, 9) } else { moved(2, 9) };
            assert_eq!(surfaces.matrices[surface], expected);
        }
        match surfaces.perform(action) {
            Some(reply) => assert!(r.advance(reply)),
            None => break,
        }
        assert!(before_child || !matches!(action, Action::Transform { .. }));
    }
    assert_eq!(surfaces.matrices, vec![moved(0, 9)]);
}

#[test]
fn an_empty_group_has_a_box_without_area() {
    let mut tree = document();
    tree.append(0, group(None, None), shift(0, 0)).unwrap();
    let mut surfaces = Surfaces::new(true);
    let mut r = render_to_canvas(view(), &tree);
    let last = surfaces.run(&mut r);
    assert_eq!(last, Action::Finish { bbox: Rect::blank() });
    assert!(Rect::blank().is_degenerate());
    assert_eq!(r.outcome(), Some(Ok(Rect::blank())));
}

#[test]
fn an_empty_document_finishes_at_once() {
    let tree = document();
    let mut surfaces = Surfaces::new(true);
    let mut r = render_to_canvas(view(), &tree);
    let last = surfaces.run(&mut r);
    assert_eq!(last, Action::Finish { bbox: Rect::blank() });
    assert_eq!(surfaces.log.len(), 3);
}

#[test]
fn two_leaves_with_disjoint_boxes_have_their_exact_union() {
    let mut tree = document();
    let g = tree.append(0, group(None, None), shift(0, 0)).unwrap();
    let a = tree.append(g, NodeKind::Path, shift(0, 0)).unwrap();
    let b = tree.append(g, NodeKind::Path, shift(0, 0)).unwrap();
    let mut surfaces = Surfaces::new(true);
    surfaces.boxes = vec![(a, Rect::new(0, 0, 10, 10)), (b, Rect::new(20, 30, 25, 40))];
    let mut r = render_to_canvas(view(), &tree);
    let last = surfaces.run(&mut r);
    assert_eq!(last, Action::Finish { bbox: Rect::new(0, 0, 25, 40) });
}

#[test]
fn the_order_of_children_does_not_change_the_union() {
    let boxes = [Rect::new(0, 0, 10, 10), Rect::new(20, 30, 25, 40), Rect::new(-5, 3, -1, 4)];
    let orders = [[0, 1, 2], [0, 2, 1], [1, 0, 2], [1, 2, 0], [2, 0, 1], [2, 1, 0]];
    for order in orders {
        let mut tree = document();
        let mut surfaces = Surfaces::new(true);
        for i in order {
            let node = tree.append(0, NodeKind::Path, shift(0, 0)).unwrap();
            surfaces.boxes.push((node, boxes[i]));
        }
        let mut r = render_to_canvas(view(), &tree);
        let last = surfaces.run(&mut r);
        assert_eq!(last, Action::Finish { bbox: Rect::new(-5, 0, 25, 40) });
    }
}

#[test]
fn a_picture_without_area_has_no_canvas() {
    for (w, h) in [(0, 0), (-1, 5), (5, -1), (0, 7), (7, 0), (-3, -3)] {
        let tree = RenderTree::new(Size::new(w, h), view());
        let opt = Options { fit_to: FitTo::Intrinsic, background: None };
        assert_eq!(render_to_image(&tree, &opt).err(), Some(Error::NoCanvas));
    }
    let tree = document();
    for fit in [FitTo::Width(0), FitTo::Width(-4), FitTo::Height(0), FitTo::Height(-4)] {
        let opt = Options { fit_to: fit, background: None };
        assert_eq!(render_to_image(&tree, &opt).err(), Some(Error::NoCanvas));
    }
}

#[test]
fn a_canvas_that_cannot_be_allocated_ends_the_rendering() {
    let mut tree = document();
    tree.append(0, NodeKind::Path, shift(0, 0)).unwrap();
    let opt = Options { fit_to: FitTo::Intrinsic, background: Some(Color { red: 1, green: 2, blue: 3 }) };
    let mut r = render_to_image(&tree, &opt).unwrap();
    let mut surfaces = Surfaces::new(false);
    surfaces.canvas_fails = true;
    let last = surfaces.run(&mut r);
    assert_eq!(last, Action::Fail { error: Error::NoCanvas });
    assert_eq!(r.outcome(), Some(Err(Error::NoCanvas)));
    assert!(r.is_over());
    assert_eq!(
        surfaces.log,
        vec![
            Action::CreateCanvas { view: Rect::new(0, 0, 10, 10) },
            Action::Fail { error: Error::NoCanvas },
        ]
    );
    assert!(surfaces.painted.is_empty());
    assert!(surfaces.filled.is_empty());
}

#[test]
fn the_background_is_filled_before_anything_is_painted() {
    let mut tree = document();
    let path = tree.append(0, NodeKind::Path, shift(0, 0)).unwrap();
    let white = Color { red: 255, green: 255, blue: 255 };
    let opt = Options { fit_to: FitTo::Width(20), background: Some(white) };
    let mut r = render_to_image(&tree, &opt).unwrap();
    let mut surfaces = Surfaces::new(false);
    let last = surfaces.run(&mut r);
    let image = Rect::new(0, 0, 20, 20);
    let scaled = Matrix { xx: 2, yx: 0, xy: 0, yy: 2, x0: 0, y0: 0 };
    assert_eq!(
        surfaces.log,
        vec![
            Action::CreateCanvas { view: image },
            Action::Fill { color: white },
            Action::ApplyViewBox { view_box: view(), view: image },
            Action::GetMatrix { surface: 0 },
            Action::Transform { surface: 0, matrix: moved(0, 0) },
            Action::DrawPath { surface: 0, node: path },
            Action::SetMatrix { surface: 0, matrix: scaled },
            Action::Finish { bbox: Rect::new(0, 0, 1, 1) },
        ]
    );
    assert_eq!(last, Action::Finish { bbox: Rect::new(0, 0, 1, 1) });
}

#[test]
fn without_a_background_nothing_is_filled() {
    let tree = document();
    let opt = Options { fit_to: FitTo::Intrinsic, background: None };
    let mut r = render_to_image(&tree, &opt).unwrap();
    let mut surfaces = Surfaces::new(false);
    surfaces.run(&mut r);
    assert!(surfaces.filled.is_empty());
    assert_eq!(surfaces.log[0], Action::CreateCanvas { view: Rect::new(0, 0, 10, 10) });
    assert_eq!(surfaces.log[1], Action::ApplyViewBox { view_box: view(), view: view() });
}

#[test]
fn a_group_is_painted_on_a_surface_of_its_own_and_pasted_at_the_origin() {
    let mut tree = document();
    let g = tree.append(0, group(None, None), shift(2, 3)).unwrap();
    let leaf = tree.append(g, NodeKind::Path, shift(10, 20)).unwrap();
    let mut surfaces = Surfaces::new(true);
    surfaces.boxes = vec![(leaf, Rect::new(1, 1, 2, 2))];
    let mut r = render_to_canvas(view(), &tree);
    surfaces.run(&mut r);
    assert_eq!(
        surfaces.log,
        vec![
            Action::ApplyViewBox { view_box: view(), view: view() },
            Action::GetMatrix { surface: 0 },
            Action::Transform { surface: 0, matrix: moved(2, 3) },
            Action::CreateSurface { surface: 1, view: view() },
            Action::GetMatrix { surface: 0 },
            Action::SetMatrix { surface: 1, matrix: moved(2, 3) },
            Action::Transform { surface: 1, matrix: moved(10, 20) },
            Action::DrawPath { surface: 1, node: leaf },
            Action::SetMatrix { surface: 1, matrix: moved(2, 3) },
            Action::ResetMatrix { surface: 0 },
            Action::Paste { onto: 0, opacity: None },
            Action::SetMatrix { surface: 0, matrix: moved(2, 3) },
            Action::SetMatrix { surface: 0, matrix: IDENTITY },
            Action::Finish { bbox: Rect::new(1, 1, 2, 2) },
        ]
    );
}

#[test]
fn a_group_without_opacity_or_clip_paints_its_children_as_if_ungrouped() {
    let mut grouped = document();
    let g = grouped.append(0, group(None, None), shift(0, 0)).unwrap();
    grouped.append(g, NodeKind::Path, shift(1, 2)).unwrap();
    grouped.append(g, NodeKind::Text, shift(3, 4)).unwrap();
    let mut plain = document();
    plain.append(0, NodeKind::Path, shift(1, 2)).unwrap();
    plain.append(0, NodeKind::Text, shift(3, 4)).unwrap();

    let mut a = Surfaces::new(true);
    let mut r = render_to_canvas(view(), &grouped);
    let last_grouped = a.run(&mut r);
    let mut b = Surfaces::new(true);
    let mut r = render_to_canvas(view(), &plain);
    let last_plain = b.run(&mut r);

    let matrices_grouped: Vec<Matrix> = a.painted.iter().map(|p| p.2).collect();
    let matrices_plain: Vec<Matrix> = b.painted.iter().map(|p| p.2).collect();
    assert_eq!(matrices_grouped, matrices_plain);
    assert_eq!(a.pasted, vec![(0, None)]);
    assert!(a.clipped.is_empty());
    assert_eq!(last_grouped, last_plain);
}

#[test]
fn a_group_is_pasted_with_its_own_opacity() {
    let mut tree = document();
    let outer = tree.append(0, group(Some(50), None), shift(0, 0)).unwrap();
    tree.append(outer, NodeKind::Path, shift(0, 0)).unwrap();
    let inner = tree.append(outer, group(Some(25), None), shift(0, 0)).unwrap();
    tree.append(inner, NodeKind::Path, shift(0, 0)).unwrap();
    let mut surfaces = Surfaces::new(true);
    let mut r = render_to_canvas(view(), &tree);
    surfaces.run(&mut r);
    assert_eq!(surfaces.pasted, vec![(1, Some(25)), (0, Some(50))]);
    let surfaces_painted: Vec<usize> = surfaces.painted.iter().map(|p| p.0).collect();
    assert_eq!(surfaces_painted, vec![1, 2]);
}

#[test]
fn a_failing_group_is_left_out_and_its_siblings_are_painted() {
    let mut tree = document();
    let mut leaves = vec![];
    for i in 0..3 {
        let g = tree.append(0, group(None, None), shift(i, 0)).unwrap();
        leaves.push(tree.append(g, NodeKind::Path, shift(0, 0)).unwrap());
    }
    let mut surfaces = Surfaces::new(true);
    surfaces.boxes = vec![
        (leaves[0], Rect::new(0, 0, 1, 1)),
        (leaves[1], Rect::new(100, 100, 200, 200)),
        (leaves[2], Rect::new(5, 5, 6, 6)),
    ];
    surfaces.failing = vec![1];
    let mut r = render_to_canvas(view(), &tree);
    let last = surfaces.run(&mut r);
    let painted: Vec<usize> = surfaces.painted.iter().map(|p| p.1).collect();
    assert_eq!(painted, vec![leaves[0], leaves[2]]);
    assert_eq!(surfaces.pasted, vec![(0, None), (0, None)]);
    assert_eq!(last, Action::Finish { bbox: Rect::new(0, 0, 6, 6) });
    assert_eq!(surfaces.matrices, vec![IDENTITY]);
    let third = surfaces.painted[1];
    assert_eq!(third.2, moved(2, 0));
}

#[test]
fn a_failing_group_alone_leaves_the_box_blank() {
    let mut tree = document();
    let g = tree.append(0, group(Some(10), None), shift(0, 0)).unwrap();
    tree.append(g, NodeKind::Path, shift(0, 0)).unwrap();
    let mut surfaces = Surfaces::new(true);
    surfaces.failing = vec![0];
    let mut r = render_to_canvas(view(), &tree);
    let last = surfaces.run(&mut r);
    assert_eq!(last, Action::Finish { bbox: Rect::blank() });
    assert!(surfaces.painted.is_empty());
    assert!(surfaces.pasted.is_empty());
}

#[test]
fn a_group_is_clipped_after_its_children_and_before_it_is_pasted() {
    let mut tree = document();
    let clip_node = tree.append(0, NodeKind::ClipPath, shift(0, 0)).unwrap();
    let clip = tree.define(clip_node).unwrap();
    let g = tree.append(0, group(None, Some(clip)), shift(0, 0)).unwrap();
    let a = tree.append(g, NodeKind::Path, shift(0, 0)).unwrap();
    let b = tree.append(g, NodeKind::Path, shift(0, 0)).unwrap();
    let mut surfaces = Surfaces::new(true);
    surfaces.boxes = vec![(a, Rect::new(0, 0, 4, 4)), (b, Rect::new(2, 2, 8, 8))];
    let mut r = render_to_canvas(view(), &tree);
    surfaces.run(&mut r);
    assert_eq!(surfaces.clipped, vec![(1, clip, Rect::new(0, 0, 8, 8))]);
    let at = |wanted: &dyn Fn(&Action) -> bool| surfaces.log.iter().position(|a| wanted(a)).unwrap();
    let last_draw = surfaces.log.iter().rposition(|a| matches!(a, Action::DrawPath { .. })).unwrap();
    let clipping = at(&|a| matches!(a, Action::ApplyClip { .. }));
    let pasting = at(&|a| matches!(a, Action::Paste { .. }));
    assert!(last_draw < clipping && clipping < pasting);
}

#[test]
fn a_clip_reference_that_names_no_clip_path_is_passed_over() {
    let mut tree = document();
    let other = tree.append(0, NodeKind::Path, shift(0, 0)).unwrap();
    let not_a_clip = tree.define(other).unwrap();
    let g = tree.append(0, group(None, Some(not_a_clip)), shift(0, 0)).unwrap();
    tree.append(g, NodeKind::Path, shift(0, 0)).unwrap();
    let h = tree.append(0, group(None, Some(77)), shift(0, 0)).unwrap();
    tree.append(h, NodeKind::Path, shift(0, 0)).unwrap();
    let mut surfaces = Surfaces::new(true);
    let mut r = render_to_canvas(view(), &tree);
    surfaces.run(&mut r);
    assert!(surfaces.clipped.is_empty());
    assert_eq!(surfaces.pasted.len(), 2);
}

#[test]
fn a_reply_that_does_not_answer_the_action_changes_nothing() {
    let mut tree = document();
    tree.append(0, NodeKind::Path, shift(0, 0)).unwrap();
    let mut r = render_to_canvas(view(), &tree);
    let first = r.action();
    assert!(!r.accepts(&Reply::Created));
    assert!(!r.advance(Reply::Created));
    assert!(!r.advance(Reply::Matrix(IDENTITY)));
    assert!(!r.advance(Reply::Drawn(view())));
    assert_eq!(r.action(), first);
    assert!(r.accepts(&Reply::Done));
    assert!(r.advance(Reply::Done));
    assert_eq!(r.action(), Action::GetMatrix { surface: 0 });
    assert!(!r.advance(Reply::Done));
    assert_eq!(r.action(), Action::GetMatrix { surface: 0 });
    assert_eq!(r.outcome(), None);
    assert!(!r.is_over());
}

#[test]
fn nothing_is_accepted_once_rendering_is_over() {
    let tree = document();
    let mut surfaces = Surfaces::new(true);
    let mut r = render_to_canvas(view(), &tree);
    let last = surfaces.run(&mut r);
    for reply in [Reply::Done, Reply::Created, Reply::Failed, Reply::Matrix(IDENTITY)] {
        assert!(!r.advance(reply));
        assert_eq!(r.action(), last);
    }
}

#[test]
fn every_surface_is_as_large_as_the_picture() {
    let mut tree = document();
    let g = tree.append(0, group(None, None), shift(0, 0)).unwrap();
    let h = tree.append(g, group(None, None), shift(0, 0)).unwrap();
    tree.append(h, NodeKind::Path, shift(0, 0)).unwrap();
    let picture = Rect::new(3, 4, 300, 400);
    let mut surfaces = Surfaces::new(true);
    let mut r = render_to_canvas(picture, &tree);
    surfaces.run(&mut r);
    let created: Vec<Action> = surfaces
        .log
        .iter()
        .copied()
        .filter(|a| matches!(a, Action::CreateSurface { .. }))
        .collect();
    assert_eq!(
        created,
        vec![
            Action::CreateSurface { surface: 1, view: picture },
            Action::CreateSurface { surface: 2, view: picture },
        ]
    );
    assert_eq!(surfaces.matrices.len(), 1);
}
