use scene_render::geom::{Matrix, Rect, Size, Transform};
use scene_render::render::{fit_to, FitTo};

#[test]
fn the_blank_box_is_neutral_and_covers_nothing() {
    let blank = Rect::blank();
    assert!(blank.is_degenerate());
    assert_eq!(blank, Rect::new(i64::MAX, i64::MAX, i64::MIN, i64::MIN));
    let mut acc = Rect::blank();
    acc.expand(Rect::new(-3, 4, 5, 6));
    assert_eq!(acc, Rect::new(-3, 4, 5, 6));
    let mut other = Rect::new(-3, 4, 5, 6);
    other.expand(Rect::blank());
    assert_eq!(other, Rect::new(-3, 4, 5, 6));
}

#[test]
fn expand_takes_the_outer_edges() {
    let mut acc = Rect::new(0, 0, 10, 10);
    acc.expand(Rect::new(-5, 2, 3, 40));
    assert_eq!(acc, Rect::new(-5, 0, 10, 40));
    acc.expand(Rect::new(1, 1, 2, 2));
    assert_eq!(acc, Rect::new(-5, 0, 10, 40));
    acc.expand(Rect::new(i64::MIN, i64::MIN, i64::MAX, i64::MAX));
    assert_eq!(acc, Rect::new(i64::MIN, i64::MIN, i64::MAX, i64::MAX));
}

#[test]
fn expand_gives_the_same_box_in_either_order() {
    let a = Rect::new(0, 0, 10, 10);
    let b = Rect::new(20, 30, 25, 40);
    let mut ab = a;
    ab.expand(b);
    let mut ba = b;
    ba.expand(a);
    assert_eq!(ab, ba);
    assert_eq!(ab, Rect::new(0, 0, 25, 40));
}

#[test]
fn a_box_is_degenerate_without_width_or_height() {
    assert!(Rect::new(0, 0, 0, 5).is_degenerate());
    assert!(Rect::new(0, 0, 5, 0).is_degenerate());
    assert!(Rect::new(3, 0, 2, 5).is_degenerate());
    assert!(!Rect::new(0, 0, 1, 1).is_degenerate());
}

#[test]
fn the_box_of_a_size_starts_at_the_origin() {
    assert_eq!(Rect::from_size(Size::new(30, 40)), Rect::new(0, 0, 30, 40));
    assert!(Rect::from_size(Size::new(0, 40)).is_degenerate());
    assert!(Rect::from_size(Size::new(-1, 40)).is_degenerate());
}

#[test]
fn a_size_is_empty_or_negative_with_one_such_extent() {
    assert!(Size::new(0, 0).is_empty_or_negative());
    assert!(Size::new(0, 1).is_empty_or_negative());
    assert!(Size::new(1, 0).is_empty_or_negative());
    assert!(Size::new(-1, 1).is_empty_or_negative());
    assert!(Size::new(1, -1).is_empty_or_negative());
    assert!(!Size::new(1, 1).is_empty_or_negative());
}

#[test]
fn a_transform_keeps_its_coefficients_as_a_matrix_and_back() {
    let t = Transform::new(1, 2, 3, 4, 5, 6);
    let m = t.to_native();
    assert_eq!(m, Matrix { xx: 1, yx: 2, xy: 3, yy: 4, x0: 5, y0: 6 });
    assert_eq!(Transform::from_native(&m), t);
    let n = Matrix { xx: -1, yx: 0, xy: 7, yy: i64::MAX, x0: i64::MIN, y0: 9 };
    assert_eq!(Transform::from_native(&n).to_native(), n);
    assert_eq!(Transform::from_native(&n), Transform::new(-1, 0, 7, i64::MAX, i64::MIN, 9));
}

#[test]
fn fitting_keeps_the_intrinsic_size() {
    assert_eq!(fit_to(Size::new(30, 40), FitTo::Intrinsic), Size::new(30, 40));
    assert_eq!(fit_to(Size::new(-3, 0), FitTo::Intrinsic), Size::new(-3, 0));
}

#[test]
fn fitting_to_a_width_scales_the_height_and_rounds_up() {
    assert_eq!(fit_to(Size::new(30, 40), FitTo::Width(60)), Size::new(60, 80));
    assert_eq!(fit_to(Size::new(30, 40), FitTo::Width(10)), Size::new(10, 14));
    assert_eq!(fit_to(Size::new(3, 1), FitTo::Width(1)), Size::new(1, 1));
    assert_eq!(fit_to(Size::new(3, 3), FitTo::Width(3)), Size::new(3, 3));
}

#[test]
fn fitting_to_a_height_scales_the_width_and_rounds_up() {
    assert_eq!(fit_to(Size::new(30, 40), FitTo::Height(20)), Size::new(15, 20));
    assert_eq!(fit_to(Size::new(30, 40), FitTo::Height(1)), Size::new(1, 1));
    assert_eq!(fit_to(Size::new(10, 3), FitTo::Height(4)), Size::new(14, 4));
}

#[test]
fn fitting_does_not_go_beyond_the_largest_number() {
    assert_eq!(
        fit_to(Size::new(1, i64::MAX), FitTo::Width(i64::MAX)),
        Size::new(i64::MAX, i64::MAX)
    );
    assert_eq!(fit_to(Size::new(i64::MAX, 1), FitTo::Height(2)), Size::new(i64::MAX, 2));
    assert_eq!(fit_to(Size::new(i64::MAX, i64::MAX), FitTo::Width(5)), Size::new(5, 5));
}

#[test]
fn fitting_a_size_without_area_or_to_nothing_gives_no_area() {
    assert_eq!(fit_to(Size::new(0, 40), FitTo::Width(60)), Size::new(0, 40));
    assert_eq!(fit_to(Size::new(30, -1), FitTo::Height(60)), Size::new(30, -1));
    assert_eq!(fit_to(Size::new(30, 40), FitTo::Width(0)), Size::new(0, 0));
    assert_eq!(fit_to(Size::new(30, 40), FitTo::Width(-2)), Size::new(-2, 0));
    assert_eq!(fit_to(Size::new(30, 40), FitTo::Height(0)), Size::new(0, 0));
    assert_eq!(fit_to(Size::new(30, 40), FitTo::Height(-2)), Size::new(0, -2));
}
