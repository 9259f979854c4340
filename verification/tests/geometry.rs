use cdt_rs::geometry::{Point, Triangle};

fn pt(x: i64, y: i64) -> Point {
    Point { x, y }
}

#[test]
fn triangle_center() {
    // (0, 0), (1, 0), (0, 1) in half-units; the expected center is
    // (0.5, 0.5), stored as (1, 1).
    let triangle = Triangle { a: pt(0, 0), b: pt(2, 0), c: pt(0, 2) };

    let center = triangle.center();
    println!("{:?}", center);
    assert_eq!(center, pt(1, 1));
}

#[test]
fn center_rounds_down() {
    let triangle = Triangle { a: pt(0, 0), b: pt(1, 0), c: pt(0, 3) };
    assert_eq!(triangle.center(), pt(0, 1));
}

#[test]
fn center_ignores_translation_sign() {
    let triangle = Triangle { a: pt(-4, -6), b: pt(2, 0), c: pt(0, 2) };
    // Bounding box is 6 wide and 8 tall.
    assert_eq!(triangle.center(), pt(3, 4));
}

#[test]
fn contains_vertex_is_exact_equality() {
    let t = Triangle { a: pt(0, 0), b: pt(4, 0), c: pt(0, 4) };
    assert!(t.contains_vertex(&pt(0, 0)));
    assert!(t.contains_vertex(&pt(4, 0)));
    assert!(t.contains_vertex(&pt(0, 4)));
    assert!(!t.contains_vertex(&pt(1, 1)));
    assert!(!t.contains_vertex(&pt(-4, 0)));
}

#[test]
fn circumcircle_contains_interior_point() {
    let t = Triangle { a: pt(0, 0), b: pt(4, 0), c: pt(0, 4) };
    assert!(t.circumcircle_contains(&pt(1, 1)));
    // The circumcircle of this right triangle is centered at (2, 2) with
    // squared radius 8, so (4, 4) lies on it and (5, 5) outside.
    assert!(t.circumcircle_contains(&pt(2, 2)));
    assert!(!t.circumcircle_contains(&pt(4, 4)));
    assert!(!t.circumcircle_contains(&pt(5, 5)));
}

#[test]
fn circumcircle_of_vertices_is_boundary() {
    let t = Triangle { a: pt(0, 0), b: pt(4, 0), c: pt(0, 4) };
    assert!(!t.circumcircle_contains(&pt(0, 0)));
    assert!(!t.circumcircle_contains(&pt(4, 0)));
    assert!(!t.circumcircle_contains(&pt(0, 4)));
}

#[test]
fn degenerate_triangle_contains_nothing() {
    let t = Triangle { a: pt(0, 0), b: pt(2, 2), c: pt(4, 4) };
    assert!(!t.circumcircle_contains(&pt(1, 1)));
    assert!(!t.circumcircle_contains(&pt(0, 0)));
    assert!(!t.circumcircle_contains(&pt(100, -100)));
}
