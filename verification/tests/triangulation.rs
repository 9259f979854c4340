use cdt_rs::geometry::{Point, Triangle};
use cdt_rs::triangulation::{bowyer_watson, triangulate, TriangulationError};

// Coordinates are exact half-units throughout: a stored value of 1 is one
// half of a geometric unit, so (0.5, 1) is written as x = 1, y = 2.

fn pt(x: i64, y: i64) -> Point {
    Point { x, y }
}

fn vertex_set(t: &Triangle) -> Vec<Point> {
    let mut vs = vec![t.a, t.b, t.c];
    vs.sort_by_key(|p| (p.x, p.y));
    vs
}

fn index_triples(points: &[Point], tris: &[Triangle]) -> Vec<[usize; 3]> {
    let mut out: Vec<[usize; 3]> = Vec::new();
    for t in tris {
        let mut triple = [
            points.iter().position(|p| *p == t.a).unwrap(),
            points.iter().position(|p| *p == t.b).unwrap(),
            points.iter().position(|p| *p == t.c).unwrap(),
        ];
        triple.sort();
        out.push(triple);
    }
    out.sort();
    out
}

#[test]
fn delaunay_triangulation_construction() {
    // (0, 0), (1, 0), (0.5, 1) in half-units.
    let points = vec![pt(0, 0), pt(2, 0), pt(1, 2)];

    let triangulation = bowyer_watson(points);

    assert_eq!(triangulation.len(), 1);
    assert!(triangulation.contains(&Triangle { a: pt(0, 0), b: pt(2, 0), c: pt(1, 2) }));
}

#[test]
fn single_triangle_any_insertion_order() {
    let a = pt(0, 0);
    let b = pt(2, 0);
    let c = pt(1, 2);
    let orders = vec![
        vec![a, b, c],
        vec![a, c, b],
        vec![b, a, c],
        vec![b, c, a],
        vec![c, a, b],
        vec![c, b, a],
    ];
    let expected = vertex_set(&Triangle { a, b, c });
    for order in orders {
        let out = bowyer_watson(order);
        assert_eq!(out.len(), 1);
        assert_eq!(vertex_set(&out[0]), expected);
    }
}

#[test]
fn unit_square_two_triangles() {
    // The unit square (0,0), (1,0), (1,1), (0,1) in half-units.
    let points = vec![pt(0, 0), pt(2, 0), pt(2, 2), pt(0, 2)];
    let out = bowyer_watson(points);
    assert_eq!(out.len(), 2);
    assert!(out.contains(&Triangle { a: pt(0, 0), b: pt(2, 0), c: pt(2, 2) }));
    assert!(out.contains(&Triangle { a: pt(0, 0), b: pt(2, 2), c: pt(0, 2) }));
    // The two triangles share exactly the diagonal from (0,0) to (1,1).
    let shared: Vec<Point> = vertex_set(&out[0])
        .into_iter()
        .filter(|v| vertex_set(&out[1]).contains(v))
        .collect();
    assert_eq!(shared, vec![pt(0, 0), pt(2, 2)]);
}

#[test]
fn cocircular_square_deterministic() {
    // The four corners of an axis-aligned square are co-circular; for a
    // fixed insertion order exactly one of the two diagonal triangulations
    // comes out, and it comes out the same every run.
    let points = vec![pt(0, 0), pt(2, 0), pt(2, 2), pt(0, 2)];
    let first = bowyer_watson(points.clone());
    let second = bowyer_watson(points.clone());
    assert_eq!(first, second);
    assert_eq!(first.len(), 2);
    let shared: Vec<Point> = vertex_set(&first[0])
        .into_iter()
        .filter(|v| vertex_set(&first[1]).contains(v))
        .collect();
    let main_diagonal = shared == vec![pt(0, 0), pt(2, 2)];
    let anti_diagonal = shared == vec![pt(0, 2), pt(2, 0)];
    assert!(main_diagonal || anti_diagonal);
}

#[test]
fn scaled_square_same_combinatorics() {
    let points = vec![pt(0, 0), pt(2, 0), pt(2, 2), pt(0, 2)];
    let scaled: Vec<Point> = points.iter().map(|p| pt(p.x * 3, p.y * 3)).collect();
    let out = bowyer_watson(points.clone());
    let out_scaled = bowyer_watson(scaled.clone());
    assert_eq!(index_triples(&points, &out), index_triples(&scaled, &out_scaled));
}

#[test]
fn fewer_than_three_points_empty() {
    assert_eq!(bowyer_watson(vec![]), vec![]);
    assert_eq!(bowyer_watson(vec![pt(5, 7)]), vec![]);
    assert_eq!(bowyer_watson(vec![pt(0, 0), pt(9, 3)]), vec![]);
    assert_eq!(bowyer_watson(vec![pt(4, 4), pt(4, 4)]), vec![]);
}

#[test]
fn empty_circle_property_sampled() {
    // Two fixed samples of ten scattered points; for every output triangle
    // no other input point lies strictly inside its circumcircle.
    let samples = vec![
        vec![
            pt(43, -30),
            pt(25, 24),
            pt(15, -2),
            pt(-3, 36),
            pt(-13, -2),
            pt(9, -8),
            pt(-37, -18),
            pt(1, -4),
            pt(-29, 38),
            pt(-23, 8),
        ],
        vec![
            pt(-31, 27),
            pt(12, 40),
            pt(33, -19),
            pt(-8, -33),
            pt(20, 14),
            pt(-40, -5),
            pt(5, 5),
            pt(-17, -21),
            pt(38, 31),
            pt(-2, 18),
        ],
    ];
    for points in samples {
        let out = bowyer_watson(points.clone());
        assert!(out.len() > 0);
        for t in &out {
            for p in &points {
                if *p != t.a && *p != t.b && *p != t.c {
                    assert!(!t.circumcircle_contains(p));
                }
            }
        }
    }
}

#[test]
fn triangulate_matches_bowyer_watson() {
    let points = vec![pt(0, 0), pt(2, 0), pt(1, 2)];
    let out = triangulate(points.clone()).unwrap();
    assert_eq!(out, bowyer_watson(points));
}

#[test]
fn triangulate_rejects_out_of_bounds() {
    let points = vec![pt(0, 0), pt(200_001, 0), pt(1, 2)];
    assert_eq!(triangulate(points), Err(TriangulationError::PointOutOfBounds));
    let points = vec![pt(0, -200_001)];
    assert_eq!(triangulate(points), Err(TriangulationError::PointOutOfBounds));
}

#[test]
fn triangulate_accepts_boundary_coordinates() {
    // Coordinates of the largest admissible magnitude are validated, even
    // though points that far out sit outside the super-triangle itself and
    // triangulate to nothing useful.
    let points = vec![pt(200_000, 200_000)];
    assert!(triangulate(points).is_ok());
}
