//! The incremental Bowyer-Watson triangulation: a functional model of the
//! algorithm as spec functions, and the executable engine proved equal to it.
//!
//! The model mirrors the algorithm step for step: seed the working set with
//! the super-triangle; for each input point collect the bad triangles (those
//! whose circumcircle strictly contains the point), extract the cavity
//! boundary polygon, drop the bad triangles and connect every boundary edge
//! to the new point; finally prune every triangle that still touches a
//! super-triangle vertex.

use vstd::prelude::*;

use crate::geometry::{
    COORD_BOUND, Point, Triangle, has_vertex, in_bounds_pt, in_circumcircle, tri_in_bounds,
};

verus! {

/// The fixed bootstrap triangle. It encloses every point the bound admits
/// vertically and horizontally; its vertices are scaffolding and never
/// appear in the output.
pub open spec fn super_triangle() -> Triangle {
    Triangle {
        a: Point { x: (-COORD_BOUND) as i64, y: (-COORD_BOUND) as i64 },
        b: Point { x: COORD_BOUND, y: (-COORD_BOUND) as i64 },
        c: Point { x: 0, y: COORD_BOUND },
    }
}

/// The bad triangles among the first `i` elements of `ts`, in order: those
/// whose circumcircle strictly contains `p`.
pub open spec fn bad_upto(ts: Seq<Triangle>, p: Point, i: int) -> Seq<Triangle>
    decreases i,
{
    if i <= 0 {
        Seq::<Triangle>::empty()
    } else {
        let pre = bad_upto(ts, p, i - 1);
        if in_circumcircle(ts[i - 1], p) {
            pre.push(ts[i - 1])
        } else {
            pre
        }
    }
}

/// All bad triangles of `ts` for the insertion of `p`, in scan order.
pub open spec fn bad_triangles(ts: Seq<Triangle>, p: Point) -> Seq<Triangle> {
    bad_upto(ts, p, ts.len() as int)
}

/// The triangles among the first `i` elements of `ts` that survive the
/// insertion of `p`: those whose circumcircle does not contain it.
pub open spec fn kept_upto(ts: Seq<Triangle>, p: Point, i: int) -> Seq<Triangle>
    decreases i,
{
    if i <= 0 {
        Seq::<Triangle>::empty()
    } else {
        let pre = kept_upto(ts, p, i - 1);
        if !in_circumcircle(ts[i - 1], p) {
            pre.push(ts[i - 1])
        } else {
            pre
        }
    }
}

/// All triangles of `ts` that survive the insertion of `p`, in order.
pub open spec fn kept_triangles(ts: Seq<Triangle>, p: Point) -> Seq<Triangle> {
    kept_upto(ts, p, ts.len() as int)
}

/// The directed edge `(u, v)` of the bad triangle `bt` is shared: some
/// other bad triangle (by value inequality) has both endpoints among its
/// vertices. Shared edges are interior to the cavity and excluded from the
/// boundary polygon.
pub open spec fn edge_shared(bad: Seq<Triangle>, bt: Triangle, u: Point, v: Point) -> bool {
    exists|j: int|
        0 <= j < bad.len() && (#[trigger] bad[j]) != bt && has_vertex(bad[j], u) && has_vertex(
            bad[j],
            v,
        )
}

/// `e` is one of the three directed edges of `t`, in the fixed cyclic order.
pub open spec fn is_edge_of(e: (Point, Point), t: Triangle) -> bool {
    e == (t.a, t.b) || e == (t.b, t.c) || e == (t.c, t.a)
}

/// The edges of the bad triangle `bt` that lie on the cavity boundary: its
/// three directed edges in cyclic order, each kept iff no other bad triangle
/// shares both endpoints.
pub open spec fn boundary_edges_of(bad: Seq<Triangle>, bt: Triangle) -> Seq<(Point, Point)> {
    (if !edge_shared(bad, bt, bt.a, bt.b) {
        seq![(bt.a, bt.b)]
    } else {
        Seq::<(Point, Point)>::empty()
    }) + (if !edge_shared(bad, bt, bt.b, bt.c) {
        seq![(bt.b, bt.c)]
    } else {
        Seq::<(Point, Point)>::empty()
    }) + (if !edge_shared(bad, bt, bt.c, bt.a) {
        seq![(bt.c, bt.a)]
    } else {
        Seq::<(Point, Point)>::empty()
    })
}

/// The boundary edges contributed by the first `i` bad triangles, in order.
pub open spec fn polygon_upto(bad: Seq<Triangle>, i: int) -> Seq<(Point, Point)>
    decreases i,
{
    if i <= 0 {
        Seq::<(Point, Point)>::empty()
    } else {
        polygon_upto(bad, i - 1) + boundary_edges_of(bad, bad[i - 1])
    }
}

/// The whole cavity boundary polygon, as a list of directed edges that is
/// not deduplicated for direction.
pub open spec fn cavity_polygon(bad: Seq<Triangle>) -> Seq<(Point, Point)> {
    polygon_upto(bad, bad.len() as int)
}

/// The first `i` retriangulation triangles: one triangle `(u, v, p)` per
/// boundary edge `(u, v)`.
pub open spec fn new_triangles_upto(polygon: Seq<(Point, Point)>, p: Point, i: int) -> Seq<
    Triangle,
>
    decreases i,
{
    if i <= 0 {
        Seq::<Triangle>::empty()
    } else {
        new_triangles_upto(polygon, p, i - 1).push(
            Triangle { a: polygon[i - 1].0, b: polygon[i - 1].1, c: p },
        )
    }
}

/// All retriangulation triangles for the insertion of `p`.
pub open spec fn new_triangles(polygon: Seq<(Point, Point)>, p: Point) -> Seq<Triangle> {
    new_triangles_upto(polygon, p, polygon.len() as int)
}

/// One insertion step: the surviving triangles followed by the
/// retriangulation of the cavity boundary.
pub open spec fn insert_point(ts: Seq<Triangle>, p: Point) -> Seq<Triangle> {
    kept_triangles(ts, p) + new_triangles(cavity_polygon(bad_triangles(ts, p)), p)
}

/// The working triangle set after the first `i` points have been inserted,
/// starting from the seed triangle `st`.
pub open spec fn inserted_upto(points: Seq<Point>, st: Triangle, i: int) -> Seq<Triangle>
    decreases i,
{
    if i <= 0 {
        seq![st]
    } else {
        insert_point(inserted_upto(points, st, i - 1), points[i - 1])
    }
}

/// `t` references none of the vertices of `st`.
pub open spec fn avoids_vertices(t: Triangle, st: Triangle) -> bool {
    !has_vertex(t, st.a) && !has_vertex(t, st.b) && !has_vertex(t, st.c)
}

/// The triangles among the first `i` elements of `ts` that reference no
/// vertex of `st`, in order.
pub open spec fn pruned_upto(ts: Seq<Triangle>, st: Triangle, i: int) -> Seq<Triangle>
    decreases i,
{
    if i <= 0 {
        Seq::<Triangle>::empty()
    } else {
        let pre = pruned_upto(ts, st, i - 1);
        if avoids_vertices(ts[i - 1], st) {
            pre.push(ts[i - 1])
        } else {
            pre
        }
    }
}

/// Finalization: every triangle still touching a vertex of `st` is removed.
pub open spec fn pruned(ts: Seq<Triangle>, st: Triangle) -> Seq<Triangle> {
    pruned_upto(ts, st, ts.len() as int)
}

/// The full triangulation of `points`, seeded with an arbitrary bootstrap
/// triangle `st`.
pub open spec fn triangulation_with(points: Seq<Point>, st: Triangle) -> Seq<Triangle> {
    pruned(inserted_upto(points, st, points.len() as int), st)
}

/// The full triangulation of `points` with the fixed super-triangle: the
/// value `bowyer_watson` computes.
pub open spec fn triangulation_of(points: Seq<Point>) -> Seq<Triangle> {
    triangulation_with(points, super_triangle())
}

/// All three vertices of `t` belong to the point set `s`.
pub open spec fn tri_vertices_in(t: Triangle, s: Set<Point>) -> bool {
    s.contains(t.a) && s.contains(t.b) && s.contains(t.c)
}

/// Every element of `bad_upto(ts, p, i)` is an element of `ts` whose
/// circumcircle strictly contains `p`.
pub proof fn lemma_bad_upto_elems(ts: Seq<Triangle>, p: Point, i: int)
    requires
        0 <= i <= ts.len(),
    ensures
        forall|j: int|
            0 <= j < bad_upto(ts, p, i).len() ==> ts.contains(#[trigger] bad_upto(ts, p, i)[j])
                && in_circumcircle(bad_upto(ts, p, i)[j], p),
    decreases i,
{
    if i > 0 {
        lemma_bad_upto_elems(ts, p, i - 1);
        assert(ts.contains(ts[i - 1]));
        let pre = bad_upto(ts, p, i - 1);
        let cur = bad_upto(ts, p, i);
        assert forall|j: int| 0 <= j < cur.len() implies ts.contains(#[trigger] cur[j])
            && in_circumcircle(cur[j], p) by {
            if j < pre.len() {
                assert(cur[j] == pre[j]);
            } else {
                assert(cur[j] == ts[i - 1]);
            }
        }
    }
}

/// Every element of `kept_upto(ts, p, i)` is an element of `ts` whose
/// circumcircle does not contain `p`.
pub proof fn lemma_kept_upto_elems(ts: Seq<Triangle>, p: Point, i: int)
    requires
        0 <= i <= ts.len(),
    ensures
        forall|j: int|
            0 <= j < kept_upto(ts, p, i).len() ==> ts.contains(#[trigger] kept_upto(ts, p, i)[j])
                && !in_circumcircle(kept_upto(ts, p, i)[j], p),
    decreases i,
{
    if i > 0 {
        lemma_kept_upto_elems(ts, p, i - 1);
        assert(ts.contains(ts[i - 1]));
        let pre = kept_upto(ts, p, i - 1);
        let cur = kept_upto(ts, p, i);
        assert forall|j: int| 0 <= j < cur.len() implies ts.contains(#[trigger] cur[j])
            && !in_circumcircle(cur[j], p) by {
            if j < pre.len() {
                assert(cur[j] == pre[j]);
            } else {
                assert(cur[j] == ts[i - 1]);
            }
        }
    }
}

/// Every edge of the boundary polygon is a directed edge of some bad
/// triangle.
pub proof fn lemma_polygon_upto_edges(bad: Seq<Triangle>, i: int)
    requires
        0 <= i <= bad.len(),
    ensures
        forall|j: int|
            0 <= j < polygon_upto(bad, i).len() ==> exists|k: int|
                0 <= k < bad.len() && is_edge_of(#[trigger] polygon_upto(bad, i)[j], bad[k]),
    decreases i,
{
    if i > 0 {
        lemma_polygon_upto_edges(bad, i - 1);
        let pre = polygon_upto(bad, i - 1);
        let extra = boundary_edges_of(bad, bad[i - 1]);
        assert forall|j: int| 0 <= j < polygon_upto(bad, i).len() implies exists|k: int|
            0 <= k < bad.len() && is_edge_of(#[trigger] polygon_upto(bad, i)[j], bad[k]) by {
            if j < pre.len() {
                assert(polygon_upto(bad, i)[j] == pre[j]);
            } else {
                assert(polygon_upto(bad, i)[j] == extra[j - pre.len()]);
                assert(is_edge_of(extra[j - pre.len()], bad[i - 1]));
            }
        }
    }
}

/// Shape of the retriangulation: one triangle per boundary edge, with the
/// edge's endpoints as first two vertices and `p` as the third.
pub proof fn lemma_new_triangles_upto_shape(polygon: Seq<(Point, Point)>, p: Point, i: int)
    requires
        0 <= i <= polygon.len(),
    ensures
        new_triangles_upto(polygon, p, i).len() == i,
        forall|j: int|
            0 <= j < i ==> #[trigger] new_triangles_upto(polygon, p, i)[j] == (Triangle {
                a: polygon[j].0,
                b: polygon[j].1,
                c: p,
            }),
    decreases i,
{
    if i > 0 {
        lemma_new_triangles_upto_shape(polygon, p, i - 1);
    }
}

/// One insertion step preserves vertex closure: if every working triangle
/// has its vertices in `s` and `p` itself is in `s`, the same holds after
/// inserting `p`.
pub proof fn lemma_insert_point_vertices(ts: Seq<Triangle>, p: Point, s: Set<Point>)
    requires
        forall|j: int| 0 <= j < ts.len() ==> tri_vertices_in(#[trigger] ts[j], s),
        s.contains(p),
    ensures
        forall|j: int|
            0 <= j < insert_point(ts, p).len() ==> tri_vertices_in(
                #[trigger] insert_point(ts, p)[j],
                s,
            ),
{
    let bad = bad_triangles(ts, p);
    let poly = cavity_polygon(bad);
    let kept = kept_triangles(ts, p);
    let fresh = new_triangles(poly, p);
    lemma_bad_upto_elems(ts, p, ts.len() as int);
    lemma_kept_upto_elems(ts, p, ts.len() as int);
    lemma_polygon_upto_edges(bad, bad.len() as int);
    lemma_new_triangles_upto_shape(poly, p, poly.len() as int);
    assert forall|j: int| 0 <= j < insert_point(ts, p).len() implies tri_vertices_in(
        #[trigger] insert_point(ts, p)[j],
        s,
    ) by {
        let t = insert_point(ts, p)[j];
        if j < kept.len() {
            assert(ts.contains(t));
            let w = choose|w: int| 0 <= w < ts.len() && ts[w] == t;
            assert(tri_vertices_in(ts[w], s));
        } else {
            let jj = j - kept.len();
            assert(t == fresh[jj]);
            assert(t == (Triangle { a: poly[jj].0, b: poly[jj].1, c: p }));
            let k = choose|k: int| 0 <= k < bad.len() && is_edge_of(poly[jj], bad[k]);
            assert(ts.contains(bad[k]));
            let w = choose|w: int| 0 <= w < ts.len() && ts[w] == bad[k];
            assert(tri_vertices_in(ts[w], s));
        }
    }
}

/// Every triangle of the working set after any number of insertions has its
/// vertices among the seed triangle's vertices and the inserted points.
pub proof fn lemma_inserted_upto_vertices(points: Seq<Point>, st: Triangle, i: int, s: Set<Point>)
    requires
        0 <= i <= points.len(),
        s.contains(st.a),
        s.contains(st.b),
        s.contains(st.c),
        forall|j: int| 0 <= j < points.len() ==> s.contains(#[trigger] points[j]),
    ensures
        forall|j: int|
            0 <= j < inserted_upto(points, st, i).len() ==> tri_vertices_in(
                #[trigger] inserted_upto(points, st, i)[j],
                s,
            ),
    decreases i,
{
    if i > 0 {
        lemma_inserted_upto_vertices(points, st, i - 1, s);
        lemma_insert_point_vertices(inserted_upto(points, st, i - 1), points[i - 1], s);
    }
}

/// Every element of `pruned_upto(ts, st, i)` is an element of `ts` that
/// avoids the vertices of `st`.
pub proof fn lemma_pruned_upto_elems(ts: Seq<Triangle>, st: Triangle, i: int)
    requires
        0 <= i <= ts.len(),
    ensures
        forall|j: int|
            0 <= j < pruned_upto(ts, st, i).len() ==> ts.contains(
                #[trigger] pruned_upto(ts, st, i)[j],
            ) && avoids_vertices(pruned_upto(ts, st, i)[j], st),
    decreases i,
{
    if i > 0 {
        lemma_pruned_upto_elems(ts, st, i - 1);
        assert(ts.contains(ts[i - 1]));
        let pre = pruned_upto(ts, st, i - 1);
        let cur = pruned_upto(ts, st, i);
        assert forall|j: int| 0 <= j < cur.len() implies ts.contains(#[trigger] cur[j])
            && avoids_vertices(cur[j], st) by {
            if j < pre.len() {
                assert(cur[j] == pre[j]);
            } else {
                assert(cur[j] == ts[i - 1]);
            }
        }
    }
}

/// The input to a triangulation was rejected.
#[derive(Clone, Copy, PartialEq, Eq, Structural, Debug)]
pub enum TriangulationError {
    /// Some input point lies outside the fixed super-triangle envelope.
    PointOutOfBounds,
}

/// Every point of `points` lies within the super-triangle envelope.
pub open spec fn all_in_bounds(points: Seq<Point>) -> bool {
    forall|i: int| 0 <= i < points.len() ==> in_bounds_pt(#[trigger] points[i])
}

fn edge_is_shared(bad: &Vec<Triangle>, bt: &Triangle, u: &Point, v: &Point) -> (r: bool)
    ensures
        r == edge_shared(bad@, *bt, *u, *v),
{
    let mut i: usize = 0;
    while i < bad.len()
        invariant
            i <= bad@.len(),
            forall|k: int|
                0 <= k < i ==> !((#[trigger] bad@[k]) != *bt && has_vertex(bad@[k], *u)
                    && has_vertex(bad@[k], *v)),
        decreases bad@.len() - i,
    {
        let ot = bad[i];
        if ot != *bt && ot.contains_vertex(u) && ot.contains_vertex(v) {
            return true;
        }
        i += 1;
    }
    false
}

fn find_bad_triangles(triangles: &Vec<Triangle>, p: &Point) -> (bad: Vec<Triangle>)
    requires
        forall|j: int| 0 <= j < triangles@.len() ==> tri_in_bounds(#[trigger] triangles@[j]),
        in_bounds_pt(*p),
    ensures
        bad@ == bad_triangles(triangles@, *p),
{
    let mut bad: Vec<Triangle> = Vec::new();
    let mut i: usize = 0;
    while i < triangles.len()
        invariant
            i <= triangles@.len(),
            forall|j: int| 0 <= j < triangles@.len() ==> tri_in_bounds(#[trigger] triangles@[j]),
            in_bounds_pt(*p),
            bad@ == bad_upto(triangles@, *p, i as int),
        decreases triangles@.len() - i,
    {
        if triangles[i].circumcircle_contains(p) {
            bad.push(triangles[i]);
        }
        i += 1;
    }
    bad
}

fn keep_good_triangles(triangles: &Vec<Triangle>, p: &Point) -> (kept: Vec<Triangle>)
    requires
        forall|j: int| 0 <= j < triangles@.len() ==> tri_in_bounds(#[trigger] triangles@[j]),
        in_bounds_pt(*p),
    ensures
        kept@ == kept_triangles(triangles@, *p),
{
    let mut kept: Vec<Triangle> = Vec::new();
    let mut i: usize = 0;
    while i < triangles.len()
        invariant
            i <= triangles@.len(),
            forall|j: int| 0 <= j < triangles@.len() ==> tri_in_bounds(#[trigger] triangles@[j]),
            in_bounds_pt(*p),
            kept@ == kept_upto(triangles@, *p, i as int),
        decreases triangles@.len() - i,
    {
        if !triangles[i].circumcircle_contains(p) {
            kept.push(triangles[i]);
        }
        i += 1;
    }
    kept
}

fn cavity_boundary(bad: &Vec<Triangle>) -> (polygon: Vec<(Point, Point)>)
    ensures
        polygon@ == cavity_polygon(bad@),
{
    let mut polygon: Vec<(Point, Point)> = Vec::new();
    let mut i: usize = 0;
    while i < bad.len()
        invariant
            i <= bad@.len(),
            polygon@ == polygon_upto(bad@, i as int),
        decreases bad@.len() - i,
    {
        let bt = bad[i];
        if !edge_is_shared(bad, &bt, &bt.a, &bt.b) {
            polygon.push((bt.a, bt.b));
        }
        if !edge_is_shared(bad, &bt, &bt.b, &bt.c) {
            polygon.push((bt.b, bt.c));
        }
        if !edge_is_shared(bad, &bt, &bt.c, &bt.a) {
            polygon.push((bt.c, bt.a));
        }
        proof {
            assert(polygon@ =~= polygon_upto(bad@, i as int) + boundary_edges_of(
                bad@,
                bad@[i as int],
            ));
        }
        i += 1;
    }
    polygon
}

/// Incremental Bowyer-Watson triangulation of `points`, inserted in order.
/// The result is exactly the functional model `triangulation_of`: the
/// surviving triangle set once the super-triangle scaffolding is removed.
pub fn bowyer_watson(points: Vec<Point>) -> (r: Vec<Triangle>)
    requires
        all_in_bounds(points@),
    ensures
        r@ == triangulation_of(points@),
{
    let st = Triangle {
        a: Point { x: -COORD_BOUND, y: -COORD_BOUND },
        b: Point { x: COORD_BOUND, y: -COORD_BOUND },
        c: Point { x: 0, y: COORD_BOUND },
    };
    let mut triangles: Vec<Triangle> = Vec::new();
    triangles.push(st);
    proof {
        assert(triangles@ =~= inserted_upto(points@, super_triangle(), 0));
    }

    let ghost bounded: Set<Point> = Set::new(|q: Point| in_bounds_pt(q));

    let mut idx: usize = 0;
    while idx < points.len()
        invariant
            idx <= points@.len(),
            all_in_bounds(points@),
            bounded == Set::new(|q: Point| in_bounds_pt(q)),
            triangles@ == inserted_upto(points@, super_triangle(), idx as int),
            forall|j: int| 0 <= j < triangles@.len() ==> tri_in_bounds(#[trigger] triangles@[j]),
        decreases points@.len() - idx,
    {
        let ghost prev = triangles@;
        let p = points[idx];
        assert(in_bounds_pt(p));

        let bad = find_bad_triangles(&triangles, &p);
        let polygon = cavity_boundary(&bad);
        let kept = keep_good_triangles(&triangles, &p);
        triangles = kept;

        let mut e: usize = 0;
        while e < polygon.len()
            invariant
                e <= polygon@.len(),
                polygon@ == cavity_polygon(bad_triangles(prev, p)),
                triangles@ == kept_triangles(prev, p) + new_triangles_upto(polygon@, p, e as int),
            decreases polygon@.len() - e,
        {
            let edge = polygon[e];
            triangles.push(Triangle { a: edge.0, b: edge.1, c: p });
            proof {
                assert(triangles@ =~= kept_triangles(prev, p) + new_triangles_upto(
                    polygon@,
                    p,
                    e as int + 1,
                ));
            }
            e += 1;
        }
        assert(triangles@ == insert_point(prev, p));
        assert(triangles@ == inserted_upto(points@, super_triangle(), idx as int + 1));

        proof {
            assert forall|j: int| 0 <= j < prev.len() implies tri_vertices_in(
                #[trigger] prev[j],
                bounded,
            ) by {}
            lemma_insert_point_vertices(prev, p, bounded);
            assert forall|j: int| 0 <= j < triangles@.len() implies tri_in_bounds(
                #[trigger] triangles@[j],
            ) by {
                assert(tri_vertices_in(insert_point(prev, p)[j], bounded));
            }
        }
        idx += 1;
    }

    let mut result: Vec<Triangle> = Vec::new();
    let mut i: usize = 0;
    while i < triangles.len()
        invariant
            i <= triangles@.len(),
            triangles@ == inserted_upto(points@, super_triangle(), points@.len() as int),
            st == super_triangle(),
            result@ == pruned_upto(triangles@, super_triangle(), i as int),
        decreases triangles@.len() - i,
    {
        let t = triangles[i];
        if !t.contains_vertex(&st.a) && !t.contains_vertex(&st.b) && !t.contains_vertex(&st.c) {
            result.push(t);
        }
        i += 1;
    }
    result
}

/// Validated triangulation, the one operation the library exposes end to
/// end: every input point is checked against the super-triangle envelope,
/// and within it the Bowyer-Watson result is returned unchanged.
pub fn triangulate(points: Vec<Point>) -> (r: Result<Vec<Triangle>, TriangulationError>)
    ensures
        all_in_bounds(points@) ==> (r matches Ok(ts) && ts@ == triangulation_of(points@)),
        !all_in_bounds(points@) ==> r == Result::<Vec<Triangle>, TriangulationError>::Err(
            TriangulationError::PointOutOfBounds,
        ),
{
    let mut i: usize = 0;
    while i < points.len()
        invariant
            i <= points@.len(),
            forall|j: int| 0 <= j < i ==> in_bounds_pt(#[trigger] points@[j]),
        decreases points@.len() - i,
    {
        let p = points[i];
        if p.x < -COORD_BOUND || p.x > COORD_BOUND || p.y < -COORD_BOUND || p.y > COORD_BOUND {
            return Err(TriangulationError::PointOutOfBounds);
        }
        i += 1;
    }
    Ok(bowyer_watson(points))
}

} // verus!
