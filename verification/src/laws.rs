//! The library-level laws of the triangulation, proved against the
//! functional model: closure of the output vertices over the input, absence
//! of degenerate output triangles, emptiness for fewer than three points,
//! and equivariance under uniform scaling.

use vstd::prelude::*;

use crate::geometry::{
    Point, Triangle, has_vertex, in_circumcircle, lemma_in_circumcircle_scale,
    lemma_scale_has_vertex, lemma_scale_tri_injective, lemma_vertex_not_in_circumcircle,
    pt_scale_ok, scale_pt, scale_tri, tri_proper, tri_scale_ok,
};
use crate::triangulation::{
    avoids_vertices, bad_triangles, bad_upto, boundary_edges_of, cavity_polygon, edge_shared,
    insert_point, inserted_upto, is_edge_of, kept_triangles, kept_upto, lemma_bad_upto_elems,
    lemma_inserted_upto_vertices, lemma_kept_upto_elems, lemma_new_triangles_upto_shape,
    lemma_polygon_upto_edges, lemma_pruned_upto_elems, new_triangles, new_triangles_upto,
    polygon_upto, pruned, pruned_upto, super_triangle, tri_vertices_in, triangulation_of,
    triangulation_with,
};

verus! {

/// All three vertices of `t` occur in the point sequence `points`.
pub open spec fn tri_vertices_from(t: Triangle, points: Seq<Point>) -> bool {
    points.contains(t.a) && points.contains(t.b) && points.contains(t.c)
}

/// Closure: every vertex of every output triangle is a member of the input
/// point sequence; in particular no super-triangle scaffolding leaks into
/// the result.
pub proof fn lemma_closure(points: Seq<Point>)
    ensures
        forall|i: int|
            0 <= i < triangulation_of(points).len() ==> tri_vertices_from(
                #[trigger] triangulation_of(points)[i],
                points,
            ),
{
    let st = super_triangle();
    let s = Set::new(|q: Point| points.contains(q) || q == st.a || q == st.b || q == st.c);
    let n = points.len() as int;
    let work = inserted_upto(points, st, n);
    assert(forall|j: int| 0 <= j < points.len() ==> s.contains(#[trigger] points[j]));
    lemma_inserted_upto_vertices(points, st, n, s);
    lemma_pruned_upto_elems(work, st, work.len() as int);
    let out = triangulation_of(points);
    assert(out == pruned(work, st));
    assert forall|i: int| 0 <= i < out.len() implies tri_vertices_from(
        #[trigger] out[i],
        points,
    ) by {
        let t = out[i];
        assert(work.contains(t) && avoids_vertices(t, st));
        let w = choose|w: int| 0 <= w < work.len() && work[w] == t;
        assert(tri_vertices_in(work[w], s));
        assert(s.contains(t.a) && s.contains(t.b) && s.contains(t.c));
    }
}

/// One insertion step preserves non-degeneracy of the working triangles:
/// a boundary edge joins two distinct vertices of a bad triangle, and the
/// inserted point can equal neither endpoint because a triangle's own
/// vertices are never strictly inside its circumcircle.
proof fn lemma_insert_point_proper(ts: Seq<Triangle>, p: Point)
    requires
        forall|j: int| 0 <= j < ts.len() ==> tri_proper(#[trigger] ts[j]),
    ensures
        forall|j: int|
            0 <= j < insert_point(ts, p).len() ==> tri_proper(#[trigger] insert_point(ts, p)[j]),
{
    let bad = bad_triangles(ts, p);
    let poly = cavity_polygon(bad);
    let kept = kept_triangles(ts, p);
    lemma_bad_upto_elems(ts, p, ts.len() as int);
    lemma_kept_upto_elems(ts, p, ts.len() as int);
    lemma_polygon_upto_edges(bad, bad.len() as int);
    lemma_new_triangles_upto_shape(poly, p, poly.len() as int);
    assert forall|j: int| 0 <= j < insert_point(ts, p).len() implies tri_proper(
        #[trigger] insert_point(ts, p)[j],
    ) by {
        let t = insert_point(ts, p)[j];
        if j < kept.len() {
            assert(ts.contains(t));
            let w = choose|w: int| 0 <= w < ts.len() && ts[w] == t;
            assert(tri_proper(ts[w]));
        } else {
            let jj = j - kept.len();
            assert(t == (Triangle { a: poly[jj].0, b: poly[jj].1, c: p }));
            let k = choose|k: int| 0 <= k < bad.len() && is_edge_of(poly[jj], bad[k]);
            assert(ts.contains(bad[k]) && in_circumcircle(bad[k], p));
            let w = choose|w: int| 0 <= w < ts.len() && ts[w] == bad[k];
            assert(tri_proper(ts[w]));
            lemma_vertex_not_in_circumcircle(bad[k]);
        }
    }
}

proof fn lemma_inserted_upto_proper(points: Seq<Point>, st: Triangle, i: int)
    requires
        0 <= i <= points.len(),
        tri_proper(st),
    ensures
        forall|j: int|
            0 <= j < inserted_upto(points, st, i).len() ==> tri_proper(
                #[trigger] inserted_upto(points, st, i)[j],
            ),
    decreases i,
{
    if i > 0 {
        lemma_inserted_upto_proper(points, st, i - 1);
        lemma_insert_point_proper(inserted_upto(points, st, i - 1), points[i - 1]);
    }
}

/// Non-degeneracy: every output triangle has three pairwise distinct
/// vertices.
pub proof fn lemma_output_proper(points: Seq<Point>)
    ensures
        forall|i: int|
            0 <= i < triangulation_of(points).len() ==> tri_proper(
                #[trigger] triangulation_of(points)[i],
            ),
{
    let st = super_triangle();
    let n = points.len() as int;
    let work = inserted_upto(points, st, n);
    assert(tri_proper(st));
    lemma_inserted_upto_proper(points, st, n);
    lemma_pruned_upto_elems(work, st, work.len() as int);
    let out = triangulation_of(points);
    assert forall|i: int| 0 <= i < out.len() implies tri_proper(#[trigger] out[i]) by {
        let t = out[i];
        assert(work.contains(t));
        let w = choose|w: int| 0 <= w < work.len() && work[w] == t;
        assert(tri_proper(work[w]));
    }
}

/// Fewer than three input points leave nothing to triangulate: the output
/// is the empty triangle set.
pub proof fn lemma_too_few_points_empty(points: Seq<Point>)
    requires
        points.len() < 3,
    ensures
        triangulation_of(points) == Seq::<Triangle>::empty(),
{
    lemma_closure(points);
    lemma_output_proper(points);
    let out = triangulation_of(points);
    if out.len() > 0 {
        let t = out[0];
        assert(tri_vertices_from(t, points) && tri_proper(t));
        let ia = choose|ia: int| 0 <= ia < points.len() && points[ia] == t.a;
        let ib = choose|ib: int| 0 <= ib < points.len() && points[ib] == t.b;
        let ic = choose|ic: int| 0 <= ic < points.len() && points[ic] == t.c;
        assert(ia == ib || ib == ic || ic == ia);
        assert(false);
    }
    assert(out =~= Seq::<Triangle>::empty());
}

/// `points` scaled pointwise by the factor `k`.
pub open spec fn scale_pts(points: Seq<Point>, k: int) -> Seq<Point> {
    Seq::new(points.len(), |i: int| scale_pt(points[i], k))
}

/// `ts` scaled trianglewise by the factor `k`.
pub open spec fn scale_tris(ts: Seq<Triangle>, k: int) -> Seq<Triangle> {
    Seq::new(ts.len(), |i: int| scale_tri(ts[i], k))
}

/// `es` scaled edgewise by the factor `k`.
pub open spec fn scale_edges(es: Seq<(Point, Point)>, k: int) -> Seq<(Point, Point)> {
    Seq::new(es.len(), |i: int| (scale_pt(es[i].0, k), scale_pt(es[i].1, k)))
}

/// Every point of `points` stays representable when scaled by `k`.
pub open spec fn pts_scale_ok(points: Seq<Point>, k: int) -> bool {
    forall|i: int| 0 <= i < points.len() ==> pt_scale_ok(#[trigger] points[i], k)
}

/// Every triangle of `ts` stays representable when scaled by `k`.
pub open spec fn tris_scale_ok(ts: Seq<Triangle>, k: int) -> bool {
    forall|i: int| 0 <= i < ts.len() ==> tri_scale_ok(#[trigger] ts[i], k)
}

proof fn lemma_elems_scale_ok(ts: Seq<Triangle>, sub: Seq<Triangle>, k: int)
    requires
        tris_scale_ok(ts, k),
        forall|j: int| 0 <= j < sub.len() ==> ts.contains(#[trigger] sub[j]),
    ensures
        tris_scale_ok(sub, k),
{
    assert forall|j: int| 0 <= j < sub.len() implies tri_scale_ok(#[trigger] sub[j], k) by {
        let w = choose|w: int| 0 <= w < ts.len() && ts[w] == sub[j];
        assert(tri_scale_ok(ts[w], k));
    }
}

proof fn lemma_scale_bad_upto(ts: Seq<Triangle>, p: Point, k: int, i: int)
    requires
        k != 0,
        tris_scale_ok(ts, k),
        pt_scale_ok(p, k),
        0 <= i <= ts.len(),
    ensures
        bad_upto(scale_tris(ts, k), scale_pt(p, k), i) == scale_tris(bad_upto(ts, p, i), k),
    decreases i,
{
    if i <= 0 {
        assert(bad_upto(scale_tris(ts, k), scale_pt(p, k), i) =~= scale_tris(
            bad_upto(ts, p, i),
            k,
        ));
    } else {
        lemma_scale_bad_upto(ts, p, k, i - 1);
        assert(scale_tris(ts, k)[i - 1] == scale_tri(ts[i - 1], k));
        lemma_in_circumcircle_scale(ts[i - 1], p, k);
        assert(bad_upto(scale_tris(ts, k), scale_pt(p, k), i) =~= scale_tris(
            bad_upto(ts, p, i),
            k,
        ));
    }
}

proof fn lemma_scale_kept_upto(ts: Seq<Triangle>, p: Point, k: int, i: int)
    requires
        k != 0,
        tris_scale_ok(ts, k),
        pt_scale_ok(p, k),
        0 <= i <= ts.len(),
    ensures
        kept_upto(scale_tris(ts, k), scale_pt(p, k), i) == scale_tris(kept_upto(ts, p, i), k),
    decreases i,
{
    if i <= 0 {
        assert(kept_upto(scale_tris(ts, k), scale_pt(p, k), i) =~= scale_tris(
            kept_upto(ts, p, i),
            k,
        ));
    } else {
        lemma_scale_kept_upto(ts, p, k, i - 1);
        assert(scale_tris(ts, k)[i - 1] == scale_tri(ts[i - 1], k));
        lemma_in_circumcircle_scale(ts[i - 1], p, k);
        assert(kept_upto(scale_tris(ts, k), scale_pt(p, k), i) =~= scale_tris(
            kept_upto(ts, p, i),
            k,
        ));
    }
}

proof fn lemma_scale_edge_shared(bad: Seq<Triangle>, bt: Triangle, u: Point, v: Point, k: int)
    requires
        k != 0,
        tris_scale_ok(bad, k),
        tri_scale_ok(bt, k),
        pt_scale_ok(u, k),
        pt_scale_ok(v, k),
    ensures
        edge_shared(scale_tris(bad, k), scale_tri(bt, k), scale_pt(u, k), scale_pt(v, k))
            == edge_shared(bad, bt, u, v),
{
    if edge_shared(bad, bt, u, v) {
        let j = choose|j: int|
            0 <= j < bad.len() && (#[trigger] bad[j]) != bt && has_vertex(bad[j], u) && has_vertex(
                bad[j],
                v,
            );
        assert(tri_scale_ok(bad[j], k));
        lemma_scale_tri_injective(bad[j], bt, k);
        lemma_scale_has_vertex(bad[j], u, k);
        lemma_scale_has_vertex(bad[j], v, k);
        assert(scale_tris(bad, k)[j] == scale_tri(bad[j], k));
        assert((scale_tris(bad, k)[j]) != scale_tri(bt, k) && has_vertex(
            scale_tris(bad, k)[j],
            scale_pt(u, k),
        ) && has_vertex(scale_tris(bad, k)[j], scale_pt(v, k)));
    }
    if edge_shared(scale_tris(bad, k), scale_tri(bt, k), scale_pt(u, k), scale_pt(v, k)) {
        let j = choose|j: int|
            0 <= j < scale_tris(bad, k).len() && (#[trigger] scale_tris(bad, k)[j]) != scale_tri(
                bt,
                k,
            ) && has_vertex(scale_tris(bad, k)[j], scale_pt(u, k)) && has_vertex(
                scale_tris(bad, k)[j],
                scale_pt(v, k),
            );
        assert(tri_scale_ok(bad[j], k));
        lemma_scale_tri_injective(bad[j], bt, k);
        lemma_scale_has_vertex(bad[j], u, k);
        lemma_scale_has_vertex(bad[j], v, k);
        assert((#[trigger] bad[j]) != bt && has_vertex(bad[j], u) && has_vertex(bad[j], v));
    }
}

proof fn lemma_scale_boundary_edges(bad: Seq<Triangle>, bt: Triangle, k: int)
    requires
        k != 0,
        tris_scale_ok(bad, k),
        tri_scale_ok(bt, k),
    ensures
        boundary_edges_of(scale_tris(bad, k), scale_tri(bt, k)) == scale_edges(
            boundary_edges_of(bad, bt),
            k,
        ),
{
    lemma_scale_edge_shared(bad, bt, bt.a, bt.b, k);
    lemma_scale_edge_shared(bad, bt, bt.b, bt.c, k);
    lemma_scale_edge_shared(bad, bt, bt.c, bt.a, k);
    assert(scale_tri(bt, k).a == scale_pt(bt.a, k));
    assert(scale_tri(bt, k).b == scale_pt(bt.b, k));
    assert(scale_tri(bt, k).c == scale_pt(bt.c, k));
    assert(boundary_edges_of(scale_tris(bad, k), scale_tri(bt, k)) =~= scale_edges(
        boundary_edges_of(bad, bt),
        k,
    ));
}

proof fn lemma_scale_polygon_upto(bad: Seq<Triangle>, k: int, i: int)
    requires
        k != 0,
        tris_scale_ok(bad, k),
        0 <= i <= bad.len(),
    ensures
        polygon_upto(scale_tris(bad, k), i) == scale_edges(polygon_upto(bad, i), k),
    decreases i,
{
    if i <= 0 {
        assert(polygon_upto(scale_tris(bad, k), i) =~= scale_edges(polygon_upto(bad, i), k));
    } else {
        lemma_scale_polygon_upto(bad, k, i - 1);
        assert(tri_scale_ok(bad[i - 1], k));
        lemma_scale_boundary_edges(bad, bad[i - 1], k);
        assert(scale_tris(bad, k)[i - 1] == scale_tri(bad[i - 1], k));
        assert(polygon_upto(scale_tris(bad, k), i) =~= scale_edges(polygon_upto(bad, i), k));
    }
}

proof fn lemma_scale_new_triangles_upto(polygon: Seq<(Point, Point)>, p: Point, k: int, i: int)
    requires
        0 <= i <= polygon.len(),
    ensures
        new_triangles_upto(scale_edges(polygon, k), scale_pt(p, k), i) == scale_tris(
            new_triangles_upto(polygon, p, i),
            k,
        ),
    decreases i,
{
    if i <= 0 {
        assert(new_triangles_upto(scale_edges(polygon, k), scale_pt(p, k), i) =~= scale_tris(
            new_triangles_upto(polygon, p, i),
            k,
        ));
    } else {
        lemma_scale_new_triangles_upto(polygon, p, k, i - 1);
        assert(scale_edges(polygon, k)[i - 1]
            == ((scale_pt(polygon[i - 1].0, k), scale_pt(polygon[i - 1].1, k))));
        assert(new_triangles_upto(scale_edges(polygon, k), scale_pt(p, k), i) =~= scale_tris(
            new_triangles_upto(polygon, p, i),
            k,
        ));
    }
}

proof fn lemma_scale_insert_point(ts: Seq<Triangle>, p: Point, k: int)
    requires
        k != 0,
        tris_scale_ok(ts, k),
        pt_scale_ok(p, k),
    ensures
        insert_point(scale_tris(ts, k), scale_pt(p, k)) == scale_tris(insert_point(ts, p), k),
{
    let n = ts.len() as int;
    let bad = bad_triangles(ts, p);
    lemma_scale_bad_upto(ts, p, k, n);
    lemma_scale_kept_upto(ts, p, k, n);
    lemma_bad_upto_elems(ts, p, n);
    lemma_elems_scale_ok(ts, bad, k);
    assert(bad_triangles(scale_tris(ts, k), scale_pt(p, k)) == scale_tris(bad, k));
    lemma_scale_polygon_upto(bad, k, bad.len() as int);
    assert(cavity_polygon(scale_tris(bad, k)) == scale_edges(cavity_polygon(bad), k));
    let poly = cavity_polygon(bad);
    lemma_scale_new_triangles_upto(poly, p, k, poly.len() as int);
    assert(new_triangles(scale_edges(poly, k), scale_pt(p, k)) == scale_tris(
        new_triangles(poly, p),
        k,
    ));
    assert(insert_point(scale_tris(ts, k), scale_pt(p, k)) =~= scale_tris(insert_point(ts, p), k));
}

proof fn lemma_scale_inserted_upto(points: Seq<Point>, st: Triangle, k: int, i: int)
    requires
        k != 0,
        pts_scale_ok(points, k),
        tri_scale_ok(st, k),
        0 <= i <= points.len(),
    ensures
        inserted_upto(scale_pts(points, k), scale_tri(st, k), i) == scale_tris(
            inserted_upto(points, st, i),
            k,
        ),
    decreases i,
{
    if i <= 0 {
        assert(inserted_upto(scale_pts(points, k), scale_tri(st, k), i) =~= scale_tris(
            inserted_upto(points, st, i),
            k,
        ));
    } else {
        lemma_scale_inserted_upto(points, st, k, i - 1);
        let prev = inserted_upto(points, st, i - 1);
        lemma_scale_ok_inserted(points, st, k, i - 1);
        assert(pt_scale_ok(points[i - 1], k));
        lemma_scale_insert_point(prev, points[i - 1], k);
        assert(scale_pts(points, k)[i - 1] == scale_pt(points[i - 1], k));
    }
}

/// Every triangle the algorithm ever holds stays representable under the
/// scaling, because each of its vertices is an input point or a vertex of
/// the seed triangle.
proof fn lemma_scale_ok_inserted(points: Seq<Point>, st: Triangle, k: int, i: int)
    requires
        pts_scale_ok(points, k),
        tri_scale_ok(st, k),
        0 <= i <= points.len(),
    ensures
        tris_scale_ok(inserted_upto(points, st, i), k),
{
    let s = Set::new(|q: Point| pt_scale_ok(q, k));
    assert(forall|j: int| 0 <= j < points.len() ==> s.contains(#[trigger] points[j]));
    lemma_inserted_upto_vertices(points, st, i, s);
    assert forall|j: int| 0 <= j < inserted_upto(points, st, i).len() implies tri_scale_ok(
        #[trigger] inserted_upto(points, st, i)[j],
        k,
    ) by {
        assert(tri_vertices_in(inserted_upto(points, st, i)[j], s));
    }
}

proof fn lemma_scale_pruned_upto(ts: Seq<Triangle>, st: Triangle, k: int, i: int)
    requires
        k != 0,
        tris_scale_ok(ts, k),
        tri_scale_ok(st, k),
        0 <= i <= ts.len(),
    ensures
        pruned_upto(scale_tris(ts, k), scale_tri(st, k), i) == scale_tris(
            pruned_upto(ts, st, i),
            k,
        ),
    decreases i,
{
    if i <= 0 {
        assert(pruned_upto(scale_tris(ts, k), scale_tri(st, k), i) =~= scale_tris(
            pruned_upto(ts, st, i),
            k,
        ));
    } else {
        lemma_scale_pruned_upto(ts, st, k, i - 1);
        assert(tri_scale_ok(ts[i - 1], k));
        lemma_scale_has_vertex(ts[i - 1], st.a, k);
        lemma_scale_has_vertex(ts[i - 1], st.b, k);
        lemma_scale_has_vertex(ts[i - 1], st.c, k);
        assert(scale_tris(ts, k)[i - 1] == scale_tri(ts[i - 1], k));
        assert(scale_tri(st, k).a == scale_pt(st.a, k));
        assert(scale_tri(st, k).b == scale_pt(st.b, k));
        assert(scale_tri(st, k).c == scale_pt(st.c, k));
        assert(avoids_vertices(scale_tri(ts[i - 1], k), scale_tri(st, k)) == avoids_vertices(
            ts[i - 1],
            st,
        ));
        assert(pruned_upto(scale_tris(ts, k), scale_tri(st, k), i) =~= scale_tris(
            pruned_upto(ts, st, i),
            k,
        ));
    }
}

/// Scale equivariance: scaling every input point and the bootstrap triangle
/// by one nonzero integer factor scales the triangulation trianglewise, so
/// the scaled input yields a combinatorially identical triangulation.
pub proof fn lemma_scale_equivariance(points: Seq<Point>, st: Triangle, k: int)
    requires
        k != 0,
        pts_scale_ok(points, k),
        tri_scale_ok(st, k),
    ensures
        triangulation_with(scale_pts(points, k), scale_tri(st, k)) == scale_tris(
            triangulation_with(points, st),
            k,
        ),
{
    let n = points.len() as int;
    lemma_scale_inserted_upto(points, st, k, n);
    let work = inserted_upto(points, st, n);
    lemma_scale_ok_inserted(points, st, k, n);
    lemma_scale_pruned_upto(work, st, k, work.len() as int);
    assert(scale_pts(points, k).len() == points.len());
    assert(scale_tris(work, k).len() == work.len());
}

} // verus!
