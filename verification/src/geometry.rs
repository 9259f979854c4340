//! Points, triangles, and the exact geometric predicates of the
//! triangulation: vertex membership and the in-circumcircle test.
//!
//! Coordinates are integers, and every predicate is evaluated exactly in
//! integer arithmetic, so there is no roundoff and the strict-inequality
//! tie-breaks of the algorithm are unambiguous. A caller whose coordinates
//! are fractional scales them to integers first; the scale-equivariance law
//! says what such a scaling does to the triangulation.

use vstd::prelude::*;

verus! {

/// Magnitude bound on every coordinate the triangulation accepts; it equals
/// the magnitude of the bootstrap super-triangle's coordinates, and it keeps
/// the in-circumcircle computation inside `i128`.
pub const COORD_BOUND: i64 = 200_000;

/// A planar point with exact integer coordinates.
#[derive(Clone, Copy, PartialEq, Eq, Structural, Debug)]
pub struct Point {
    /// Horizontal coordinate.
    pub x: i64,
    /// Vertical coordinate.
    pub y: i64,
}

/// An ordered triple of vertices. Two triangles are equal only when their
/// vertices match in stored order; the algorithm relies on this exact value
/// equality when it removes bad triangles and matches shared edges.
#[derive(Clone, Copy, PartialEq, Eq, Structural, Debug)]
pub struct Triangle {
    /// First vertex.
    pub a: Point,
    /// Second vertex.
    pub b: Point,
    /// Third vertex.
    pub c: Point,
}

/// The point's coordinates lie within the super-triangle envelope.
pub open spec fn in_bounds_pt(p: Point) -> bool {
    &&& -(COORD_BOUND as int) <= p.x <= COORD_BOUND as int
    &&& -(COORD_BOUND as int) <= p.y <= COORD_BOUND as int
}

/// All three vertices lie within the super-triangle envelope.
pub open spec fn tri_in_bounds(t: Triangle) -> bool {
    in_bounds_pt(t.a) && in_bounds_pt(t.b) && in_bounds_pt(t.c)
}

/// `v` is exactly equal to one of `t`'s vertices.
pub open spec fn has_vertex(t: Triangle, v: Point) -> bool {
    t.a == v || t.b == v || t.c == v
}

/// The three vertices are pairwise distinct.
pub open spec fn tri_proper(t: Triangle) -> bool {
    t.a != t.b && t.b != t.c && t.c != t.a
}

/// Twice the signed doubled area of `t`: the denominator of the circumcenter
/// formula. Zero exactly when the three vertices are collinear.
pub open spec fn circum_d(t: Triangle) -> int {
    2 * (t.a.x * (t.b.y - t.c.y) + t.b.x * (t.c.y - t.a.y) + t.c.x * (t.a.y - t.b.y))
}

/// Numerator of the circumcenter's x coordinate: the circumcenter is
/// `(circum_nx(t) / circum_d(t), circum_ny(t) / circum_d(t))`.
pub open spec fn circum_nx(t: Triangle) -> int {
    (t.a.x * t.a.x + t.a.y * t.a.y) * (t.b.y - t.c.y)
        + (t.b.x * t.b.x + t.b.y * t.b.y) * (t.c.y - t.a.y)
        + (t.c.x * t.c.x + t.c.y * t.c.y) * (t.a.y - t.b.y)
}

/// Numerator of the circumcenter's y coordinate.
pub open spec fn circum_ny(t: Triangle) -> int {
    (t.a.x * t.a.x + t.a.y * t.a.y) * (t.c.x - t.b.x)
        + (t.b.x * t.b.x + t.b.y * t.b.y) * (t.a.x - t.c.x)
        + (t.c.x * t.c.x + t.c.y * t.c.y) * (t.b.x - t.a.x)
}

/// The squared distance from `q` to the circumcenter of `t`, scaled by
/// `circum_d(t)` squared. Scaling by the square of the denominator clears
/// the division from the circumcenter formula without changing how two such
/// distances compare.
pub open spec fn circum_side(t: Triangle, q: Point) -> int {
    let d = circum_d(t);
    let nx = circum_nx(t);
    let ny = circum_ny(t);
    (q.x * d - nx) * (q.x * d - nx) + (q.y * d - ny) * (q.y * d - ny)
}

/// `p` lies strictly inside the circumscribed circle of `t`: its distance to
/// the circumcenter is strictly smaller than the circumradius, the distance
/// from vertex `t.a` to the circumcenter. A collinear (degenerate) triangle
/// has no circumcircle and contains nothing.
pub open spec fn in_circumcircle(t: Triangle, p: Point) -> bool {
    circum_d(t) != 0 && circum_side(t, p) < circum_side(t, t.a)
}

/// `p` scaled by the integer factor `k` in both coordinates.
pub open spec fn scale_pt(p: Point, k: int) -> Point {
    Point { x: (k * p.x) as i64, y: (k * p.y) as i64 }
}

/// Scaling `p` by `k` stays representable in coordinates.
pub open spec fn pt_scale_ok(p: Point, k: int) -> bool {
    &&& i64::MIN <= k * p.x <= i64::MAX
    &&& i64::MIN <= k * p.y <= i64::MAX
}

/// `t` with every vertex scaled by `k`.
pub open spec fn scale_tri(t: Triangle, k: int) -> Triangle {
    Triangle { a: scale_pt(t.a, k), b: scale_pt(t.b, k), c: scale_pt(t.c, k) }
}

/// Scaling every vertex of `t` by `k` stays representable.
pub open spec fn tri_scale_ok(t: Triangle, k: int) -> bool {
    pt_scale_ok(t.a, k) && pt_scale_ok(t.b, k) && pt_scale_ok(t.c, k)
}

/// The perpendicular-bisector identity behind the circumcenter formula:
/// with `sa`, `sb`, `sc` standing for the squared vertex norms, the
/// denominator times the norm difference of two vertices equals twice the
/// numerator vector dotted with the vertex difference. Instantiated with
/// the real squared norms it says the circumcenter is equidistant from the
/// vertices.
/// A three-term weighted sum multiplied by a common factor, redistributed
/// onto the weights.
proof fn lemma_two_mul(x: int, w: int)
    by (nonlinear_arith)
    ensures
        (2 * x) * w == 2 * (x * w),
{
}

proof fn lemma_rdistrib3(x: int, y: int, z: int, w: int)
    by (nonlinear_arith)
    ensures
        (x + y + z) * w == x * w + y * w + z * w,
{
}

proof fn lemma_assoc(s: int, p: int, w: int)
    by (nonlinear_arith)
    ensures
        (s * p) * w == s * (p * w),
        2 * (s * (p * w)) == s * (2 * (p * w)),
{
}

proof fn lemma_sum3_mul(s1: int, s2: int, s3: int, p1: int, p2: int, p3: int, w: int)
    ensures
        2 * (s1 * p1 + s2 * p2 + s3 * p3) * w == s1 * (2 * (p1 * w)) + s2 * (2 * (p2 * w)) + s3 * (
        2 * (p3 * w)),
{
    lemma_two_mul(s1 * p1 + s2 * p2 + s3 * p3, w);
    lemma_rdistrib3(s1 * p1, s2 * p2, s3 * p3, w);
    lemma_assoc(s1, p1, w);
    lemma_assoc(s2, p2, w);
    lemma_assoc(s3, p3, w);
}

/// Coefficient expansions for the bisector identity between the first and
/// second vertex: what multiplies each squared vertex norm.
proof fn lemma_coeffs_b(ax: int, ay: int, bx: int, by: int, cx: int, cy: int)
    by (nonlinear_arith)
    ensures
        2 * ((by - cy) * (bx - ax)) + 2 * ((cx - bx) * (by - ay)) == -(2 * (ax * (by - cy) + bx * (
        cy - ay) + cx * (ay - by))),
        2 * ((cy - ay) * (bx - ax)) + 2 * ((ax - cx) * (by - ay)) == 2 * (ax * (by - cy) + bx * (cy
            - ay) + cx * (ay - by)),
        2 * ((ay - by) * (bx - ax)) + 2 * ((bx - ax) * (by - ay)) == 0,
{
}

/// Coefficient expansions for the bisector identity between the first and
/// third vertex.
proof fn lemma_coeffs_c(ax: int, ay: int, bx: int, by: int, cx: int, cy: int)
    by (nonlinear_arith)
    ensures
        2 * ((by - cy) * (cx - ax)) + 2 * ((cx - bx) * (cy - ay)) == -(2 * (ax * (by - cy) + bx * (
        cy - ay) + cx * (ay - by))),
        2 * ((cy - ay) * (cx - ax)) + 2 * ((ax - cx) * (cy - ay)) == 0,
        2 * ((ay - by) * (cx - ax)) + 2 * ((bx - ax) * (cy - ay)) == 2 * (ax * (by - cy) + bx * (cy
            - ay) + cx * (ay - by)),
{
}

/// A difference of two weights times a common factor, regrouped.
proof fn lemma_regroup(s1: int, s2: int, m: int)
    by (nonlinear_arith)
    ensures
        m * (s2 - s1) == s1 * (-m) + s2 * m,
{
}

proof fn lemma_circumcenter_equidistant_b(
    ax: int,
    ay: int,
    bx: int,
    by: int,
    cx: int,
    cy: int,
    sa: int,
    sb: int,
    sc: int,
)
    ensures
        2 * (ax * (by - cy) + bx * (cy - ay) + cx * (ay - by)) * (sb - sa) == 2 * (sa * (by - cy)
            + sb * (cy - ay) + sc * (ay - by)) * (bx - ax) + 2 * (sa * (cx - bx) + sb * (ax - cx)
            + sc * (bx - ax)) * (by - ay),
{
    let m = 2 * (ax * (by - cy) + bx * (cy - ay) + cx * (ay - by));
    lemma_sum3_mul(sa, sb, sc, by - cy, cy - ay, ay - by, bx - ax);
    lemma_sum3_mul(sa, sb, sc, cx - bx, ax - cx, bx - ax, by - ay);
    lemma_distribs(sa, 2 * ((by - cy) * (bx - ax)), 2 * ((cx - bx) * (by - ay)), 0);
    lemma_distribs(sb, 2 * ((cy - ay) * (bx - ax)), 2 * ((ax - cx) * (by - ay)), 0);
    lemma_distribs(sc, 2 * ((ay - by) * (bx - ax)), 2 * ((bx - ax) * (by - ay)), 0);
    lemma_coeffs_b(ax, ay, bx, by, cx, cy);
    assert(sa * (2 * ((by - cy) * (bx - ax)) + 2 * ((cx - bx) * (by - ay))) == sa * (-m));
    assert(sb * (2 * ((cy - ay) * (bx - ax)) + 2 * ((ax - cx) * (by - ay))) == sb * m);
    assert(sc * (2 * ((ay - by) * (bx - ax)) + 2 * ((bx - ax) * (by - ay))) == sc * 0);
    assert(sc * 0 == 0);
    lemma_regroup(sa, sb, m);
}

/// Companion of the identity above, between the first and third vertex.
proof fn lemma_circumcenter_equidistant_c(
    ax: int,
    ay: int,
    bx: int,
    by: int,
    cx: int,
    cy: int,
    sa: int,
    sb: int,
    sc: int,
)
    ensures
        2 * (ax * (by - cy) + bx * (cy - ay) + cx * (ay - by)) * (sc - sa) == 2 * (sa * (by - cy)
            + sb * (cy - ay) + sc * (ay - by)) * (cx - ax) + 2 * (sa * (cx - bx) + sb * (ax - cx)
            + sc * (bx - ax)) * (cy - ay),
{
    let m = 2 * (ax * (by - cy) + bx * (cy - ay) + cx * (ay - by));
    lemma_sum3_mul(sa, sb, sc, by - cy, cy - ay, ay - by, cx - ax);
    lemma_sum3_mul(sa, sb, sc, cx - bx, ax - cx, bx - ax, cy - ay);
    lemma_distribs(sa, 2 * ((by - cy) * (cx - ax)), 2 * ((cx - bx) * (cy - ay)), 0);
    lemma_distribs(sb, 2 * ((cy - ay) * (cx - ax)), 2 * ((ax - cx) * (cy - ay)), 0);
    lemma_distribs(sc, 2 * ((ay - by) * (cx - ax)), 2 * ((bx - ax) * (cy - ay)), 0);
    lemma_coeffs_c(ax, ay, bx, by, cx, cy);
    assert(sa * (2 * ((by - cy) * (cx - ax)) + 2 * ((cx - bx) * (cy - ay))) == sa * (-m));
    assert(sb * (2 * ((cy - ay) * (cx - ax)) + 2 * ((ax - cx) * (cy - ay))) == sb * 0);
    assert(sb * 0 == 0);
    assert(sc * (2 * ((ay - by) * (cx - ax)) + 2 * ((bx - ax) * (cy - ay))) == sc * m);
    lemma_regroup(sa, sc, m);
}

/// Binomial expansion of one squared coordinate difference to the
/// circumcenter.
proof fn lemma_expand_sq(u: int, d: int, n: int)
    by (nonlinear_arith)
    ensures
        (u * d - n) * (u * d - n) == d * (d * (u * u)) - 2 * (u * (d * n)) + n * n,
{
}

/// Distribution facts used to regroup sums under a common factor.
proof fn lemma_distribs(m: int, x: int, y: int, z: int)
    by (nonlinear_arith)
    ensures
        m * x + m * y == m * (x + y),
        m * x - m * y == m * (x - y),
        m * x + m * y + m * z == m * (x + y + z),
        2 * (m * x) == m * (2 * x),
{
}

/// Products regroup pairwise: `(p q)(r s) = (p r)(q s)`.
proof fn lemma_mul_shuffle(p: int, q: int, r: int, s: int)
    by (nonlinear_arith)
    ensures
        (p * q) * (r * s) == (p * r) * (q * s),
{
}

/// One dot-product term of the bisector identity, multiplied through by the
/// denominator.
proof fn lemma_dot_term(d: int, n: int, b: int, a: int)
    by (nonlinear_arith)
    ensures
        d * (2 * n * (b - a)) == 2 * (b * (d * n)) - 2 * (a * (d * n)),
{
}

/// If the bisector identity holds between vertices `(ax, ay)` and
/// `(bx, by)`, their scaled squared distances to the circumcenter agree.
proof fn lemma_side_shift(
    d: int,
    nx: int,
    ny: int,
    ax: int,
    ay: int,
    bx: int,
    by: int,
    sa: int,
    sb: int,
)
    requires
        sa == ax * ax + ay * ay,
        sb == bx * bx + by * by,
        d * (sb - sa) == 2 * nx * (bx - ax) + 2 * ny * (by - ay),
    ensures
        (bx * d - nx) * (bx * d - nx) + (by * d - ny) * (by * d - ny) == (ax * d - nx) * (ax * d
            - nx) + (ay * d - ny) * (ay * d - ny),
{
    lemma_expand_sq(bx, d, nx);
    lemma_expand_sq(by, d, ny);
    lemma_expand_sq(ax, d, nx);
    lemma_expand_sq(ay, d, ny);
    lemma_distribs(d, d * (bx * bx), d * (by * by), 0);
    lemma_distribs(d, bx * bx, by * by, 0);
    lemma_distribs(d, d * (ax * ax), d * (ay * ay), 0);
    lemma_distribs(d, ax * ax, ay * ay, 0);
    assert(d * (d * (bx * bx)) + d * (d * (by * by)) == d * (d * sb));
    assert(d * (d * (ax * ax)) + d * (d * (ay * ay)) == d * (d * sa));
    lemma_distribs(d, d * sb, d * sa, 0);
    lemma_distribs(d, sb, sa, 0);
    assert(d * (d * sb) - d * (d * sa) == d * (d * (sb - sa)));
    assert(d * (d * (sb - sa)) == d * (2 * nx * (bx - ax) + 2 * ny * (by - ay)));
    lemma_distribs(d, 2 * nx * (bx - ax), 2 * ny * (by - ay), 0);
    lemma_dot_term(d, nx, bx, ax);
    lemma_dot_term(d, ny, by, ay);
}

/// A triangle's own vertices never lie strictly inside its circumcircle:
/// they lie exactly on it (or the triangle is degenerate and contains
/// nothing). In particular a point equal to a vertex of a bad triangle can
/// never have made it bad.
pub proof fn lemma_vertex_not_in_circumcircle(t: Triangle)
    ensures
        !in_circumcircle(t, t.a),
        !in_circumcircle(t, t.b),
        !in_circumcircle(t, t.c),
{
    let ax = t.a.x as int;
    let ay = t.a.y as int;
    let bx = t.b.x as int;
    let by = t.b.y as int;
    let cx = t.c.x as int;
    let cy = t.c.y as int;
    let sa = ax * ax + ay * ay;
    let sb = bx * bx + by * by;
    let sc = cx * cx + cy * cy;
    let d = circum_d(t);
    let nx = circum_nx(t);
    let ny = circum_ny(t);
    lemma_circumcenter_equidistant_b(ax, ay, bx, by, cx, cy, sa, sb, sc);
    lemma_circumcenter_equidistant_c(ax, ay, bx, by, cx, cy, sa, sb, sc);
    assert(d == 2 * (ax * (by - cy) + bx * (cy - ay) + cx * (ay - by)));
    assert(nx == sa * (by - cy) + sb * (cy - ay) + sc * (ay - by));
    assert(ny == sa * (cx - bx) + sb * (ax - cx) + sc * (bx - ax));
    lemma_side_shift(d, nx, ny, ax, ay, bx, by, sa, sb);
    lemma_side_shift(d, nx, ny, ax, ay, cx, cy, sa, sc);
    assert(circum_side(t, t.b) == circum_side(t, t.a));
    assert(circum_side(t, t.c) == circum_side(t, t.a));
}

/// Powers of the scale factor regroup as expected.
proof fn lemma_k_powers(k: int)
    by (nonlinear_arith)
    ensures
        (k * k) * k == k * k * k,
        k * (k * k) == k * k * k,
        (k * k * k) * (k * k * k) == k * k * k * k * k * k,
{
}

/// One denominator term under scaling: both coordinates pick up the factor,
/// the product picks up its square.
proof fn lemma_scale_term(x: int, y: int, z: int, k: int)
    by (nonlinear_arith)
    ensures
        (k * x) * ((k * y) - (k * z)) == (k * k) * (x * (y - z)),
{
}

/// Scaling every coordinate by `k` multiplies the circumcenter denominator
/// by `k` squared.
proof fn lemma_scale_d(ax: int, ay: int, bx: int, by: int, cx: int, cy: int, k: int)
    ensures
        2 * ((k * ax) * ((k * by) - (k * cy)) + (k * bx) * ((k * cy) - (k * ay)) + (k * cx) * ((k
            * ay) - (k * by))) == k * k * (2 * (ax * (by - cy) + bx * (cy - ay) + cx * (ay - by))),
{
    lemma_scale_term(ax, by, cy, k);
    lemma_scale_term(bx, cy, ay, k);
    lemma_scale_term(cx, ay, by, k);
    lemma_distribs(k * k, ax * (by - cy), bx * (cy - ay), cx * (ay - by));
    lemma_distribs(k * k, ax * (by - cy) + bx * (cy - ay) + cx * (ay - by), 0, 0);
}

/// One numerator term under scaling: the squared norm picks up the squared
/// factor, the coordinate difference one more.
proof fn lemma_scale_nterm(x: int, y: int, u: int, v: int, k: int)
    ensures
        ((k * x) * (k * x) + (k * y) * (k * y)) * ((k * u) - (k * v)) == (k * k * k) * ((x * x + y
            * y) * (u - v)),
{
    lemma_mul_shuffle(k, x, k, x);
    lemma_mul_shuffle(k, y, k, y);
    lemma_distribs(k * k, x * x, y * y, 0);
    lemma_distribs(k, u, v, 0);
    assert(((k * x) * (k * x) + (k * y) * (k * y)) == (k * k) * (x * x + y * y));
    assert((k * u) - (k * v) == k * (u - v));
    lemma_mul_shuffle(k * k, x * x + y * y, k, u - v);
    lemma_k_powers(k);
}

/// Scaling every coordinate by `k` multiplies the circumcenter numerators
/// by `k` cubed.
proof fn lemma_scale_n(ax: int, ay: int, bx: int, by: int, cx: int, cy: int, k: int)
    ensures
        ((k * ax) * (k * ax) + (k * ay) * (k * ay)) * ((k * by) - (k * cy)) + ((k * bx) * (k * bx)
            + (k * by) * (k * by)) * ((k * cy) - (k * ay)) + ((k * cx) * (k * cx) + (k * cy) * (k
            * cy)) * ((k * ay) - (k * by)) == k * k * k * ((ax * ax + ay * ay) * (by - cy) + (bx
            * bx + by * by) * (cy - ay) + (cx * cx + cy * cy) * (ay - by)),
        ((k * ax) * (k * ax) + (k * ay) * (k * ay)) * ((k * cx) - (k * bx)) + ((k * bx) * (k * bx)
            + (k * by) * (k * by)) * ((k * ax) - (k * cx)) + ((k * cx) * (k * cx) + (k * cy) * (k
            * cy)) * ((k * bx) - (k * ax)) == k * k * k * ((ax * ax + ay * ay) * (cx - bx) + (bx
            * bx + by * by) * (ax - cx) + (cx * cx + cy * cy) * (bx - ax)),
{
    lemma_scale_nterm(ax, ay, by, cy, k);
    lemma_scale_nterm(bx, by, cy, ay, k);
    lemma_scale_nterm(cx, cy, ay, by, k);
    lemma_distribs(
        k * k * k,
        (ax * ax + ay * ay) * (by - cy),
        (bx * bx + by * by) * (cy - ay),
        (cx * cx + cy * cy) * (ay - by),
    );
    lemma_scale_nterm(ax, ay, cx, bx, k);
    lemma_scale_nterm(bx, by, ax, cx, k);
    lemma_scale_nterm(cx, cy, bx, ax, k);
    lemma_distribs(
        k * k * k,
        (ax * ax + ay * ay) * (cx - bx),
        (bx * bx + by * by) * (ax - cx),
        (cx * cx + cy * cy) * (bx - ax),
    );
}

/// Scaling the query point by `k`, the denominator by `k` squared and the
/// numerators by `k` cubed multiplies the scaled squared distance by `k` to
/// the sixth.
proof fn lemma_scale_side(qx: int, qy: int, d: int, nx: int, ny: int, k: int)
    ensures
        ((k * qx) * (k * k * d) - k * k * k * nx) * ((k * qx) * (k * k * d) - k * k * k * nx) + ((k
            * qy) * (k * k * d) - k * k * k * ny) * ((k * qy) * (k * k * d) - k * k * k * ny) == k
            * k * k * k * k * k * ((qx * d - nx) * (qx * d - nx) + (qy * d - ny) * (qy * d - ny)),
{
    lemma_k_powers(k);
    lemma_mul_shuffle(k, qx, k * k, d);
    lemma_distribs(k * k * k, qx * d, nx, 0);
    assert((k * qx) * (k * k * d) - k * k * k * nx == (k * k * k) * (qx * d - nx));
    lemma_mul_shuffle(k, qy, k * k, d);
    lemma_distribs(k * k * k, qy * d, ny, 0);
    assert((k * qy) * (k * k * d) - k * k * k * ny == (k * k * k) * (qy * d - ny));
    lemma_mul_shuffle(k * k * k, qx * d - nx, k * k * k, qx * d - nx);
    lemma_mul_shuffle(k * k * k, qy * d - ny, k * k * k, qy * d - ny);
    lemma_distribs(k * k * k * k * k * k, (qx * d - nx) * (qx * d - nx), (qy * d - ny) * (qy * d
        - ny), 0);
}

/// The in-circumcircle predicate is invariant under scaling the whole
/// configuration, triangle and query point, by any nonzero integer factor:
/// both sides of the comparison pick up the same positive factor `k` to the
/// sixth power.
pub proof fn lemma_in_circumcircle_scale(t: Triangle, p: Point, k: int)
    requires
        k != 0,
        tri_scale_ok(t, k),
        pt_scale_ok(p, k),
    ensures
        in_circumcircle(scale_tri(t, k), scale_pt(p, k)) == in_circumcircle(t, p),
{
    let ax = t.a.x as int;
    let ay = t.a.y as int;
    let bx = t.b.x as int;
    let by = t.b.y as int;
    let cx = t.c.x as int;
    let cy = t.c.y as int;
    let px = p.x as int;
    let py = p.y as int;
    let st = scale_tri(t, k);
    let sp = scale_pt(p, k);
    assert(st.a.x == k * ax && st.a.y == k * ay);
    assert(st.b.x == k * bx && st.b.y == k * by);
    assert(st.c.x == k * cx && st.c.y == k * cy);
    assert(sp.x == k * px && sp.y == k * py);
    let d = circum_d(t);
    let nx = circum_nx(t);
    let ny = circum_ny(t);
    lemma_scale_d(ax, ay, bx, by, cx, cy, k);
    assert(circum_d(st) == k * k * d);
    lemma_scale_n(ax, ay, bx, by, cx, cy, k);
    assert(circum_nx(st) == k * k * k * nx);
    assert(circum_ny(st) == k * k * k * ny);
    lemma_scale_side(px, py, d, nx, ny, k);
    assert(circum_side(st, sp) == k * k * k * k * k * k * circum_side(t, p));
    lemma_scale_side(ax, ay, d, nx, ny, k);
    assert(circum_side(st, st.a) == k * k * k * k * k * k * circum_side(t, t.a));
    let k6 = k * k * k * k * k * k;
    assert(k6 > 0) by (nonlinear_arith)
        requires
            k != 0,
            k6 == k * k * k * k * k * k;
    assert((k * k * d == 0) == (d == 0)) by (nonlinear_arith)
        requires
            k != 0;
    assert((k6 * circum_side(t, p) < k6 * circum_side(t, t.a)) == (circum_side(t, p) < circum_side(
        t,
        t.a,
    ))) by (nonlinear_arith)
        requires
            k6 > 0;
}

/// Scaling by a nonzero factor is injective on points, so exact vertex
/// matching is preserved and reflected.
pub proof fn lemma_scale_pt_injective(u: Point, v: Point, k: int)
    requires
        k != 0,
        pt_scale_ok(u, k),
        pt_scale_ok(v, k),
    ensures
        (scale_pt(u, k) == scale_pt(v, k)) == (u == v),
{
    if scale_pt(u, k) == scale_pt(v, k) {
        assert(k * u.x == k * v.x);
        assert(k * u.y == k * v.y);
        assert(u.x == v.x) by (nonlinear_arith)
            requires
                k != 0,
                k * u.x == k * v.x;
        assert(u.y == v.y) by (nonlinear_arith)
            requires
                k != 0,
                k * u.y == k * v.y;
    }
}

/// Scaling by a nonzero factor is injective on triangles.
pub proof fn lemma_scale_tri_injective(t1: Triangle, t2: Triangle, k: int)
    requires
        k != 0,
        tri_scale_ok(t1, k),
        tri_scale_ok(t2, k),
    ensures
        (scale_tri(t1, k) == scale_tri(t2, k)) == (t1 == t2),
{
    lemma_scale_pt_injective(t1.a, t2.a, k);
    lemma_scale_pt_injective(t1.b, t2.b, k);
    lemma_scale_pt_injective(t1.c, t2.c, k);
}

/// Vertex membership is invariant under scaling the triangle and the
/// candidate vertex by the same nonzero factor.
pub proof fn lemma_scale_has_vertex(t: Triangle, v: Point, k: int)
    requires
        k != 0,
        tri_scale_ok(t, k),
        pt_scale_ok(v, k),
    ensures
        has_vertex(scale_tri(t, k), scale_pt(v, k)) == has_vertex(t, v),
{
    lemma_scale_pt_injective(t.a, v, k);
    lemma_scale_pt_injective(t.b, v, k);
    lemma_scale_pt_injective(t.c, v, k);
}

/// The smallest of three values.
pub open spec fn min3(x: int, y: int, z: int) -> int {
    if x <= y && x <= z {
        x
    } else if y <= z {
        y
    } else {
        z
    }
}

/// The largest of three values.
pub open spec fn max3(x: int, y: int, z: int) -> int {
    if x >= y && x >= z {
        x
    } else if y >= z {
        y
    } else {
        z
    }
}

/// The point `center` computes: half the extent of the triangle's
/// coordinate-aligned bounding box in each axis, the halving rounded down.
pub open spec fn center_spec(t: Triangle) -> Point {
    Point {
        x: ((max3(t.a.x as int, t.b.x as int, t.c.x as int) - min3(
            t.a.x as int,
            t.b.x as int,
            t.c.x as int,
        )) / 2) as i64,
        y: ((max3(t.a.y as int, t.b.y as int, t.c.y as int) - min3(
            t.a.y as int,
            t.b.y as int,
            t.c.y as int,
        )) / 2) as i64,
    }
}

impl Triangle {
    /// Half the width and half the height of the triangle's bounding box,
    /// each rounded down.
    pub fn center(&self) -> (r: Point)
        ensures
            r == center_spec(*self),
    {
        let xmin = if self.a.x <= self.b.x && self.a.x <= self.c.x {
            self.a.x
        } else if self.b.x <= self.c.x {
            self.b.x
        } else {
            self.c.x
        };
        let xmax = if self.a.x >= self.b.x && self.a.x >= self.c.x {
            self.a.x
        } else if self.b.x >= self.c.x {
            self.b.x
        } else {
            self.c.x
        };
        let ymin = if self.a.y <= self.b.y && self.a.y <= self.c.y {
            self.a.y
        } else if self.b.y <= self.c.y {
            self.b.y
        } else {
            self.c.y
        };
        let ymax = if self.a.y >= self.b.y && self.a.y >= self.c.y {
            self.a.y
        } else if self.b.y >= self.c.y {
            self.b.y
        } else {
            self.c.y
        };
        let dx = ((xmax as i128) - (xmin as i128)) as u64;
        let dy = ((ymax as i128) - (ymin as i128)) as u64;
        Point { x: (dx / 2) as i64, y: (dy / 2) as i64 }
    }

    /// True iff `point` is exactly equal to one of the three vertices.
    pub fn contains_vertex(&self, point: &Point) -> (r: bool)
        ensures
            r == has_vertex(*self, *point),
    {
        self.a == *point || self.b == *point || self.c == *point
    }

    /// Exact in-circumcircle test: true iff `point` lies strictly inside
    /// the circumscribed circle of `self`. Collinear vertices yield `false`.
    pub fn circumcircle_contains(&self, point: &Point) -> (r: bool)
        requires
            tri_in_bounds(*self),
            in_bounds_pt(*point),
        ensures
            r == in_circumcircle(*self, *point),
    {
        let ax = self.a.x as i128;
        let ay = self.a.y as i128;
        let bx = self.b.x as i128;
        let by = self.b.y as i128;
        let cx = self.c.x as i128;
        let cy = self.c.y as i128;
        let px = point.x as i128;
        let py = point.y as i128;

        assert(-80_000_000_000 <= ax * (by - cy) <= 80_000_000_000) by (nonlinear_arith)
            requires
                -200_000 <= ax <= 200_000,
                -400_000 <= by - cy <= 400_000;
        assert(-80_000_000_000 <= bx * (cy - ay) <= 80_000_000_000) by (nonlinear_arith)
            requires
                -200_000 <= bx <= 200_000,
                -400_000 <= cy - ay <= 400_000;
        assert(-80_000_000_000 <= cx * (ay - by) <= 80_000_000_000) by (nonlinear_arith)
            requires
                -200_000 <= cx <= 200_000,
                -400_000 <= ay - by <= 400_000;
        let d = 2 * (ax * (by - cy) + bx * (cy - ay) + cx * (ay - by));
        assert(d as int == circum_d(*self));

        if d == 0 {
            return false;
        }

        assert(0 <= ax * ax <= 40_000_000_000 && 0 <= ay * ay <= 40_000_000_000)
            by (nonlinear_arith)
            requires
                -200_000 <= ax <= 200_000,
                -200_000 <= ay <= 200_000;
        assert(0 <= bx * bx <= 40_000_000_000 && 0 <= by * by <= 40_000_000_000)
            by (nonlinear_arith)
            requires
                -200_000 <= bx <= 200_000,
                -200_000 <= by <= 200_000;
        assert(0 <= cx * cx <= 40_000_000_000 && 0 <= cy * cy <= 40_000_000_000)
            by (nonlinear_arith)
            requires
                -200_000 <= cx <= 200_000,
                -200_000 <= cy <= 200_000;
        let sa = ax * ax + ay * ay;
        let sb = bx * bx + by * by;
        let sc = cx * cx + cy * cy;

        assert(-32_000_000_000_000_000 <= sa * (by - cy) <= 32_000_000_000_000_000)
            by (nonlinear_arith)
            requires
                0 <= sa <= 80_000_000_000,
                -400_000 <= by - cy <= 400_000;
        assert(-32_000_000_000_000_000 <= sb * (cy - ay) <= 32_000_000_000_000_000)
            by (nonlinear_arith)
            requires
                0 <= sb <= 80_000_000_000,
                -400_000 <= cy - ay <= 400_000;
        assert(-32_000_000_000_000_000 <= sc * (ay - by) <= 32_000_000_000_000_000)
            by (nonlinear_arith)
            requires
                0 <= sc <= 80_000_000_000,
                -400_000 <= ay - by <= 400_000;
        let nx = sa * (by - cy) + sb * (cy - ay) + sc * (ay - by);
        assert(nx as int == circum_nx(*self));

        assert(-32_000_000_000_000_000 <= sa * (cx - bx) <= 32_000_000_000_000_000)
            by (nonlinear_arith)
            requires
                0 <= sa <= 80_000_000_000,
                -400_000 <= cx - bx <= 400_000;
        assert(-32_000_000_000_000_000 <= sb * (ax - cx) <= 32_000_000_000_000_000)
            by (nonlinear_arith)
            requires
                0 <= sb <= 80_000_000_000,
                -400_000 <= ax - cx <= 400_000;
        assert(-32_000_000_000_000_000 <= sc * (bx - ax) <= 32_000_000_000_000_000)
            by (nonlinear_arith)
            requires
                0 <= sc <= 80_000_000_000,
                -400_000 <= bx - ax <= 400_000;
        let ny = sa * (cx - bx) + sb * (ax - cx) + sc * (bx - ax);
        assert(ny as int == circum_ny(*self));

        assert(-96_000_000_000_000_000 <= px * d <= 96_000_000_000_000_000) by (nonlinear_arith)
            requires
                -200_000 <= px <= 200_000,
                -480_000_000_000 <= d <= 480_000_000_000;
        assert(-96_000_000_000_000_000 <= py * d <= 96_000_000_000_000_000) by (nonlinear_arith)
            requires
                -200_000 <= py <= 200_000,
                -480_000_000_000 <= d <= 480_000_000_000;
        assert(-96_000_000_000_000_000 <= ax * d <= 96_000_000_000_000_000) by (nonlinear_arith)
            requires
                -200_000 <= ax <= 200_000,
                -480_000_000_000 <= d <= 480_000_000_000;
        assert(-96_000_000_000_000_000 <= ay * d <= 96_000_000_000_000_000) by (nonlinear_arith)
            requires
                -200_000 <= ay <= 200_000,
                -480_000_000_000 <= d <= 480_000_000_000;

        let dxp = px * d - nx;
        let dyp = py * d - ny;
        let dxa = ax * d - nx;
        let dya = ay * d - ny;

        assert(0 <= dxp * dxp <= 36_864_000_000_000_000_000_000_000_000_000_000)
            by (nonlinear_arith)
            requires
                -192_000_000_000_000_000 <= dxp <= 192_000_000_000_000_000;
        assert(0 <= dyp * dyp <= 36_864_000_000_000_000_000_000_000_000_000_000)
            by (nonlinear_arith)
            requires
                -192_000_000_000_000_000 <= dyp <= 192_000_000_000_000_000;
        assert(0 <= dxa * dxa <= 36_864_000_000_000_000_000_000_000_000_000_000)
            by (nonlinear_arith)
            requires
                -192_000_000_000_000_000 <= dxa <= 192_000_000_000_000_000;
        assert(0 <= dya * dya <= 36_864_000_000_000_000_000_000_000_000_000_000)
            by (nonlinear_arith)
            requires
                -192_000_000_000_000_000 <= dya <= 192_000_000_000_000_000;

        let side_p = dxp * dxp + dyp * dyp;
        let side_a = dxa * dxa + dya * dya;
        assert(side_p as int == circum_side(*self, *point));
        assert(side_a as int == circum_side(*self, self.a));

        side_p < side_a
    }
}

} // verus!
