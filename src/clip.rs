//! Clipping a triangle against the inside half-space of a plane.

use vstd::prelude::*;
use vstd::arithmetic::div_mod::*;
use crate::geometry::{Vec3, dot, bounded, COORD_LIMIT, NORMAL_LIMIT};
use crate::triangle::{Triangle, tri, vertex};
use crate::camera::Camera;

verus! {

/// Signed distance of `p` to the plane through `plane_point` with normal
/// `normal`, scaled by the length of the normal.
pub open spec fn plane_distance(p: Vec3, normal: Vec3, plane_point: Vec3) -> int {
    dot(normal, p) - dot(normal, plane_point)
}

/// A point is inside when it is on the plane or on the side the normal points to.
pub open spec fn is_inside(p: Vec3, normal: Vec3, plane_point: Vec3) -> bool {
    plane_distance(p, normal, plane_point) >= 0
}

/// One coordinate of the point where the segment from `s` (at distance `ds`)
/// to `e` (at distance `de`) meets the plane, rounded down.
pub open spec fn lerp(s: int, e: int, ds: int, de: int) -> int {
    s + (e - s) * ds / (ds - de)
}

/// Where the segment from `s` to `e` crosses the plane, coordinate by
/// coordinate rounded down.
pub open spec fn intersection(s: Vec3, e: Vec3, normal: Vec3, plane_point: Vec3) -> Vec3 {
    let ds = plane_distance(s, normal, plane_point);
    let de = plane_distance(e, normal, plane_point);
    Vec3 {
        x: lerp(s.x as int, e.x as int, ds, de) as i64,
        y: lerp(s.y as int, e.y as int, ds, de) as i64,
        z: lerp(s.z as int, e.z as int, ds, de) as i64,
    }
}

pub open spec fn keep_if(p: Vec3, b: bool) -> Seq<Vec3> {
    if b { seq![p] } else { seq![] }
}

/// The vertices of `t` that are inside, in order.
pub open spec fn inside_points(t: Triangle, normal: Vec3, plane_point: Vec3) -> Seq<Vec3> {
    keep_if(t.a, is_inside(t.a, normal, plane_point))
        + keep_if(t.b, is_inside(t.b, normal, plane_point))
        + keep_if(t.c, is_inside(t.c, normal, plane_point))
}

/// The vertices of `t` that are outside, in order.
pub open spec fn outside_points(t: Triangle, normal: Vec3, plane_point: Vec3) -> Seq<Vec3> {
    keep_if(t.a, !is_inside(t.a, normal, plane_point))
        + keep_if(t.b, !is_inside(t.b, normal, plane_point))
        + keep_if(t.c, !is_inside(t.c, normal, plane_point))
}

/// The triangles that remain of `t` after clipping against the plane:
/// `t` itself when all of it is inside, nothing when all of it is outside,
/// one triangle when one vertex is inside, and the two triangles of a fan
/// over the remaining quadrilateral when two are.
pub open spec fn clipped(t: Triangle, normal: Vec3, plane_point: Vec3) -> Seq<Triangle> {
    let ins = inside_points(t, normal, plane_point);
    let outs = outside_points(t, normal, plane_point);
    if ins.len() == 3 {
        seq![t]
    } else if ins.len() == 1 {
        let p1 = intersection(ins[0], outs[0], normal, plane_point);
        let p2 = intersection(ins[0], outs[1], normal, plane_point);
        seq![tri(ins[0], p1, p2, t.col)]
    } else if ins.len() == 2 {
        let f2 = intersection(ins[0], outs[0], normal, plane_point);
        let s2 = intersection(ins[1], outs[0], normal, plane_point);
        seq![tri(ins[0], ins[1], f2, t.col), tri(ins[1], f2, s2, t.col)]
    } else {
        seq![]
    }
}

/// The inputs the clipper accepts: coordinates within `COORD_LIMIT` and normal
/// components within `NORMAL_LIMIT`.
pub open spec fn clip_inputs_ok(t: Triangle, normal: Vec3, plane_point: Vec3) -> bool {
    bounded(t.a, COORD_LIMIT as int) && bounded(t.b, COORD_LIMIT as int)
        && bounded(t.c, COORD_LIMIT as int) && bounded(plane_point, COORD_LIMIT as int)
        && bounded(normal, NORMAL_LIMIT as int)
}

proof fn lemma_mul_bound(a: int, b: int, la: int, lb: int)
    requires
        -la <= a <= la,
        -lb <= b <= lb,
    ensures
        -(la * lb) <= a * b <= la * lb,
{
    assert(-(la * lb) <= a * b <= la * lb) by (nonlinear_arith)
        requires
            -la <= a <= la,
            -lb <= b <= lb,
    ;
}

/// Distance bound for clipper inputs.
proof fn lemma_distance_bound(p: Vec3, normal: Vec3, plane_point: Vec3)
    requires
        bounded(p, COORD_LIMIT as int),
        bounded(plane_point, COORD_LIMIT as int),
        bounded(normal, NORMAL_LIMIT as int),
    ensures
        -0x8_0000_0000_0000_0000int <= plane_distance(p, normal, plane_point)
            <= 0x8_0000_0000_0000_0000int,
{
    let l = COORD_LIMIT as int;
    let n = NORMAL_LIMIT as int;
    lemma_mul_bound(normal.x as int, p.x as int, n, l);
    lemma_mul_bound(normal.y as int, p.y as int, n, l);
    lemma_mul_bound(normal.z as int, p.z as int, n, l);
    lemma_mul_bound(normal.x as int, plane_point.x as int, n, l);
    lemma_mul_bound(normal.y as int, plane_point.y as int, n, l);
    lemma_mul_bound(normal.z as int, plane_point.z as int, n, l);
}

/// Signed distance of `point` to the plane, exactly.
fn distance_point_plane(point: &Vec3, plane_normal: &Vec3, plane_point: &Vec3) -> (d: i128)
    requires
        bounded(*point, COORD_LIMIT as int),
        bounded(*plane_point, COORD_LIMIT as int),
        bounded(*plane_normal, NORMAL_LIMIT as int),
    ensures
        d == plane_distance(*point, *plane_normal, *plane_point),
        -0x8_0000_0000_0000_0000int <= d <= 0x8_0000_0000_0000_0000int,
{
    proof {
        lemma_distance_bound(*point, *plane_normal, *plane_point);
        let l = COORD_LIMIT as int;
        let n = NORMAL_LIMIT as int;
        lemma_mul_bound(plane_normal.x as int, point.x as int, n, l);
        lemma_mul_bound(plane_normal.y as int, point.y as int, n, l);
        lemma_mul_bound(plane_normal.z as int, point.z as int, n, l);
        lemma_mul_bound(plane_normal.x as int, plane_point.x as int, n, l);
        lemma_mul_bound(plane_normal.y as int, plane_point.y as int, n, l);
        lemma_mul_bound(plane_normal.z as int, plane_point.z as int, n, l);
    }
    let np = plane_normal.x as i128 * point.x as i128 + plane_normal.y as i128 * point.y as i128
        + plane_normal.z as i128 * point.z as i128;
    let nq = plane_normal.x as i128 * plane_point.x as i128 + plane_normal.y as i128
        * plane_point.y as i128 + plane_normal.z as i128 * plane_point.z as i128;
    np - nq
}

/// The rounded crossing lies between the segment's ends.
pub proof fn lemma_lerp_between(s: int, e: int, ds: int, de: int)
    requires
        ds >= 0,
        de < 0,
    ensures
        s <= e ==> s <= lerp(s, e, ds, de) <= e,
        e < s ==> e <= lerp(s, e, ds, de) <= s,
{
    let den = ds - de;
    let num = (e - s) * ds;
    let q = num / den;
    let r = num % den;
    lemma_fundamental_div_mod(num, den);
    lemma_mod_bound(num, den);
    assert(num == den * q + r);
    if s <= e {
        assert(0 <= num <= (e - s) * den) by (nonlinear_arith)
            requires
                s <= e,
                ds >= 0,
                den == ds - de,
                de < 0,
                num == (e - s) * ds,
        ;
        assert(0 <= q <= e - s) by (nonlinear_arith)
            requires
                0 <= num <= (e - s) * den,
                num == den * q + r,
                0 <= r < den,
        ;
    } else {
        assert((e - s) * den <= num <= 0) by (nonlinear_arith)
            requires
                e < s,
                ds >= 0,
                den == ds - de,
                de < 0,
                num == (e - s) * ds,
        ;
        assert(e - s <= q <= 0) by (nonlinear_arith)
            requires
                (e - s) * den <= num <= 0,
                num == den * q + r,
                0 <= r < den,
        ;
    }
}

/// One coordinate of a segment's crossing with the plane.
fn lerp_coord(s: i64, e: i64, ds: i128, de: i128) -> (r: i64)
    requires
        -COORD_LIMIT <= s <= COORD_LIMIT,
        -COORD_LIMIT <= e <= COORD_LIMIT,
        0 <= ds <= 0x8_0000_0000_0000_0000i128,
        -0x8_0000_0000_0000_0000i128 <= de < 0,
    ensures
        r == lerp(s as int, e as int, ds as int, de as int),
{
    proof {
        lemma_lerp_between(s as int, e as int, ds as int, de as int);
        lemma_mul_bound(
            e as int - s as int,
            ds as int,
            2 * COORD_LIMIT as int,
            0x8_0000_0000_0000_0000int,
        );
    }
    let diff: i128 = e as i128 - s as i128;
    let num: i128 = diff * ds;
    let den: i128 = ds - de;
    let q: i128 = match num.checked_div_euclid(den) {
        Some(q) => q,
        None => 0,
    };
    assert(q == num as int / den as int);
    (s as i128 + q) as i64
}

/// Where the segment from the inside point `line_start` to the outside point
/// `line_end` crosses the plane.
fn vector_plane_intersection(
    plane_point: &Vec3,
    plane_normal: &Vec3,
    line_start: &Vec3,
    line_end: &Vec3,
) -> (r: Vec3)
    requires
        bounded(*line_start, COORD_LIMIT as int),
        bounded(*line_end, COORD_LIMIT as int),
        bounded(*plane_point, COORD_LIMIT as int),
        bounded(*plane_normal, NORMAL_LIMIT as int),
        is_inside(*line_start, *plane_normal, *plane_point),
        !is_inside(*line_end, *plane_normal, *plane_point),
    ensures
        r == intersection(*line_start, *line_end, *plane_normal, *plane_point),
        bounded(r, COORD_LIMIT as int),
{
    let ds = distance_point_plane(line_start, plane_normal, plane_point);
    let de = distance_point_plane(line_end, plane_normal, plane_point);
    proof {
        lemma_lerp_between(line_start.x as int, line_end.x as int, ds as int, de as int);
        lemma_lerp_between(line_start.y as int, line_end.y as int, ds as int, de as int);
        lemma_lerp_between(line_start.z as int, line_end.z as int, ds as int, de as int);
    }
    Vec3 {
        x: lerp_coord(line_start.x, line_end.x, ds, de),
        y: lerp_coord(line_start.y, line_end.y, ds, de),
        z: lerp_coord(line_start.z, line_end.z, ds, de),
    }
}

impl Camera {
    /// Clips `triangle` against the half-space on the side of `plane_normal`
    /// of the plane through `plane_point`; a vertex on the plane is inside.
    pub fn clip_triangle(&self, plane_point: &Vec3, plane_normal: &Vec3, triangle: Triangle) -> (r:
        Vec<Triangle>)
        requires
            clip_inputs_ok(triangle, *plane_normal, *plane_point),
        ensures
            r@ == clipped(triangle, *plane_normal, *plane_point),
    {
        let mut inside: Vec<Vec3> = Vec::new();
        let mut outside: Vec<Vec3> = Vec::new();
        let d0 = distance_point_plane(&triangle.a, plane_normal, plane_point);
        let d1 = distance_point_plane(&triangle.b, plane_normal, plane_point);
        let d2 = distance_point_plane(&triangle.c, plane_normal, plane_point);
        if d0 >= 0 {
            inside.push(triangle.a);
        } else {
            outside.push(triangle.a);
        }
        if d1 >= 0 {
            inside.push(triangle.b);
        } else {
            outside.push(triangle.b);
        }
        if d2 >= 0 {
            inside.push(triangle.c);
        } else {
            outside.push(triangle.c);
        }
        assert(inside@ =~= inside_points(triangle, *plane_normal, *plane_point));
        assert(outside@ =~= outside_points(triangle, *plane_normal, *plane_point));
        assert(forall|i: int|
            0 <= i < inside@.len() ==> is_inside(inside@[i], *plane_normal, *plane_point)
                && bounded(inside@[i], COORD_LIMIT as int));
        assert(forall|i: int|
            0 <= i < outside@.len() ==> !is_inside(outside@[i], *plane_normal, *plane_point)
                && bounded(outside@[i], COORD_LIMIT as int));
        if inside.len() == 3 {
            vec![triangle]
        } else if inside.len() == 1 {
            let p0 = inside[0];
            let p1 = vector_plane_intersection(plane_point, plane_normal, &p0, &outside[0]);
            let p2 = vector_plane_intersection(plane_point, plane_normal, &p0, &outside[1]);
            let mut new_triangle = Triangle::from_vectors(&p0, &p1, &p2);
            new_triangle.col = triangle.col;
            vec![new_triangle]
        } else if inside.len() == 2 {
            let f0 = inside[0];
            let f1 = inside[1];
            let f2 = vector_plane_intersection(plane_point, plane_normal, &f0, &outside[0]);
            let s2 = vector_plane_intersection(plane_point, plane_normal, &f1, &outside[0]);
            let mut tri1 = Triangle::from_vectors(&f0, &f1, &f2);
            let mut tri2 = Triangle::from_vectors(&f1, &f2, &s2);
            tri1.col = triangle.col;
            tri2.col = triangle.col;
            vec![tri1, tri2]
        } else {
            Vec::new()
        }
    }
}

pub open spec fn abs(v: int) -> int {
    if v < 0 { -v } else { v }
}

/// Sum of the magnitudes of the normal's components: how far outside the
/// plane (in the units of `plane_distance`) rounding may leave a crossing.
pub open spec fn l1(normal: Vec3) -> int {
    abs(normal.x as int) + abs(normal.y as int) + abs(normal.z as int)
}

/// A crossing computed by the clipper lies within the coordinate limit and
/// is less than `l1(normal)` outside the plane: rounding each coordinate down
/// moves it by less than one unit.
pub proof fn lemma_intersection_on_plane(s: Vec3, e: Vec3, normal: Vec3, plane_point: Vec3)
    requires
        bounded(s, COORD_LIMIT as int),
        bounded(e, COORD_LIMIT as int),
        bounded(plane_point, COORD_LIMIT as int),
        bounded(normal, NORMAL_LIMIT as int),
        is_inside(s, normal, plane_point),
        !is_inside(e, normal, plane_point),
    ensures
        bounded(intersection(s, e, normal, plane_point), COORD_LIMIT as int),
        plane_distance(intersection(s, e, normal, plane_point), normal, plane_point) + l1(normal)
            > 0,
{
    let ds = plane_distance(s, normal, plane_point);
    let de = plane_distance(e, normal, plane_point);
    let den = ds - de;
    let c = dot(normal, plane_point);
    let (sx, sy, sz) = (s.x as int, s.y as int, s.z as int);
    let (ex, ey, ez) = (e.x as int, e.y as int, e.z as int);
    let (nx, ny, nz) = (normal.x as int, normal.y as int, normal.z as int);
    lemma_lerp_between(sx, ex, ds, de);
    lemma_lerp_between(sy, ey, ds, de);
    lemma_lerp_between(sz, ez, ds, de);
    let qx = (ex - sx) * ds / den;
    let qy = (ey - sy) * ds / den;
    let qz = (ez - sz) * ds / den;
    let rx = (ex - sx) * ds % den;
    let ry = (ey - sy) * ds % den;
    let rz = (ez - sz) * ds % den;
    lemma_fundamental_div_mod((ex - sx) * ds, den);
    lemma_fundamental_div_mod((ey - sy) * ds, den);
    lemma_fundamental_div_mod((ez - sz) * ds, den);
    lemma_mod_bound((ex - sx) * ds, den);
    lemma_mod_bound((ey - sy) * ds, den);
    lemma_mod_bound((ez - sz) * ds, den);
    let i = intersection(s, e, normal, plane_point);
    assert(i.x == sx + qx && i.y == sy + qy && i.z == sz + qz);
    let di = plane_distance(i, normal, plane_point);
    assert(di == nx * (sx + qx) + ny * (sy + qy) + nz * (sz + qz) - c);
    assert(di == ds + nx * qx + ny * qy + nz * qz) by (nonlinear_arith)
        requires
            ds == nx * sx + ny * sy + nz * sz - c,
            di == nx * (sx + qx) + ny * (sy + qy) + nz * (sz + qz) - c,
    ;
    assert(den * di == den * ds + den * (nx * qx) + den * (ny * qy) + den * (nz * qz))
        by (nonlinear_arith)
        requires
            di == ds + nx * qx + ny * qy + nz * qz,
    ;
    assert(den * (nx * qx) == nx * (den * qx)) by (nonlinear_arith);
    assert(den * (ny * qy) == ny * (den * qy)) by (nonlinear_arith);
    assert(den * (nz * qz) == nz * (den * qz)) by (nonlinear_arith);
    assert(nx * (den * qx) == nx * (ex - sx) * ds - nx * rx) by (nonlinear_arith)
        requires
            (ex - sx) * ds == den * qx + rx,
    ;
    assert(ny * (den * qy) == ny * (ey - sy) * ds - ny * ry) by (nonlinear_arith)
        requires
            (ey - sy) * ds == den * qy + ry,
    ;
    assert(nz * (den * qz) == nz * (ez - sz) * ds - nz * rz) by (nonlinear_arith)
        requires
            (ez - sz) * ds == den * qz + rz,
    ;
    assert(nx * (ex - sx) * ds == ds * (nx * ex) - ds * (nx * sx)) by (nonlinear_arith);
    assert(ny * (ey - sy) * ds == ds * (ny * ey) - ds * (ny * sy)) by (nonlinear_arith);
    assert(nz * (ez - sz) * ds == ds * (nz * ez) - ds * (nz * sz)) by (nonlinear_arith);
    assert(ds * (nx * ex) + ds * (ny * ey) + ds * (nz * ez) == ds * (de + c)) by (nonlinear_arith)
        requires
            de == nx * ex + ny * ey + nz * ez - c,
    ;
    assert(ds * (nx * sx) + ds * (ny * sy) + ds * (nz * sz) == ds * (ds + c)) by (nonlinear_arith)
        requires
            ds == nx * sx + ny * sy + nz * sz - c,
    ;
    assert(ds * (de + c) - ds * (ds + c) == (de - ds) * ds) by (nonlinear_arith);
    assert(den * ds + (de - ds) * ds == 0) by (nonlinear_arith)
        requires
            den == ds - de,
    ;
    assert(den * di == -(nx * rx + ny * ry + nz * rz));
    // the normal is not zero, else both ends would be at the same distance
    if nx == 0 && ny == 0 && nz == 0 {
        assert(ds == -c && de == -c) by (nonlinear_arith)
            requires
                nx == 0 && ny == 0 && nz == 0,
                ds == nx * sx + ny * sy + nz * sz - c,
                de == nx * ex + ny * ey + nz * ez - c,
        ;
    }
    assert(-(nx * rx + ny * ry + nz * rz) > -(abs(nx) + abs(ny) + abs(nz)) * den)
        by (nonlinear_arith)
        requires
            0 <= rx < den,
            0 <= ry < den,
            0 <= rz < den,
            nx != 0 || ny != 0 || nz != 0,
            abs(nx) == if nx < 0 { -nx } else { nx },
            abs(ny) == if ny < 0 { -ny } else { ny },
            abs(nz) == if nz < 0 { -nz } else { nz },
    ;
    assert(di + l1(normal) > 0) by (nonlinear_arith)
        requires
            den > 0,
            den * di > -l1(normal) * den,
    ;
}

/// The rounding slack of the clipper: `l1(normal)`, and at least one.
pub open spec fn slack(normal: Vec3) -> int {
    if l1(normal) == 0 { 1 } else { l1(normal) }
}

pub open spec fn near_inside(v: Vec3, normal: Vec3, plane_point: Vec3) -> bool {
    plane_distance(v, normal, plane_point) > -slack(normal)
}

/// The vertices of the input are split between inside and outside, and every
/// vertex of every triangle that clipping returns is less than the rounding
/// slack outside the plane. With a normal of one unit along an axis, every
/// such vertex is inside.
pub proof fn lemma_clip_stays_inside(t: Triangle, normal: Vec3, plane_point: Vec3)
    requires
        clip_inputs_ok(t, normal, plane_point),
    ensures
        inside_points(t, normal, plane_point).len() + outside_points(t, normal, plane_point).len()
            == 3,
        forall|i: int, k: int|
            0 <= i < clipped(t, normal, plane_point).len() && 0 <= k < 3 ==> near_inside(
                #[trigger] vertex(clipped(t, normal, plane_point)[i], k),
                normal,
                plane_point,
            ),
        l1(normal) <= 1 ==> forall|i: int, k: int|
            0 <= i < clipped(t, normal, plane_point).len() && 0 <= k < 3 ==> is_inside(
                #[trigger] vertex(clipped(t, normal, plane_point)[i], k),
                normal,
                plane_point,
            ),
{
    let ins = inside_points(t, normal, plane_point);
    let outs = outside_points(t, normal, plane_point);
    let r = clipped(t, normal, plane_point);
    assert(forall|j: int| 0 <= j < ins.len() ==> is_inside(ins[j], normal, plane_point)
        && bounded(ins[j], COORD_LIMIT as int));
    assert(forall|j: int| 0 <= j < outs.len() ==> !is_inside(outs[j], normal, plane_point)
        && bounded(outs[j], COORD_LIMIT as int));
    if ins.len() == 1 {
        lemma_intersection_on_plane(ins[0], outs[0], normal, plane_point);
        lemma_intersection_on_plane(ins[0], outs[1], normal, plane_point);
    } else if ins.len() == 2 {
        lemma_intersection_on_plane(ins[0], outs[0], normal, plane_point);
        lemma_intersection_on_plane(ins[1], outs[0], normal, plane_point);
    }
    assert forall|i: int, k: int| 0 <= i < r.len() && 0 <= k < 3 implies near_inside(
        #[trigger] vertex(r[i], k),
        normal,
        plane_point,
    ) by {
        if k == 0 {
        } else if k == 1 {
        } else {
        }
    }
}

/// Coordinate `k` of `v` (0, 1, 2 for `x`, `y`, `z`).
pub open spec fn axis(v: Vec3, k: int) -> int {
    if k == 0 { v.x as int } else if k == 1 { v.y as int } else { v.z as int }
}

/// Twice the signed area of the triangle `a b c` projected on the plane of
/// coordinates `i` and `j`; over the three planes these are the components of
/// the triangle's vector area.
pub open spec fn twice_area(a: Vec3, b: Vec3, c: Vec3, i: int, j: int) -> int {
    (axis(b, i) - axis(a, i)) * (axis(c, j) - axis(a, j)) - (axis(c, i) - axis(a, i)) * (axis(
        b,
        j,
    ) - axis(a, j))
}

/// Twice the signed area of the quadrilateral `a b c d` projected on the plane
/// of coordinates `i` and `j` (shoelace formula).
pub open spec fn twice_quad_area(a: Vec3, b: Vec3, c: Vec3, d: Vec3, i: int, j: int) -> int {
    (axis(a, i) * axis(b, j) - axis(b, i) * axis(a, j)) + (axis(b, i) * axis(c, j) - axis(c, i)
        * axis(b, j)) + (axis(c, i) * axis(d, j) - axis(d, i) * axis(c, j)) + (axis(d, i) * axis(
        a,
        j,
    ) - axis(a, i) * axis(d, j))
}

proof fn lemma_shoelace(ax: int, ay: int, bx: int, by: int, cx: int, cy: int, dx: int, dy: int)
    ensures
        (ax * by - bx * ay) + (bx * cy - cx * by) + (cx * dy - dx * cy) + (dx * ay - ax * dy) == ((
        bx - ax) * (dy - ay) - (dx - ax) * (by - ay)) - ((dx - bx) * (cy - by) - (cx - bx) * (dy
            - by)),
{
    assert((bx - ax) * (dy - ay) == bx * dy - bx * ay - ax * dy + ax * ay) by (nonlinear_arith);
    assert((dx - ax) * (by - ay) == dx * by - dx * ay - ax * by + ax * ay) by (nonlinear_arith);
    assert((dx - bx) * (cy - by) == dx * cy - dx * by - bx * cy + bx * by) by (nonlinear_arith);
    assert((cx - bx) * (dy - by) == cx * dy - cx * by - bx * dy + bx * by) by (nonlinear_arith);
}

/// Which triangles clipping returns, by how many vertices are inside: all
/// three give the input itself, none gives nothing, one gives one triangle and
/// two give two. In the last case the two triangles tile the quadrilateral
/// that remains (the two inside vertices, then the crossings on the edges from
/// the second and from the first): on every coordinate plane, so for the
/// vector area in space, its signed area is the first triangle's minus the
/// second's, the second being wound the other way round.
pub proof fn lemma_clip_cases(t: Triangle, normal: Vec3, plane_point: Vec3)
    ensures
        inside_points(t, normal, plane_point).len() == 3 ==> clipped(t, normal, plane_point)
            == seq![t],
        inside_points(t, normal, plane_point).len() == 0 ==> clipped(
            t,
            normal,
            plane_point,
        ).len() == 0,
        inside_points(t, normal, plane_point).len() == 1 ==> clipped(
            t,
            normal,
            plane_point,
        ).len() == 1,
        inside_points(t, normal, plane_point).len() == 2 ==> ({
            let r = clipped(t, normal, plane_point);
            let ins = inside_points(t, normal, plane_point);
            let f2 = r[0].c;
            let s2 = r[1].c;
            &&& r.len() == 2
            &&& r[0].a == ins[0] && r[0].b == ins[1]
            &&& forall|i: int, j: int|
                #![trigger twice_quad_area(ins[0], ins[1], s2, f2, i, j)]
                twice_quad_area(ins[0], ins[1], s2, f2, i, j) == twice_area(
                    r[0].a,
                    r[0].b,
                    r[0].c,
                    i,
                    j,
                ) - twice_area(r[1].a, r[1].b, r[1].c, i, j)
        }),
{
    let ins = inside_points(t, normal, plane_point);
    if ins.len() == 2 {
        let r = clipped(t, normal, plane_point);
        let (a, b, c, d) = (ins[0], ins[1], r[1].c, r[0].c);
        assert(r[1].a == b && r[1].b == d);
        assert forall|i: int, j: int|
            #![trigger twice_quad_area(a, b, c, d, i, j)]
            twice_quad_area(a, b, c, d, i, j) == twice_area(a, b, d, i, j) - twice_area(
                b,
                d,
                c,
                i,
                j,
            ) by {
            lemma_shoelace(
                axis(a, i),
                axis(a, j),
                axis(b, i),
                axis(b, j),
                axis(c, i),
                axis(c, j),
                axis(d, i),
                axis(d, j),
            );
        }
    }
}

/// A vertex that lies on the plane is its own crossing: the clipper hands it
/// on unmoved whether or not the edge through it is cut.
pub proof fn lemma_boundary_point_kept(s: Vec3, e: Vec3, normal: Vec3, plane_point: Vec3)
    requires
        plane_distance(s, normal, plane_point) == 0,
        !is_inside(e, normal, plane_point),
    ensures
        intersection(s, e, normal, plane_point) == s,
{
    let de = plane_distance(e, normal, plane_point);
    assert((e.x - s.x) * 0int == 0) by (nonlinear_arith);
    assert((e.y - s.y) * 0int == 0) by (nonlinear_arith);
    assert((e.z - s.z) * 0int == 0) by (nonlinear_arith);
    assert(0int / (0 - de) == 0) by (nonlinear_arith)
        requires
            de < 0,
    ;
}

/// Clipping keeps every coordinate within any bound that the input's
/// coordinates share: each crossing lies between the ends of its edge.
pub proof fn lemma_clip_bounded(t: Triangle, normal: Vec3, plane_point: Vec3, limit: int)
    requires
        clip_inputs_ok(t, normal, plane_point),
        bounded(t.a, limit),
        bounded(t.b, limit),
        bounded(t.c, limit),
    ensures
        forall|i: int, k: int|
            0 <= i < clipped(t, normal, plane_point).len() && 0 <= k < 3 ==> bounded(
                #[trigger] vertex(clipped(t, normal, plane_point)[i], k),
                limit,
            ),
{
    let ins = inside_points(t, normal, plane_point);
    let outs = outside_points(t, normal, plane_point);
    let r = clipped(t, normal, plane_point);
    assert(forall|j: int| 0 <= j < ins.len() ==> is_inside(ins[j], normal, plane_point)
        && bounded(ins[j], COORD_LIMIT as int) && bounded(ins[j], limit));
    assert(forall|j: int| 0 <= j < outs.len() ==> !is_inside(outs[j], normal, plane_point)
        && bounded(outs[j], COORD_LIMIT as int) && bounded(outs[j], limit));
    if ins.len() == 1 {
        lemma_intersection_between(ins[0], outs[0], normal, plane_point, limit);
        lemma_intersection_between(ins[0], outs[1], normal, plane_point, limit);
    } else if ins.len() == 2 {
        lemma_intersection_between(ins[0], outs[0], normal, plane_point, limit);
        lemma_intersection_between(ins[1], outs[0], normal, plane_point, limit);
    }
    assert forall|i: int, k: int| 0 <= i < r.len() && 0 <= k < 3 implies bounded(
        #[trigger] vertex(r[i], k),
        limit,
    ) by {
        if k == 0 {
        } else if k == 1 {
        } else {
        }
    }
}

proof fn lemma_intersection_between(s: Vec3, e: Vec3, normal: Vec3, plane_point: Vec3, limit: int)
    requires
        bounded(s, COORD_LIMIT as int),
        bounded(e, COORD_LIMIT as int),
        bounded(s, limit),
        bounded(e, limit),
        is_inside(s, normal, plane_point),
        !is_inside(e, normal, plane_point),
    ensures
        bounded(intersection(s, e, normal, plane_point), limit),
{
    let ds = plane_distance(s, normal, plane_point);
    let de = plane_distance(e, normal, plane_point);
    lemma_lerp_between(s.x as int, e.x as int, ds, de);
    lemma_lerp_between(s.y as int, e.y as int, ds, de);
    lemma_lerp_between(s.z as int, e.z as int, ds, de);
}

} // verus!
