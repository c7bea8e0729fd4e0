//! Per-frame work: back-face culling, shading, clipping to the window and
//! depth ordering.

use vstd::prelude::*;
use crate::geometry::{Vec3, bounded, is_bounded, dot, normalize, normalized, normalized_wide, div_floor, ONE, COORD_LIMIT, WORLD_LIMIT, WIDE_LIMIT};
use crate::triangle::{Triangle, tri, vertex, in_world, face_normal, face_normal_exec};
use crate::camera::{Camera, dot_from, projected, near_point, near_normal, NEAR_CLIP};
use crate::clip::{clipped, clip_inputs_ok, is_inside, intersection};

verus! {

/// The viewer at `eye` sees the front of `t`: the geometric normal points
/// against the line of sight to the first vertex.
pub open spec fn faces_camera(t: Triangle, eye: Vec3) -> bool {
    let (nx, ny, nz) = face_normal(t);
    nx * (t.a.x - eye.x) + ny * (t.a.y - eye.y) + nz * (t.a.z - eye.z) < 0
}

/// The direction of the light, `(0, 1, -1)` scaled to unit length.
pub open spec fn light_dir() -> Vec3 {
    normalized(Vec3 { x: 0, y: ONE, z: -65536i64 })
}

/// The grey level of a face with unit normal `n`: the Lambert term
/// `n . light`, raised to at least 0.1, times 255, at most 255.
pub open spec fn shade(n: Vec3) -> u8 {
    let dp = dot(n, light_dir()) / ONE as int;
    let dp = if dp < 6554 { 6554 } else { dp };
    let level = 255 * dp / ONE as int;
    (if level > 255 { 255 } else { level }) as u8
}

pub open spec fn recolored(t: Triangle, level: u8) -> Triangle {
    tri(t.a, t.b, t.c, [level, level, level])
}

/// What one mesh triangle gives on screen: nothing when its back faces the
/// camera, else its projected pieces shaded by its normal.
pub open spec fn rendered(c: Camera, t: Triangle) -> Seq<Triangle> {
    if faces_camera(t, c.position) {
        let (nx, ny, nz) = face_normal(t);
        let level = shade(normalized_wide(nx, ny, nz));
        projected(c, t).map_values(|p: Triangle| recolored(p, level))
    } else {
        seq![]
    }
}

/// `t` clipped against the plane; a triangle beyond the clipper's limits is
/// dropped.
pub open spec fn clip_or_drop(t: Triangle, normal: Vec3, plane_point: Vec3) -> Seq<Triangle> {
    if clip_inputs_ok(t, normal, plane_point) {
        clipped(t, normal, plane_point)
    } else {
        seq![]
    }
}

/// Every triangle of `s` clipped against the plane, the results in order.
pub open spec fn clip_all(s: Seq<Triangle>, normal: Vec3, plane_point: Vec3) -> Seq<Triangle>
    decreases s.len(),
{
    if s.len() == 0 {
        seq![]
    } else {
        clip_all(s.drop_last(), normal, plane_point) + clip_or_drop(s.last(), normal, plane_point)
    }
}

/// The four window edges, each as (point, inward normal): top, bottom, left,
/// right, in fixed-point pixels.
pub open spec fn top_edge() -> (Vec3, Vec3) {
    (Vec3 { x: 0, y: 0, z: 0 }, Vec3 { x: 0, y: 1, z: 0 })
}

pub open spec fn bottom_edge(height: int) -> (Vec3, Vec3) {
    (Vec3 { x: 0, y: ((height - 1) * ONE) as i64, z: 0 }, Vec3 { x: 0, y: -1i64, z: 0 })
}

pub open spec fn left_edge() -> (Vec3, Vec3) {
    (Vec3 { x: 0, y: 0, z: 0 }, Vec3 { x: 1, y: 0, z: 0 })
}

pub open spec fn right_edge(width: int) -> (Vec3, Vec3) {
    (Vec3 { x: ((width - 1) * ONE) as i64, y: 0, z: 0 }, Vec3 { x: -1i64, y: 0, z: 0 })
}

pub open spec fn clip_edge(s: Seq<Triangle>, edge: (Vec3, Vec3)) -> Seq<Triangle> {
    clip_all(s, edge.1, edge.0)
}

/// `s` clipped against the top, bottom, left and right window edges in turn.
pub open spec fn screen_clipped(c: Camera, s: Seq<Triangle>) -> Seq<Triangle> {
    clip_edge(
        clip_edge(
            clip_edge(clip_edge(s, top_edge()), bottom_edge(c.window_height as int)),
            left_edge(),
        ),
        right_edge(c.window_width as int),
    )
}

/// Every vertex of every triangle of `s` is within the clipper's limit.
pub open spec fn all_clippable(s: Seq<Triangle>) -> bool {
    forall|i: int, k: int|
        0 <= i < s.len() && 0 <= k < 3 ==> bounded(#[trigger] vertex(s[i], k), COORD_LIMIT as int)
}

/// Three times the `z` of the centroid of `t` less `camera_z` (exact, where
/// the centroid itself would be rounded).
pub open spec fn depth_key(t: Triangle, camera_z: int) -> int {
    t.a.z + t.b.z + t.c.z - 3 * camera_z
}

pub open spec fn sorted_by_depth(s: Seq<Triangle>, camera_z: int) -> bool {
    forall|i: int, j: int|
        0 <= i < j < s.len() ==> depth_key(#[trigger] s[i], camera_z) <= depth_key(
            #[trigger] s[j],
            camera_z,
        )
}

fn depth_key_exec(t: &Triangle, camera_z: i64) -> (r: i128)
    ensures
        r == depth_key(*t, camera_z as int),
{
    t.a.z as i128 + t.b.z as i128 + t.c.z as i128 - 3 * camera_z as i128
}

proof fn lemma_insert_multiset(s: Seq<Triangle>, pos: int, x: Triangle)
    requires
        0 <= pos <= s.len(),
    ensures
        s.insert(pos, x).to_multiset() =~= s.to_multiset().insert(x),
{
    broadcast use vstd::seq_lib::group_to_multiset_ensures;
    let s2 = s.insert(pos, x);
    assert(s2.remove(pos) =~= s);
    assert(s2[pos] == x);
    assert(s2.contains(x));
}

/// Orders triangles by the `z` of their centroid relative to `camera_z`,
/// smallest first: the drawing order of the painter's algorithm.
pub fn sort_by_depth(tris: Vec<Triangle>, camera_z: i64) -> (r: Vec<Triangle>)
    ensures
        r@.to_multiset() == tris@.to_multiset(),
        sorted_by_depth(r@, camera_z as int),
{
    let mut out: Vec<Triangle> = Vec::new();
    let mut i: usize = 0;
    assert(tris@.subrange(0, 0) =~= out@);
    while i < tris.len()
        invariant
            0 <= i <= tris@.len(),
            out@.to_multiset() == tris@.subrange(0, i as int).to_multiset(),
            sorted_by_depth(out@, camera_z as int),
        decreases tris@.len() - i,
    {
        let t = tris[i];
        let key = depth_key_exec(&t, camera_z);
        let mut pos: usize = 0;
        while pos < out.len() && depth_key_exec(&out[pos], camera_z) <= key
            invariant
                0 <= pos <= out@.len(),
                forall|j: int| 0 <= j < pos ==> depth_key(#[trigger] out@[j], camera_z as int) <= key,
            decreases out@.len() - pos,
        {
            pos = pos + 1;
        }
        proof {
            lemma_insert_multiset(out@, pos as int, t);
            assert(tris@.subrange(0, i + 1) =~= tris@.subrange(0, i as int).push(t));
            broadcast use vstd::seq_lib::group_to_multiset_ensures;
        }
        let ghost before = out@;
        out.insert(pos, t);
        assert(sorted_by_depth(out@, camera_z as int)) by {
            assert forall|a: int, b: int| 0 <= a < b < out@.len() implies depth_key(
                #[trigger] out@[a],
                camera_z as int,
            ) <= depth_key(#[trigger] out@[b], camera_z as int) by {
                if pos < before.len() {
                    assert(depth_key(before[pos as int], camera_z as int) > key);
                }
                if a < pos && b > pos {
                    assert(depth_key(before[a], camera_z as int) <= key);
                    if pos < before.len() {
                        assert(depth_key(before[b - 1], camera_z as int) >= depth_key(
                            before[pos as int],
                            camera_z as int,
                        ));
                    }
                }
                if a == pos as int && b > pos {
                    assert(depth_key(before[b - 1], camera_z as int) >= depth_key(
                        before[pos as int],
                        camera_z as int,
                    ));
                }
            }
        }
        i = i + 1;
    }
    assert(tris@.subrange(0, tris@.len() as int) =~= tris@);
    out
}

fn shade_exec(n: Vec3) -> (r: u8)
    requires
        bounded(n, ONE as int),
    ensures
        r == shade(n),
{
    let l = normalize(Vec3 { x: 0, y: ONE, z: -ONE });
    proof {
        let o = ONE as int;
        assert(-o * o <= n.x * l.x <= o * o && -o * o <= n.y * l.y <= o * o && -o * o <= n.z
            * l.z <= o * o) by (nonlinear_arith)
            requires
                bounded(n, o),
                bounded(l, o),
        ;
        vstd::arithmetic::div_mod::lemma_fundamental_div_mod(dot(n, l), o);
        vstd::arithmetic::div_mod::lemma_mod_bound(dot(n, l), o);
    }
    let d = n.x as i128 * l.x as i128 + n.y as i128 * l.y as i128 + n.z as i128 * l.z as i128;
    let mut dp = div_floor(d, ONE as i128);
    proof {
        let o = ONE as int;
        assert(dp <= 3 * o) by (nonlinear_arith)
            requires
                dp == dot(n, l) / o,
                dot(n, l) <= 3 * o * o,
                dot(n, l) == o * dp + dot(n, l) % o,
                0 <= dot(n, l) % o < o,
                o > 0,
        ;
    }
    if dp < 6554 {
        dp = 6554;
    }
    let level = div_floor(255 * dp, ONE as i128);
    if level > 255 {
        255
    } else {
        proof {
            vstd::arithmetic::div_mod::lemma_div_pos_is_pos(255 * dp as int, ONE as int);
        }
        level as u8
    }
}

impl Camera {
    /// Back-face test: whether the camera sees the front of `triangle`, that
    /// is whether its geometric normal `(a - b) x (a - c)` points against the
    /// line of sight to its first vertex (computed exactly, so the sign is
    /// that of the unit normal's).
    pub fn is_triangle_visible(&self, triangle: &Triangle) -> (r: bool)
        requires
            self.wf(),
            bounded(self.position, WORLD_LIMIT as int),
            in_world(*triangle),
        ensures
            r == faces_camera(*triangle, self.position),
    {
        let (nx, ny, nz) = face_normal_exec(triangle);
        let e = self.position;
        let (rx, ry, rz) = (
            triangle.a.x as i128 - e.x as i128,
            triangle.a.y as i128 - e.y as i128,
            triangle.a.z as i128 - e.z as i128,
        );
        proof {
            let (nl, rl) = (WIDE_LIMIT as int, 0x8_0000_0000int);
            assert(-nl * rl <= nx * rx <= nl * rl && -nl * rl <= ny * ry <= nl * rl && -nl * rl
                <= nz * rz <= nl * rl) by (nonlinear_arith)
                requires
                    -nl <= nx <= nl,
                    -nl <= ny <= nl,
                    -nl <= nz <= nl,
                    -rl <= rx <= rl,
                    -rl <= ry <= rl,
                    -rl <= rz <= rl,
            ;
        }
        nx * rx + ny * ry + nz * rz < 0
    }

    /// The screen triangles of one mesh triangle: none when it is culled,
    /// else its projected pieces, each colored with the triangle's shade.
    pub fn render_triangle(&self, triangle: &Triangle) -> (r: Vec<Triangle>)
        requires
            self.wf(),
            bounded(self.position, WORLD_LIMIT as int),
            in_world(*triangle),
        ensures
            r@ == rendered(*self, *triangle),
            all_clippable(r@),
    {
        if !self.is_triangle_visible(triangle) {
            return Vec::new();
        }
        let level = shade_exec(triangle.normal());
        let pieces = self.project_triangle(triangle);
        let mut out: Vec<Triangle> = Vec::new();
        let mut i: usize = 0;
        while i < pieces.len()
            invariant
                0 <= i <= pieces@.len(),
                out@.len() == i,
                pieces@ == projected(*self, *triangle),
                all_clippable(pieces@),
                forall|j: int| 0 <= j < i ==> out@[j] == recolored(#[trigger] pieces@[j], level),
            decreases pieces@.len() - i,
        {
            let mut t = pieces[i];
            t.col = [level, level, level];
            out.push(t);
            i = i + 1;
        }
        let ghost expect = projected(*self, *triangle).map_values(|p: Triangle| recolored(p, level));
        assert(out@ =~= expect);
        assert forall|j: int, k: int| 0 <= j < out@.len() && 0 <= k < 3 implies bounded(
            #[trigger] vertex(out@[j], k),
            COORD_LIMIT as int,
        ) by {
            assert(vertex(out@[j], k) == vertex(pieces@[j], k));
        }
        out
    }
}

/// Whether every vertex of `t` lies within `WORLD_LIMIT`, as projection
/// requires.
pub fn in_world_exec(t: &Triangle) -> (r: bool)
    ensures
        r == in_world(*t),
{
    let l = WORLD_LIMIT;
    is_bounded(&t.a, l) && is_bounded(&t.b, l) && is_bounded(&t.c, l)
}

/// Whether the clipper takes `t` against the plane.
fn clippable(t: &Triangle, normal: &Vec3, plane_point: &Vec3) -> (r: bool)
    ensures
        r == clip_inputs_ok(*t, *normal, *plane_point),
{
    let l = COORD_LIMIT;
    is_bounded(&t.a, l) && is_bounded(&t.b, l) && is_bounded(&t.c, l) && is_bounded(plane_point, l)
        && is_bounded(normal, crate::geometry::NORMAL_LIMIT)
}

impl Camera {
    /// Clips each of `tris` against one plane, keeping the results in order.
    fn clip_pass(&self, tris: &Vec<Triangle>, plane_point: Vec3, plane_normal: Vec3) -> (r: Vec<
        Triangle,
    >)
        ensures
            r@ == clip_all(tris@, plane_normal, plane_point),
    {
        let mut out: Vec<Triangle> = Vec::new();
        let mut i: usize = 0;
        while i < tris.len()
            invariant
                0 <= i <= tris@.len(),
                out@ == clip_all(tris@.subrange(0, i as int), plane_normal, plane_point),
            decreases tris@.len() - i,
        {
            let t = tris[i];
            let mut pieces = if clippable(&t, &plane_normal, &plane_point) {
                self.clip_triangle(&plane_point, &plane_normal, t)
            } else {
                Vec::new()
            };
            assert(pieces@ =~= clip_or_drop(t, plane_normal, plane_point));
            out.append(&mut pieces);
            proof {
                let next = tris@.subrange(0, i + 1);
                assert(next.drop_last() =~= tris@.subrange(0, i as int));
                assert(next.last() == t);
            }
            i = i + 1;
        }
        assert(tris@.subrange(0, tris@.len() as int) =~= tris@);
        out
    }

    /// Clips screen-space triangles against the top, bottom, left and right
    /// edges of the window in turn.
    pub fn clip_to_screen(&self, tris: Vec<Triangle>) -> (r: Vec<Triangle>)
        requires
            self.wf(),
        ensures
            r@ == screen_clipped(*self, tris@),
            all_in_range(r@, 0, 0, (self.window_width - 1) * ONE),
            all_in_range(r@, 1, 0, (self.window_height - 1) * ONE),
    {
        proof {
            lemma_screen_clip_inside_window(*self, tris@);
        }
        let (point, normal) = self.plane(ClipPlane::ScreenTop);
        let top = self.clip_pass(&tris, point, normal);
        let (point, normal) = self.plane(ClipPlane::ScreenBottom);
        let bottom = self.clip_pass(&top, point, normal);
        let (point, normal) = self.plane(ClipPlane::ScreenLeft);
        let left = self.clip_pass(&bottom, point, normal);
        let (point, normal) = self.plane(ClipPlane::ScreenRight);
        self.clip_pass(&left, point, normal)
    }

    /// Finishes a frame: clips the projected triangles to the window, then
    /// orders them by depth for drawing.
    pub fn finish_frame(&self, tris: Vec<Triangle>) -> (r: Vec<Triangle>)
        requires
            self.wf(),
        ensures
            r@.to_multiset() == screen_clipped(*self, tris@).to_multiset(),
            sorted_by_depth(r@, self.position.z as int),
    {
        let clipped = self.clip_to_screen(tris);
        sort_by_depth(clipped, self.position.z)
    }

    /// A whole frame, in order: each mesh triangle culled, shaded and
    /// projected, then all of them clipped to the window and ordered by depth.
    pub fn render_frame(&self, mesh: &Vec<Triangle>) -> (r: Vec<Triangle>)
        requires
            self.wf(),
            bounded(self.position, WORLD_LIMIT as int),
            forall|i: int| 0 <= i < mesh@.len() ==> in_world(#[trigger] mesh@[i]),
        ensures
            r@.to_multiset() == screen_clipped(*self, render_all(*self, mesh@)).to_multiset(),
            sorted_by_depth(r@, self.position.z as int),
    {
        let mut all: Vec<Triangle> = Vec::new();
        let mut i: usize = 0;
        while i < mesh.len()
            invariant
                self.wf(),
                bounded(self.position, WORLD_LIMIT as int),
                forall|j: int| 0 <= j < mesh@.len() ==> in_world(#[trigger] mesh@[j]),
                0 <= i <= mesh@.len(),
                all@ == render_all(*self, mesh@.subrange(0, i as int)),
            decreases mesh@.len() - i,
        {
            let mut pieces = self.render_triangle(&mesh[i]);
            all.append(&mut pieces);
            proof {
                let next = mesh@.subrange(0, i + 1);
                assert(next.drop_last() =~= mesh@.subrange(0, i as int));
            }
            i = i + 1;
        }
        assert(mesh@.subrange(0, mesh@.len() as int) =~= mesh@);
        self.finish_frame(all)
    }
}

/// The rendered pieces of every triangle of `s`, in order.
pub open spec fn render_all(c: Camera, s: Seq<Triangle>) -> Seq<Triangle>
    decreases s.len(),
{
    if s.len() == 0 {
        seq![]
    } else {
        render_all(c, s.drop_last()) + rendered(c, s.last())
    }
}

pub open spec fn coord(v: Vec3, axis: int) -> int {
    if axis == 0 { v.x as int } else if axis == 1 { v.y as int } else { v.z as int }
}

/// Every vertex of every triangle of `s` has its `axis` coordinate in `[lo, hi]`.
pub open spec fn all_in_range(s: Seq<Triangle>, axis: int, lo: int, hi: int) -> bool {
    forall|i: int, k: int|
        0 <= i < s.len() && 0 <= k < 3 ==> lo <= coord(#[trigger] vertex(s[i], k), axis) <= hi
}

proof fn lemma_clip_keeps_range(t: Triangle, normal: Vec3, plane_point: Vec3, axis: int, lo: int, hi: int)
    requires
        all_in_range(seq![t], axis, lo, hi),
    ensures
        all_in_range(clip_or_drop(t, normal, plane_point), axis, lo, hi),
{
    if clip_inputs_ok(t, normal, plane_point) {
        let ins = crate::clip::inside_points(t, normal, plane_point);
        let outs = crate::clip::outside_points(t, normal, plane_point);
        let r = clipped(t, normal, plane_point);
        assert(lo <= coord(vertex(seq![t][0], 0), axis) <= hi);
        assert(lo <= coord(vertex(seq![t][0], 1), axis) <= hi);
        assert(lo <= coord(vertex(seq![t][0], 2), axis) <= hi);
        assert(forall|j: int| 0 <= j < ins.len() ==> is_inside(ins[j], normal, plane_point)
            && bounded(ins[j], COORD_LIMIT as int) && lo <= coord(ins[j], axis) <= hi);
        assert(forall|j: int| 0 <= j < outs.len() ==> !is_inside(outs[j], normal, plane_point)
            && bounded(outs[j], COORD_LIMIT as int) && lo <= coord(outs[j], axis) <= hi);
        if ins.len() == 1 {
            lemma_crossing_in_range(ins[0], outs[0], normal, plane_point, axis, lo, hi);
            lemma_crossing_in_range(ins[0], outs[1], normal, plane_point, axis, lo, hi);
        } else if ins.len() == 2 {
            lemma_crossing_in_range(ins[0], outs[0], normal, plane_point, axis, lo, hi);
            lemma_crossing_in_range(ins[1], outs[0], normal, plane_point, axis, lo, hi);
        }
        assert forall|i: int, k: int| 0 <= i < r.len() && 0 <= k < 3 implies lo <= coord(
            #[trigger] vertex(r[i], k),
            axis,
        ) <= hi by {
            if k == 0 {
            } else if k == 1 {
            } else {
            }
        }
    }
}

proof fn lemma_crossing_in_range(
    s: Vec3,
    e: Vec3,
    normal: Vec3,
    plane_point: Vec3,
    axis: int,
    lo: int,
    hi: int,
)
    requires
        bounded(s, COORD_LIMIT as int),
        bounded(e, COORD_LIMIT as int),
        is_inside(s, normal, plane_point),
        !is_inside(e, normal, plane_point),
        lo <= coord(s, axis) <= hi,
        lo <= coord(e, axis) <= hi,
    ensures
        lo <= coord(intersection(s, e, normal, plane_point), axis) <= hi,
{
    let ds = crate::clip::plane_distance(s, normal, plane_point);
    let de = crate::clip::plane_distance(e, normal, plane_point);
    crate::clip::lemma_lerp_between(s.x as int, e.x as int, ds, de);
    crate::clip::lemma_lerp_between(s.y as int, e.y as int, ds, de);
    crate::clip::lemma_lerp_between(s.z as int, e.z as int, ds, de);
}

proof fn lemma_clip_all_keeps_range(s: Seq<Triangle>, normal: Vec3, plane_point: Vec3, axis: int, lo: int, hi: int)
    requires
        all_in_range(s, axis, lo, hi),
    ensures
        all_in_range(clip_all(s, normal, plane_point), axis, lo, hi),
    decreases s.len(),
{
    if s.len() > 0 {
        let init = s.drop_last();
        assert(all_in_range(init, axis, lo, hi)) by {
            assert forall|i: int, k: int| 0 <= i < init.len() && 0 <= k < 3 implies lo <= coord(
                #[trigger] vertex(init[i], k),
                axis,
            ) <= hi by {
                assert(init[i] == s[i]);
            }
        }
        assert(all_in_range(seq![s.last()], axis, lo, hi)) by {
            assert forall|i: int, k: int| 0 <= i < 1 && 0 <= k < 3 implies lo <= coord(
                #[trigger] vertex(seq![s.last()][i], k),
                axis,
            ) <= hi by {
                assert(vertex(seq![s.last()][i], k) == vertex(s[s.len() - 1], k));
            }
        }
        lemma_clip_all_keeps_range(init, normal, plane_point, axis, lo, hi);
        lemma_clip_keeps_range(s.last(), normal, plane_point, axis, lo, hi);
        lemma_all_in_range_concat(
            clip_all(init, normal, plane_point),
            clip_or_drop(s.last(), normal, plane_point),
            axis,
            lo,
            hi,
        );
    }
}

proof fn lemma_all_in_range_concat(a: Seq<Triangle>, b: Seq<Triangle>, axis: int, lo: int, hi: int)
    requires
        all_in_range(a, axis, lo, hi),
        all_in_range(b, axis, lo, hi),
    ensures
        all_in_range(a + b, axis, lo, hi),
{
    assert forall|i: int, k: int| 0 <= i < (a + b).len() && 0 <= k < 3 implies lo <= coord(
        #[trigger] vertex((a + b)[i], k),
        axis,
    ) <= hi by {
        if i < a.len() {
            assert((a + b)[i] == a[i]);
        } else {
            assert((a + b)[i] == b[i - a.len()]);
        }
    }
}

/// Clipping every triangle against a plane with a normal of one unit along
/// an axis leaves every vertex inside that plane: the `axis` coordinate at
/// least `lo` (normal `+1`) or at most `hi` (normal `-1`).
proof fn lemma_clip_all_inside_axis(
    s: Seq<Triangle>,
    normal: Vec3,
    plane_point: Vec3,
    axis: int,
    lo: int,
    hi: int,
)
    requires
        crate::clip::l1(normal) == 1,
        forall|v: Vec3| is_inside(v, normal, plane_point) ==> lo <= #[trigger] coord(v, axis) <= hi,
    ensures
        all_in_range(clip_all(s, normal, plane_point), axis, lo, hi),
    decreases s.len(),
{
    if s.len() > 0 {
        let t = s.last();
        lemma_clip_all_inside_axis(s.drop_last(), normal, plane_point, axis, lo, hi);
        if clip_inputs_ok(t, normal, plane_point) {
            crate::clip::lemma_clip_stays_inside(t, normal, plane_point);
            let r = clipped(t, normal, plane_point);
            assert forall|i: int, k: int| 0 <= i < r.len() && 0 <= k < 3 implies lo <= coord(
                #[trigger] vertex(r[i], k),
                axis,
            ) <= hi by {
                assert(is_inside(vertex(r[i], k), normal, plane_point));
            }
        }
        lemma_all_in_range_concat(
            clip_all(s.drop_last(), normal, plane_point),
            clip_or_drop(t, normal, plane_point),
            axis,
            lo,
            hi,
        );
    }
}

/// After clipping to the window, every vertex lies within it: `x` in
/// `[0, (width - 1) * ONE]` and `y` in `[0, (height - 1) * ONE]`.
pub proof fn lemma_screen_clip_inside_window(c: Camera, s: Seq<Triangle>)
    requires
        c.wf(),
    ensures
        all_in_range(screen_clipped(c, s), 0, 0, (c.window_width - 1) * ONE),
        all_in_range(screen_clipped(c, s), 1, 0, (c.window_height - 1) * ONE),
{
    let (w, h) = (c.window_width as int, c.window_height as int);
    let big = COORD_LIMIT as int;
    let s1 = clip_edge(s, top_edge());
    let s2 = clip_edge(s1, bottom_edge(h));
    let s3 = clip_edge(s2, left_edge());
    let s4 = clip_edge(s3, right_edge(w));
    let (top_p, top_n) = top_edge();
    let (bot_p, bot_n) = bottom_edge(h);
    let (left_p, left_n) = left_edge();
    let (right_p, right_n) = right_edge(w);
    assert forall|v: Vec3| is_inside(v, top_n, top_p) implies 0 <= #[trigger] coord(v, 1)
        <= i64::MAX by {}
    lemma_clip_all_inside_axis(s, top_n, top_p, 1, 0, i64::MAX as int);
    assert(bot_p.y == (h - 1) * ONE && bot_p.x == 0 && bot_p.z == 0);
    assert(bot_n.y == -1 && bot_n.x == 0 && bot_n.z == 0);
    assert forall|v: Vec3| is_inside(v, bot_n, bot_p) implies i64::MIN <= #[trigger] coord(v, 1)
        <= (h - 1) * ONE by {
        assert(crate::clip::plane_distance(v, bot_n, bot_p) == (h - 1) * ONE - v.y);
    }
    lemma_clip_all_inside_axis(s1, bot_n, bot_p, 1, i64::MIN as int, (h - 1) * ONE);
    lemma_clip_all_keeps_range(s1, bot_n, bot_p, 1, 0, i64::MAX as int);
    assert(left_n.x == 1 && left_n.y == 0 && left_n.z == 0);
    assert(left_p.x == 0 && left_p.y == 0 && left_p.z == 0);
    assert forall|v: Vec3| is_inside(v, left_n, left_p) implies 0 <= #[trigger] coord(v, 0)
        <= i64::MAX by {
        assert(crate::clip::plane_distance(v, left_n, left_p) == v.x);
    }
    lemma_clip_all_inside_axis(s2, left_n, left_p, 0, 0, i64::MAX as int);
    lemma_clip_all_keeps_range(s2, left_n, left_p, 1, 0, i64::MAX as int);
    lemma_clip_all_keeps_range(s2, left_n, left_p, 1, i64::MIN as int, (h - 1) * ONE);
    assert(right_p.x == (w - 1) * ONE && right_p.y == 0 && right_p.z == 0);
    assert(right_n.x == -1 && right_n.y == 0 && right_n.z == 0);
    assert forall|v: Vec3| is_inside(v, right_n, right_p) implies i64::MIN <= #[trigger] coord(v, 0)
        <= (w - 1) * ONE by {
        assert(crate::clip::plane_distance(v, right_n, right_p) == (w - 1) * ONE - v.x);
    }
    lemma_clip_all_inside_axis(s3, right_n, right_p, 0, i64::MIN as int, (w - 1) * ONE);
    lemma_clip_all_keeps_range(s3, right_n, right_p, 0, 0, i64::MAX as int);
    lemma_clip_all_keeps_range(s3, right_n, right_p, 1, 0, i64::MAX as int);
    lemma_clip_all_keeps_range(s3, right_n, right_p, 1, i64::MIN as int, (h - 1) * ONE);
    lemma_range_meet(s4, 0, 0, i64::MAX as int, i64::MIN as int, (w - 1) * ONE);
    lemma_range_meet(s4, 1, 0, i64::MAX as int, i64::MIN as int, (h - 1) * ONE);
}

proof fn lemma_range_meet(s: Seq<Triangle>, axis: int, lo: int, hi: int, lo2: int, hi2: int)
    requires
        all_in_range(s, axis, lo, hi),
        all_in_range(s, axis, lo2, hi2),
    ensures
        all_in_range(s, axis, if lo < lo2 { lo2 } else { lo }, if hi < hi2 { hi } else { hi2 }),
{
}

/// The planes the pipeline clips against.
#[derive(Clone, Copy, Debug, PartialEq, Eq, Structural)]
pub enum ClipPlane {
    Near,
    ScreenTop,
    ScreenBottom,
    ScreenLeft,
    ScreenRight,
}

/// The (point, inward normal) of a clipping plane of camera `c`: the near
/// plane in view space, the window edges in screen space.
pub open spec fn plane_of(c: Camera, which: ClipPlane) -> (Vec3, Vec3) {
    match which {
        ClipPlane::Near => (near_point(), near_normal()),
        ClipPlane::ScreenTop => top_edge(),
        ClipPlane::ScreenBottom => bottom_edge(c.window_height as int),
        ClipPlane::ScreenLeft => left_edge(),
        ClipPlane::ScreenRight => right_edge(c.window_width as int),
    }
}

impl Camera {
    /// The point and inward normal of one of the camera's clipping planes.
    pub fn plane(&self, which: ClipPlane) -> (r: (Vec3, Vec3))
        requires
            self.wf(),
        ensures
            r == plane_of(*self, which),
            bounded(r.0, COORD_LIMIT as int),
            bounded(r.1, 1),
    {
        match which {
            ClipPlane::Near => (Vec3 { x: 0, y: 0, z: -NEAR_CLIP }, Vec3 { x: 0, y: 0, z: -1 }),
            ClipPlane::ScreenTop => (Vec3 { x: 0, y: 0, z: 0 }, Vec3 { x: 0, y: 1, z: 0 }),
            ClipPlane::ScreenBottom => (
                Vec3 { x: 0, y: (self.window_height as i64 - 1) * ONE, z: 0 },
                Vec3 { x: 0, y: -1, z: 0 },
            ),
            ClipPlane::ScreenLeft => (Vec3 { x: 0, y: 0, z: 0 }, Vec3 { x: 1, y: 0, z: 0 }),
            ClipPlane::ScreenRight => (
                Vec3 { x: (self.window_width as i64 - 1) * ONE, y: 0, z: 0 },
                Vec3 { x: -1, y: 0, z: 0 },
            ),
        }
    }
}

} // verus!
