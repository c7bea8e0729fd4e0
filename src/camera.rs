//! The camera: pose, projection and the per-triangle pipeline.

use vstd::prelude::*;
use crate::geometry::{Vec3, bounded, normalize, normalized, norm_sq, is_unit, div_floor, ONE, WORLD_LIMIT};
use crate::triangle::{Triangle, tri, white, vertex, in_world, fits};
use crate::clip::{clipped, is_inside, lemma_clip_stays_inside, lemma_clip_bounded, l1};
use vstd::arithmetic::div_mod::{lemma_fundamental_div_mod, lemma_mod_bound};

verus! {

/// The non-zero entries of a perspective projection matrix, in fixed point.
/// Its last row is `(0, 0, 1, 0)`, so the homogeneous `w` of a projected
/// point is its view-space `z`.
#[derive(Clone, Copy, Debug, PartialEq, Eq, Structural)]
pub struct Projection {
    pub x_scale: i64,
    pub y_scale: i64,
    pub z_scale: i64,
    pub z_offset: i64,
}

/// A camera with a mutable pose and a fixed projection.
pub struct Camera {
    pub window_width: u32,
    pub window_height: u32,
    pub position: Vec3,
    pub looking_at: Vec3,
    pub projection_matrix: Projection,
}

/// Largest window width or height, in pixels.
pub const MAX_WINDOW: u32 = 8192;

/// Largest magnitude of a scale entry of the projection.
pub const FOCAL_LIMIT: i64 = 0x10_0000;

pub open spec fn within(v: int, limit: int) -> bool {
    -limit <= v <= limit
}

/// The projection built from near and far planes, the focal factor
/// `1 / tan(fov / 2)` and the aspect ratio, all in fixed point.
pub open spec fn projection_of(near: int, far: int, focal: int, aspect: int) -> Projection {
    Projection {
        x_scale: (aspect * focal / ONE as int) as i64,
        y_scale: focal as i64,
        z_scale: (far * ONE as int / (far - near)) as i64,
        z_offset: (-(far * near) / (far - near)) as i64,
    }
}

/// The parameters from which a camera can be built: a window of at most
/// `MAX_WINDOW` pixels each way, `near < far` within `WORLD_LIMIT`, and a
/// projection whose entries stay within range.
pub open spec fn camera_params_ok(
    window_width: int,
    window_height: int,
    near: int,
    far: int,
    focal: int,
    aspect: int,
) -> bool {
    &&& 0 < window_width <= MAX_WINDOW
    &&& 0 < window_height <= MAX_WINDOW
    &&& within(near, WORLD_LIMIT as int) && within(far, WORLD_LIMIT as int) && near < far
    &&& within(focal, FOCAL_LIMIT as int) && within(aspect, FOCAL_LIMIT as int)
    &&& within(aspect * focal / ONE as int, FOCAL_LIMIT as int)
    &&& within(far * ONE as int / (far - near), FOCAL_LIMIT as int)
    &&& within(-(far * near) / (far - near), WORLD_LIMIT as int)
}

pub open spec fn projection_ok(p: Projection) -> bool {
    within(p.x_scale as int, FOCAL_LIMIT as int) && within(p.y_scale as int, FOCAL_LIMIT as int)
        && within(p.z_scale as int, FOCAL_LIMIT as int) && within(
        p.z_offset as int,
        WORLD_LIMIT as int,
    )
}

/// `p` moved by `(dx, dy, dz)`.
pub open spec fn offset(p: Vec3, dx: int, dy: int, dz: int) -> Vec3 {
    Vec3 { x: (p.x + dx) as i64, y: (p.y + dy) as i64, z: (p.z + dz) as i64 }
}

/// `p` moved by `(dx, dy, dz)` still has 64-bit coordinates.
pub open spec fn offset_fits(p: Vec3, dx: int, dy: int, dz: int) -> bool {
    fits(p.x + dx) && fits(p.y + dy) && fits(p.z + dz)
}

fn add_offset(p: Vec3, dx: i128, dy: i128, dz: i128) -> (r: Vec3)
    requires
        within(dx as int, 0x8000_0000_0000_0000int),
        within(dy as int, 0x8000_0000_0000_0000int),
        within(dz as int, 0x8000_0000_0000_0000int),
        offset_fits(p, dx as int, dy as int, dz as int),
    ensures
        r == offset(p, dx as int, dy as int, dz as int),
{
    Vec3 {
        x: (p.x as i128 + dx) as i64,
        y: (p.y as i128 + dy) as i64,
        z: (p.z as i128 + dz) as i64,
    }
}

/// `d * amount / ONE`, rounded down, for a unit component `d`.
fn scale_step(d: i64, amount: i64) -> (r: i128)
    requires
        within(d as int, ONE as int),
    ensures
        r == d * amount / ONE as int,
        within(r as int, 0x8000_0000_0000_0000int),
{
    proof {
        let m = i64::MAX as int;
        assert(within(d * amount, ONE * (m + 1))) by (nonlinear_arith)
            requires
                within(d as int, ONE as int),
                within(amount as int, m + 1),
        ;
        vstd::arithmetic::div_mod::lemma_fundamental_div_mod(d * amount, ONE as int);
        vstd::arithmetic::div_mod::lemma_mod_bound(d * amount, ONE as int);
        let q = d * amount / ONE as int;
        assert(within(q, m + 1)) by (nonlinear_arith)
            requires
                within(d * amount, ONE * (m + 1)),
                d * amount == ONE * q + (d * amount) % (ONE as int),
                0 <= (d * amount) % (ONE as int) < ONE,
                ONE == 65536,
        ;
    }
    div_floor(d as i128 * amount as i128, ONE as i128)
}

impl Camera {
    /// The camera is well formed: window and projection within range and the
    /// view direction at most one unit in each coordinate.
    pub open spec fn wf(&self) -> bool {
        &&& 0 < self.window_width <= MAX_WINDOW
        &&& 0 < self.window_height <= MAX_WINDOW
        &&& bounded(self.looking_at, ONE as int)
        &&& projection_ok(self.projection_matrix)
    }

    /// A camera at `(0, 0, -10)` looking along `+z`, with the projection built
    /// from the given planes, focal factor and aspect ratio; `None` when the
    /// parameters are out of range.
    pub fn new(
        window_width: u32,
        window_height: u32,
        f_near: i64,
        f_far: i64,
        focal: i64,
        f_aspect_ratio: i64,
    ) -> (r: Option<Camera>)
        ensures
            r is Some <==> camera_params_ok(
                window_width as int,
                window_height as int,
                f_near as int,
                f_far as int,
                focal as int,
                f_aspect_ratio as int,
            ),
            r matches Some(c) ==> {
                &&& c.wf()
                &&& c.window_width == window_width
                &&& c.window_height == window_height
                &&& c.position == (Vec3 { x: 0i64, y: 0i64, z: -655360i64 })
                &&& c.looking_at == (Vec3 { x: 0i64, y: 0i64, z: ONE })
                &&& c.projection_matrix == projection_of(
                    f_near as int,
                    f_far as int,
                    focal as int,
                    f_aspect_ratio as int,
                )
            },
    {
        if window_width == 0 || window_width > MAX_WINDOW || window_height == 0 || window_height
            > MAX_WINDOW {
            return None;
        }
        let wl = WORLD_LIMIT;
        let fl = FOCAL_LIMIT;
        if f_near < -wl || f_near > wl || f_far < -wl || f_far > wl || f_near >= f_far {
            return None;
        }
        if focal < -fl || focal > fl || f_aspect_ratio < -fl || f_aspect_ratio > fl {
            return None;
        }
        proof {
            let (a, f, n, r) = (f_aspect_ratio as int, focal as int, f_near as int, f_far as int);
            assert(within(a * f, fl * fl)) by (nonlinear_arith)
                requires
                    within(a, fl as int),
                    within(f, fl as int),
            ;
            assert(within(r * n, wl * wl)) by (nonlinear_arith)
                requires
                    within(n, wl as int),
                    within(r, wl as int),
            ;
        }
        let x_scale = div_floor(f_aspect_ratio as i128 * focal as i128, ONE as i128);
        let z_scale = div_floor(f_far as i128 * ONE as i128, f_far as i128 - f_near as i128);
        let z_offset = div_floor(
            -(f_far as i128 * f_near as i128),
            f_far as i128 - f_near as i128,
        );
        let fl = fl as i128;
        if x_scale < -fl || x_scale > fl || z_scale < -fl || z_scale > fl || z_offset < -(
        wl as i128) || z_offset > wl as i128 {
            return None;
        }
        Some(
            Camera {
                window_width,
                window_height,
                position: Vec3 { x: 0, y: 0, z: -10 * ONE },
                looking_at: Vec3 { x: 0, y: 0, z: ONE },
                projection_matrix: Projection {
                    x_scale: x_scale as i64,
                    y_scale: focal,
                    z_scale: z_scale as i64,
                    z_offset: z_offset as i64,
                },
            },
        )
    }

    /// Moves along the view direction by `amount` (scaled by the direction's
    /// length over `ONE`).
    pub fn move_forward(&mut self, amount: i64)
        requires
            old(self).wf(),
            offset_fits(
                old(self).position,
                old(self).looking_at.x * amount / ONE as int,
                old(self).looking_at.y * amount / ONE as int,
                old(self).looking_at.z * amount / ONE as int,
            ),
        ensures
            final(self).wf(),
            final(self).position == offset(
                old(self).position,
                old(self).looking_at.x * amount / ONE as int,
                old(self).looking_at.y * amount / ONE as int,
                old(self).looking_at.z * amount / ONE as int,
            ),
            final(self).looking_at == old(self).looking_at,
            final(self).projection_matrix == old(self).projection_matrix,
            final(self).window_width == old(self).window_width,
            final(self).window_height == old(self).window_height,
    {
        let d = self.looking_at;
        let dx = scale_step(d.x, amount);
        let dy = scale_step(d.y, amount);
        let dz = scale_step(d.z, amount);
        self.position = add_offset(self.position, dx, dy, dz);
    }

    /// Moves up (along `+y`) by `amount`.
    pub fn move_up(&mut self, amount: i64)
        requires
            old(self).wf(),
            fits(old(self).position.y + amount),
        ensures
            final(self).wf(),
            final(self).position == offset(old(self).position, 0, amount as int, 0),
            final(self).looking_at == old(self).looking_at,
            final(self).projection_matrix == old(self).projection_matrix,
            final(self).window_width == old(self).window_width,
            final(self).window_height == old(self).window_height,
    {
        self.position = add_offset(self.position, 0, amount as i128, 0);
    }

    /// Strafes by `amount` along the view direction crossed with `+y`, which
    /// is `(-d.z, 0, d.x)`.
    pub fn move_left(&mut self, amount: i64)
        requires
            old(self).wf(),
            offset_fits(
                old(self).position,
                (-old(self).looking_at.z) * amount / ONE as int,
                0,
                old(self).looking_at.x * amount / ONE as int,
            ),
        ensures
            final(self).wf(),
            final(self).position == offset(
                old(self).position,
                (-old(self).looking_at.z) * amount / ONE as int,
                0,
                old(self).looking_at.x * amount / ONE as int,
            ),
            final(self).looking_at == old(self).looking_at,
            final(self).projection_matrix == old(self).projection_matrix,
            final(self).window_width == old(self).window_width,
            final(self).window_height == old(self).window_height,
    {
        let d = self.looking_at;
        let dx = scale_step(-d.z, amount);
        let dz = scale_step(d.x, amount);
        self.position = add_offset(self.position, dx, 0, dz);
    }
}

/// Largest magnitude of a view-space coordinate.
pub const VIEW_LIMIT: i64 = 0x30_0000_0000;

/// Distance of the near clipping plane in front of the camera (0.1 units).
pub const NEAR_CLIP: i64 = 6554;

/// Largest magnitude of a coordinate after the perspective divide.
pub const NDC_LIMIT: i64 = 0x2800_0000_0000;

/// A point of the near plane, in view space (the camera looks along `-z`).
pub open spec fn near_point() -> Vec3 {
    Vec3 { x: 0, y: 0, z: -6554i64 }
}

/// The normal of the near plane, pointing away from the camera.
pub open spec fn near_normal() -> Vec3 {
    Vec3 { x: 0, y: 0, z: -1i64 }
}

/// `cos` and `sin` are the fixed-point cosine and sine of one angle, up to
/// rounding: `cos^2 + sin^2` is within `4 ONE` of `ONE^2`.
pub open spec fn is_rotation(cos: int, sin: int) -> bool {
    ONE * ONE - 4 * ONE <= cos * cos + sin * sin <= ONE * ONE + 4 * ONE
}

/// The view direction `d` turned about `+y` by the angle whose cosine and sine
/// are `cos` and `sin`, raised by `-pitch`, and scaled back to unit length.
pub open spec fn turned(d: Vec3, pitch: int, cos: int, sin: int) -> Vec3 {
    normalized(turned_raw(d, pitch, cos, sin))
}

/// The turned and raised view direction before it is scaled back.
pub open spec fn turned_raw(d: Vec3, pitch: int, cos: int, sin: int) -> Vec3 {
    Vec3 {
        x: ((d.x * cos + d.z * sin) / ONE as int) as i64,
        y: (d.y - pitch) as i64,
        z: ((d.z * cos - d.x * sin) / ONE as int) as i64,
    }
}

/// The axes of the right-handed view frame for view direction `d` and world
/// up `+y`: `z` points back from the view direction, `x` is `+y` crossed with
/// `z`, and `y` is `z` crossed with `x`.
pub open spec fn view_axes(d: Vec3) -> (Vec3, Vec3, Vec3) {
    let z = normalized(Vec3 { x: (-d.x) as i64, y: (-d.y) as i64, z: (-d.z) as i64 });
    let x = normalized(Vec3 { x: z.z, y: 0, z: (-z.x) as i64 });
    let y = Vec3 {
        x: ((z.y * x.z - z.z * x.y) / ONE as int) as i64,
        y: ((z.z * x.x - z.x * x.z) / ONE as int) as i64,
        z: ((z.x * x.y - z.y * x.x) / ONE as int) as i64,
    };
    (x, y, z)
}

pub open spec fn dot_from(a: Vec3, v: Vec3, eye: Vec3) -> int {
    a.x * (v.x - eye.x) + a.y * (v.y - eye.y) + a.z * (v.z - eye.z)
}

/// `v` in the view frame of a camera at `eye` looking along `d`.
pub open spec fn to_view(v: Vec3, eye: Vec3, d: Vec3) -> Vec3 {
    let (x, y, z) = view_axes(d);
    Vec3 {
        x: (dot_from(x, v, eye) / ONE as int) as i64,
        y: (dot_from(y, v, eye) / ONE as int) as i64,
        z: (dot_from(z, v, eye) / ONE as int) as i64,
    }
}

/// A view-space point through the projection, the perspective divide (with a
/// zero `w` taken as one) and the map of `[-1, 1]` onto the window.
pub open spec fn to_screen(p: Projection, width: int, height: int, v: Vec3) -> Vec3 {
    let xc = p.x_scale * v.x / ONE as int;
    let yc = p.y_scale * v.y / ONE as int;
    let zc = p.z_scale * v.z / ONE as int + p.z_offset;
    let w = if v.z == 0 { ONE as int } else { v.z as int };
    let nx = xc * ONE / w;
    let ny = yc * ONE / w;
    let nz = zc * ONE / w;
    Vec3 {
        x: ((nx + ONE) * width / 2) as i64,
        y: ((ny + ONE) * height / 2) as i64,
        z: nz as i64,
    }
}

/// The screen-space triangle of a view-space triangle.
pub open spec fn screen_triangle(c: Camera, t: Triangle) -> Triangle {
    let f = |v: Vec3| to_screen(c.projection_matrix, c.window_width as int, c.window_height as int, v);
    tri(f(t.a), f(t.b), f(t.c), white())
}

/// The view-space triangle of a world-space triangle.
pub open spec fn view_triangle(c: Camera, t: Triangle) -> Triangle {
    tri(
        to_view(t.a, c.position, c.looking_at),
        to_view(t.b, c.position, c.looking_at),
        to_view(t.c, c.position, c.looking_at),
        white(),
    )
}

/// What projecting `t` gives: the view-space triangle clipped against the
/// near plane, each piece taken to the screen.
pub open spec fn projected(c: Camera, t: Triangle) -> Seq<Triangle> {
    clipped(view_triangle(c, t), near_normal(), near_point()).map_values(
        |p: Triangle| screen_triangle(c, p),
    )
}

proof fn lemma_mul_within(a: int, b: int, la: int, lb: int)
    requires
        within(a, la),
        within(b, lb),
    ensures
        within(a * b, la * lb),
{
    assert(within(a * b, la * lb)) by (nonlinear_arith)
        requires
            within(a, la),
            within(b, lb),
    ;
}

/// `n / d` is within `limit` when `n` is within `limit * d`.
proof fn lemma_div_within(n: int, d: int, limit: int)
    requires
        d > 0,
        limit >= 0,
        within(n, limit * d),
    ensures
        within(n / d, limit),
{
    lemma_fundamental_div_mod(n, d);
    lemma_mod_bound(n, d);
    assert(within(n / d, limit)) by (nonlinear_arith)
        requires
            n == d * (n / d) + n % d,
            0 <= n % d < d,
            within(n, limit * d),
            d > 0,
    ;
}

proof fn lemma_div_by_depth(n: int, w: int)
    requires
        w <= -NEAR_CLIP,
        within(n, 0x400_0000_0000_0000),
    ensures
        within(n / w, NDC_LIMIT as int),
{
    lemma_fundamental_div_mod(n, w);
    lemma_mod_bound(n, -w);
    vstd::arithmetic::div_mod::lemma_mod_bound(n, -w);
    let q = n / w;
    let r = n % w;
    assert(0 <= r < -w);
    assert(within(q, NDC_LIMIT as int)) by (nonlinear_arith)
        requires
            n == w * q + r,
            0 <= r < -w,
            w <= -6554,
            within(n, 0x400_0000_0000_0000),
            NDC_LIMIT == 0x2800_0000_0000,
    ;
}

fn dot_scaled(a: Vec3, v: Vec3, eye: Vec3) -> (r: i64)
    requires
        bounded(a, 2 * ONE),
        bounded(v, WORLD_LIMIT as int),
        bounded(eye, WORLD_LIMIT as int),
    ensures
        r == dot_from(a, v, eye) / ONE as int,
        within(r as int, VIEW_LIMIT as int),
{
    let (rx, ry, rz) = (
        v.x as i128 - eye.x as i128,
        v.y as i128 - eye.y as i128,
        v.z as i128 - eye.z as i128,
    );
    proof {
        let (w, o) = (WORLD_LIMIT as int, ONE as int);
        assert(within(a.x * rx, 2 * o * (2 * w)) && within(a.y * ry, 2 * o * (2 * w)) && within(
            a.z * rz,
            2 * o * (2 * w),
        )) by (nonlinear_arith)
            requires
                bounded(a, 2 * o),
                within(rx as int, 2 * w),
                within(ry as int, 2 * w),
                within(rz as int, 2 * w),
                o > 0,
                w > 0,
        ;
        lemma_div_within(dot_from(a, v, eye), o, VIEW_LIMIT as int);
    }
    let d = a.x as i128 * rx + a.y as i128 * ry + a.z as i128 * rz;
    div_floor(d, ONE as i128) as i64
}

impl Camera {
    /// Turns the view direction about `+y` by the angle whose cosine and sine
    /// (in fixed point) are given, lowers it by `x_am`, and scales it back to
    /// unit length.
    pub fn move_looking_at(&mut self, x_am: i64, yaw_cos: i64, yaw_sin: i64)
        requires
            old(self).wf(),
            within(x_am as int, ONE as int),
            within(yaw_cos as int, ONE as int),
            within(yaw_sin as int, ONE as int),
            is_rotation(yaw_cos as int, yaw_sin as int),
        ensures
            final(self).wf(),
            final(self).looking_at == turned(
                old(self).looking_at,
                x_am as int,
                yaw_cos as int,
                yaw_sin as int,
            ),
            norm_sq(turned_raw(old(self).looking_at, x_am as int, yaw_cos as int, yaw_sin as int))
                != 0 ==> is_unit(final(self).looking_at),
            final(self).position == old(self).position,
            final(self).projection_matrix == old(self).projection_matrix,
            final(self).window_width == old(self).window_width,
            final(self).window_height == old(self).window_height,
    {
        let d = self.looking_at;
        proof {
            let o = ONE as int;
            assert(within(d.x * yaw_cos + d.z * yaw_sin, 2 * o * o) && within(
                d.z * yaw_cos - d.x * yaw_sin,
                2 * o * o,
            )) by (nonlinear_arith)
                requires
                    bounded(d, o),
                    within(yaw_cos as int, o),
                    within(yaw_sin as int, o),
                    o > 0,
            ;
            lemma_mul_within(d.x as int, yaw_cos as int, o, o);
            lemma_mul_within(d.z as int, yaw_sin as int, o, o);
            lemma_mul_within(d.z as int, yaw_cos as int, o, o);
            lemma_mul_within(d.x as int, yaw_sin as int, o, o);
            lemma_div_within(d.x * yaw_cos + d.z * yaw_sin, o, 2 * o);
            lemma_div_within(d.z * yaw_cos - d.x * yaw_sin, o, 2 * o);
        }
        let x = div_floor(
            d.x as i128 * yaw_cos as i128 + d.z as i128 * yaw_sin as i128,
            ONE as i128,
        );
        let z = div_floor(
            d.z as i128 * yaw_cos as i128 - d.x as i128 * yaw_sin as i128,
            ONE as i128,
        );
        self.looking_at = normalize(Vec3 { x: x as i64, y: d.y - x_am, z: z as i64 });
    }
}

fn view_axes_exec(d: Vec3) -> (r: (Vec3, Vec3, Vec3))
    requires
        bounded(d, ONE as int),
    ensures
        r == view_axes(d),
        bounded(r.0, ONE as int),
        bounded(r.1, 2 * ONE),
        bounded(r.2, ONE as int),
{
    let z = normalize(Vec3 { x: -d.x, y: -d.y, z: -d.z });
    let x = normalize(Vec3 { x: z.z, y: 0, z: -z.x });
    proof {
        let o = ONE as int;
        assert(within(z.y * x.z - z.z * x.y, 2 * o * o) && within(z.z * x.x - z.x * x.z, 2 * o * o)
            && within(z.x * x.y - z.y * x.x, 2 * o * o)) by (nonlinear_arith)
            requires
                bounded(z, o),
                bounded(x, o),
                o > 0,
        ;
        lemma_mul_within(z.y as int, x.z as int, o, o);
        lemma_mul_within(z.z as int, x.y as int, o, o);
        lemma_mul_within(z.z as int, x.x as int, o, o);
        lemma_mul_within(z.x as int, x.z as int, o, o);
        lemma_mul_within(z.x as int, x.y as int, o, o);
        lemma_mul_within(z.y as int, x.x as int, o, o);
        lemma_div_within(z.y * x.z - z.z * x.y, o, 2 * o);
        lemma_div_within(z.z * x.x - z.x * x.z, o, 2 * o);
        lemma_div_within(z.x * x.y - z.y * x.x, o, 2 * o);
    }
    let (zx, zy, zz) = (z.x as i128, z.y as i128, z.z as i128);
    let (xx, xy, xz) = (x.x as i128, x.y as i128, x.z as i128);
    let y = Vec3 {
        x: div_floor(zy * xz - zz * xy, ONE as i128) as i64,
        y: div_floor(zz * xx - zx * xz, ONE as i128) as i64,
        z: div_floor(zx * xy - zy * xx, ONE as i128) as i64,
    };
    (x, y, z)
}

fn view_point(v: Vec3, eye: Vec3, axes: (Vec3, Vec3, Vec3)) -> (r: Vec3)
    requires
        bounded(v, WORLD_LIMIT as int),
        bounded(eye, WORLD_LIMIT as int),
        bounded(axes.0, ONE as int),
        bounded(axes.1, 2 * ONE),
        bounded(axes.2, ONE as int),
    ensures
        r == (Vec3 {
            x: (dot_from(axes.0, v, eye) / ONE as int) as i64,
            y: (dot_from(axes.1, v, eye) / ONE as int) as i64,
            z: (dot_from(axes.2, v, eye) / ONE as int) as i64,
        }),
        bounded(r, VIEW_LIMIT as int),
{
    Vec3 { x: dot_scaled(axes.0, v, eye), y: dot_scaled(axes.1, v, eye), z: dot_scaled(axes.2, v, eye) }
}

/// `(n + ONE) * size / 2`, rounded down.
fn to_window(n: i128, size: u32) -> (r: i64)
    requires
        within(n as int, NDC_LIMIT as int),
        size <= MAX_WINDOW,
    ensures
        r == (n + ONE) * size / 2,
        within(r as int, crate::geometry::COORD_LIMIT as int),
{
    proof {
        lemma_mul_within(n + ONE, size as int, NDC_LIMIT + ONE, MAX_WINDOW as int);
        lemma_div_within((n + ONE) * size, 2, crate::geometry::COORD_LIMIT as int);
    }
    div_floor((n + ONE as i128) * size as i128, 2) as i64
}

impl Camera {
    fn project_point(&self, v: Vec3) -> (r: Vec3)
        requires
            self.wf(),
            bounded(v, VIEW_LIMIT as int),
            v.z <= -NEAR_CLIP,
        ensures
            r == to_screen(
                self.projection_matrix,
                self.window_width as int,
                self.window_height as int,
                v,
            ),
            bounded(r, crate::geometry::COORD_LIMIT as int),
    {
        let p = self.projection_matrix;
        let o = ONE as i128;
        proof {
            let (f, vl) = (FOCAL_LIMIT as int, VIEW_LIMIT as int);
            lemma_mul_within(p.x_scale as int, v.x as int, f, vl);
            lemma_mul_within(p.y_scale as int, v.y as int, f, vl);
            lemma_mul_within(p.z_scale as int, v.z as int, f, vl);
            lemma_div_within(p.x_scale * v.x, ONE as int, 0x300_0000_0000);
            lemma_div_within(p.y_scale * v.y, ONE as int, 0x300_0000_0000);
            lemma_div_within(p.z_scale * v.z, ONE as int, 0x300_0000_0000);
        }
        let xc = div_floor(p.x_scale as i128 * v.x as i128, o);
        let yc = div_floor(p.y_scale as i128 * v.y as i128, o);
        let zc = div_floor(p.z_scale as i128 * v.z as i128, o) + p.z_offset as i128;
        let w: i128 = if v.z == 0 {
            o
        } else {
            v.z as i128
        };
        proof {
            lemma_div_by_depth(xc * ONE, w as int);
            lemma_div_by_depth(yc * ONE, w as int);
            lemma_div_by_depth(zc * ONE, w as int);
        }
        let nx = div_euclid(xc * o, w);
        let ny = div_euclid(yc * o, w);
        let nz = div_euclid(zc * o, w);
        Vec3 {
            x: to_window(nx, self.window_width),
            y: to_window(ny, self.window_height),
            z: nz as i64,
        }
    }
}

/// `n / d`, Euclidean (rounded down for a positive `d`).
fn div_euclid(n: i128, d: i128) -> (q: i128)
    requires
        d != 0,
        within(n as int / d as int, NDC_LIMIT as int),
    ensures
        q == n as int / d as int,
{
    match n.checked_div_euclid(d) {
        Some(q) => q,
        None => 0,
    }
}

impl Camera {
    /// Takes a world-space triangle to the screen: into the view frame, clipped
    /// against the near plane, then projected; gives zero, one or two white
    /// triangles.
    pub fn project_triangle(&self, triangle: &Triangle) -> (r: Vec<Triangle>)
        requires
            self.wf(),
            bounded(self.position, WORLD_LIMIT as int),
            in_world(*triangle),
        ensures
            r@ == projected(*self, *triangle),
            forall|j: int, k: int|
                0 <= j < r@.len() && 0 <= k < 3 ==> bounded(
                    #[trigger] vertex(r@[j], k),
                    crate::geometry::COORD_LIMIT as int,
                ),
    {
        let axes = view_axes_exec(self.looking_at);
        let viewed = Triangle::new(
            [
                view_point(triangle.a, self.position, axes),
                view_point(triangle.b, self.position, axes),
                view_point(triangle.c, self.position, axes),
            ],
        );
        assert(viewed == view_triangle(*self, *triangle));
        let (plane_point, plane_normal) = self.plane(crate::frame::ClipPlane::Near);
        proof {
            lemma_clip_stays_inside(viewed, plane_normal, plane_point);
            lemma_clip_bounded(viewed, plane_normal, plane_point, VIEW_LIMIT as int);
            assert(l1(plane_normal) == 1);
        }
        let pieces = self.clip_triangle(&plane_point, &plane_normal, viewed);
        let mut out: Vec<Triangle> = Vec::new();
        let mut i: usize = 0;
        while i < pieces.len()
            invariant
                self.wf(),
                0 <= i <= pieces@.len(),
                out@.len() == i,
                pieces@ == clipped(viewed, near_normal(), near_point()),
                forall|j: int| 0 <= j < i ==> out@[j] == screen_triangle(*self, #[trigger] pieces@[j]),
                forall|j: int, k: int|
                    0 <= j < i && 0 <= k < 3 ==> bounded(
                        #[trigger] vertex(out@[j], k),
                        crate::geometry::COORD_LIMIT as int,
                    ),
                forall|j: int, k: int|
                    0 <= j < pieces@.len() && 0 <= k < 3 ==> is_inside(
                        #[trigger] vertex(pieces@[j], k),
                        near_normal(),
                        near_point(),
                    ) && bounded(vertex(pieces@[j], k), VIEW_LIMIT as int),
            decreases pieces@.len() - i,
        {
            let c = pieces[i];
            proof {
                assert(vertex(pieces@[i as int], 0) == c.a);
                assert(vertex(pieces@[i as int], 1) == c.b);
                assert(vertex(pieces@[i as int], 2) == c.c);
            }
            let t = Triangle::new(
                [self.project_point(c.a), self.project_point(c.b), self.project_point(c.c)],
            );
            out.push(t);
            i = i + 1;
        }
        assert(out@ =~= projected(*self, *triangle));
        out
    }
}

} // verus!
