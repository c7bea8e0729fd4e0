//! Triangles of fixed-point vertices with a flat color.

use vstd::prelude::*;
use crate::geometry::{Vec3, bounded, normalize_wide, normalized_wide, is_unit, same_signs, div_floor, ONE, WORLD_LIMIT, WIDE_LIMIT};
use vstd::arithmetic::div_mod::{lemma_fundamental_div_mod, lemma_mod_bound};

verus! {

/// A triangle: three vertices in order and a flat RGB color.
#[derive(Clone, Copy, Debug)]
pub struct Triangle {
    pub a: Vec3,
    pub b: Vec3,
    pub c: Vec3,
    pub col: [u8; 3],
}

pub open spec fn white() -> [u8; 3] {
    [255u8, 255u8, 255u8]
}

/// The triangle with vertices `a`, `b`, `c` and color `col`.
pub open spec fn tri(a: Vec3, b: Vec3, c: Vec3, col: [u8; 3]) -> Triangle {
    Triangle { a, b, c, col }
}

pub open spec fn vertex(t: Triangle, i: int) -> Vec3 {
    if i == 0 { t.a } else if i == 1 { t.b } else { t.c }
}

impl Triangle {
    /// A white triangle with the given vertices.
    pub fn new(points: [Vec3; 3]) -> (r: Triangle)
        ensures
            r == tri(points@[0], points@[1], points@[2], white()),
    {
        Triangle { a: points[0], b: points[1], c: points[2], col: [255u8, 255u8, 255u8] }
    }

    /// A white triangle from three `[x, y, z]` coordinate arrays.
    pub fn from_vercices(v1: [i64; 3], v2: [i64; 3], v3: [i64; 3]) -> (r: Triangle)
        ensures
            r == tri(
                Vec3 { x: v1@[0], y: v1@[1], z: v1@[2] },
                Vec3 { x: v2@[0], y: v2@[1], z: v2@[2] },
                Vec3 { x: v3@[0], y: v3@[1], z: v3@[2] },
                white(),
            ),
    {
        Triangle {
            a: Vec3 { x: v1[0], y: v1[1], z: v1[2] },
            b: Vec3 { x: v2[0], y: v2[1], z: v2[2] },
            c: Vec3 { x: v3[0], y: v3[1], z: v3[2] },
            col: [255u8, 255u8, 255u8],
        }
    }

    /// A white triangle from three vertices.
    pub fn from_vectors(v1: &Vec3, v2: &Vec3, v3: &Vec3) -> (r: Triangle)
        ensures
            r == tri(*v1, *v2, *v3, white()),
    {
        Triangle { a: *v1, b: *v2, c: *v3, col: [255u8, 255u8, 255u8] }
    }
}

/// Every vertex lies within `WORLD_LIMIT`.
pub open spec fn in_world(t: Triangle) -> bool {
    bounded(t.a, WORLD_LIMIT as int) && bounded(t.b, WORLD_LIMIT as int) && bounded(
        t.c,
        WORLD_LIMIT as int,
    )
}

/// The geometric normal `(a - b) x (a - c)`, not scaled, exactly.
pub open spec fn face_normal(t: Triangle) -> (int, int, int) {
    let (ux, uy, uz) = (t.a.x - t.b.x, t.a.y - t.b.y, t.a.z - t.b.z);
    let (vx, vy, vz) = (t.a.x - t.c.x, t.a.y - t.c.y, t.a.z - t.c.z);
    (uy * vz - uz * vy, uz * vx - ux * vz, ux * vy - uy * vx)
}

/// The centroid, each coordinate rounded down.
pub open spec fn centroid(t: Triangle) -> Vec3 {
    Vec3 {
        x: ((t.a.x + t.b.x + t.c.x) / 3) as i64,
        y: ((t.a.y + t.b.y + t.c.y) / 3) as i64,
        z: ((t.a.z + t.b.z + t.c.z) / 3) as i64,
    }
}

proof fn lemma_cross_term(a: int, b: int, c: int, d: int)
    requires
        -0x8_0000_0000 <= a <= 0x8_0000_0000,
        -0x8_0000_0000 <= b <= 0x8_0000_0000,
        -0x8_0000_0000 <= c <= 0x8_0000_0000,
        -0x8_0000_0000 <= d <= 0x8_0000_0000,
    ensures
        -0x40_0000_0000_0000_0000 <= a * b <= 0x40_0000_0000_0000_0000,
        -0x40_0000_0000_0000_0000 <= c * d <= 0x40_0000_0000_0000_0000,
        -WIDE_LIMIT <= a * b - c * d <= WIDE_LIMIT,
{
    assert(-0x40_0000_0000_0000_0000 <= a * b <= 0x40_0000_0000_0000_0000) by (nonlinear_arith)
        requires
            -0x8_0000_0000 <= a <= 0x8_0000_0000,
            -0x8_0000_0000 <= b <= 0x8_0000_0000,
    ;
    assert(-0x40_0000_0000_0000_0000 <= c * d <= 0x40_0000_0000_0000_0000) by (nonlinear_arith)
        requires
            -0x8_0000_0000 <= c <= 0x8_0000_0000,
            -0x8_0000_0000 <= d <= 0x8_0000_0000,
    ;
}

/// `face_normal` of a triangle in the world, computed exactly.
pub fn face_normal_exec(t: &Triangle) -> (r: (i128, i128, i128))
    requires
        in_world(*t),
    ensures
        (r.0 as int, r.1 as int, r.2 as int) == face_normal(*t),
        -WIDE_LIMIT <= r.0 <= WIDE_LIMIT,
        -WIDE_LIMIT <= r.1 <= WIDE_LIMIT,
        -WIDE_LIMIT <= r.2 <= WIDE_LIMIT,
{
    let (ux, uy, uz) = (
        t.a.x as i128 - t.b.x as i128,
        t.a.y as i128 - t.b.y as i128,
        t.a.z as i128 - t.b.z as i128,
    );
    let (vx, vy, vz) = (
        t.a.x as i128 - t.c.x as i128,
        t.a.y as i128 - t.c.y as i128,
        t.a.z as i128 - t.c.z as i128,
    );
    proof {
        lemma_cross_term(uy as int, vz as int, uz as int, vy as int);
        lemma_cross_term(uz as int, vx as int, ux as int, vz as int);
        lemma_cross_term(ux as int, vy as int, uy as int, vx as int);
    }
    (uy * vz - uz * vy, uz * vx - ux * vz, ux * vy - uy * vx)
}

/// `v` fits a 64-bit coordinate.
pub open spec fn fits(v: int) -> bool {
    i64::MIN <= v <= i64::MAX
}

impl Triangle {
    /// A white triangle from nine coordinates, vertex by vertex.
    pub fn from_points(
        x1: i64,
        y1: i64,
        z1: i64,
        x2: i64,
        y2: i64,
        z2: i64,
        x3: i64,
        y3: i64,
        z3: i64,
    ) -> (r: Triangle)
        ensures
            r == tri(
                Vec3 { x: x1, y: y1, z: z1 },
                Vec3 { x: x2, y: y2, z: z2 },
                Vec3 { x: x3, y: y3, z: z3 },
                white(),
            ),
    {
        Triangle {
            a: Vec3 { x: x1, y: y1, z: z1 },
            b: Vec3 { x: x2, y: y2, z: z2 },
            c: Vec3 { x: x3, y: y3, z: z3 },
            col: [255u8, 255u8, 255u8],
        }
    }

    /// The vertex at `index`.
    pub fn point3(&self, index: usize) -> (r: Vec3)
        requires
            index < 3,
        ensures
            r == vertex(*self, index as int),
    {
        if index == 0 {
            self.a
        } else if index == 1 {
            self.b
        } else {
            self.c
        }
    }

    /// The centroid of the vertices, rounded down.
    pub fn mid(&self) -> (r: Vec3)
        ensures
            r == centroid(*self),
    {
        let (a, b, c) = (self.a, self.b, self.c);
        Vec3 {
            x: div_floor(a.x as i128 + b.x as i128 + c.x as i128, 3) as i64,
            y: div_floor(a.y as i128 + b.y as i128 + c.y as i128, 3) as i64,
            z: div_floor(a.z as i128 + b.z as i128 + c.z as i128, 3) as i64,
        }
    }

    /// The unit normal: `(a - b) x (a - c)` scaled to length `ONE`, the zero
    /// vector for a degenerate triangle.
    pub fn normal(&self) -> (r: Vec3)
        requires
            in_world(*self),
        ensures
            r == normalized_wide(face_normal(*self).0, face_normal(*self).1, face_normal(*self).2),
            face_normal(*self) != (0int, 0int, 0int) ==> is_unit(r),
            same_signs(r, face_normal(*self).0, face_normal(*self).1, face_normal(*self).2),
            bounded(r, ONE as int),
    {
        let (x, y, z) = face_normal_exec(self);
        normalize_wide(x, y, z)
    }

    /// Moves every vertex by `(x, y, z)`.
    pub fn translate(&mut self, x: i64, y: i64, z: i64)
        requires
            fits(old(self).a.x + x) && fits(old(self).a.y + y) && fits(old(self).a.z + z),
            fits(old(self).b.x + x) && fits(old(self).b.y + y) && fits(old(self).b.z + z),
            fits(old(self).c.x + x) && fits(old(self).c.y + y) && fits(old(self).c.z + z),
        ensures
            *final(self) == tri(
                shifted(old(self).a, x, y, z),
                shifted(old(self).b, x, y, z),
                shifted(old(self).c, x, y, z),
                old(self).col,
            ),
    {
        self.a = Vec3 { x: self.a.x + x, y: self.a.y + y, z: self.a.z + z };
        self.b = Vec3 { x: self.b.x + x, y: self.b.y + y, z: self.b.z + z };
        self.c = Vec3 { x: self.c.x + x, y: self.c.y + y, z: self.c.z + z };
    }
}

pub open spec fn shifted(v: Vec3, x: i64, y: i64, z: i64) -> Vec3 {
    Vec3 { x: (v.x + x) as i64, y: (v.y + y) as i64, z: (v.z + z) as i64 }
}

/// A rotation angle given by its cosine and sine, in fixed point.
#[derive(Clone, Copy, Debug, PartialEq, Eq, Structural)]
pub struct Turn {
    pub cos: i64,
    pub sin: i64,
}

/// A turn's cosine and sine are at most `ONE` and, up to rounding, those of
/// one angle.
pub open spec fn turn_ok(t: Turn) -> bool {
    -ONE <= t.cos <= ONE && -ONE <= t.sin <= ONE && crate::camera::is_rotation(
        t.cos as int,
        t.sin as int,
    )
}

/// `v` turned about `x`, `y` or `z` (`axis` 0, 1, 2) by `t`, right-handed,
/// each coordinate rounded down.
pub open spec fn rotated_about(v: Vec3, axis: int, t: Turn) -> Vec3 {
    let (c, s) = (t.cos as int, t.sin as int);
    if axis == 0 {
        Vec3 { x: v.x, y: ((v.y * c - v.z * s) / ONE as int) as i64, z: ((v.y * s + v.z * c) / ONE as int) as i64 }
    } else if axis == 1 {
        Vec3 { x: ((v.x * c + v.z * s) / ONE as int) as i64, y: v.y, z: ((v.z * c - v.x * s) / ONE as int) as i64 }
    } else {
        Vec3 { x: ((v.x * c - v.y * s) / ONE as int) as i64, y: ((v.x * s + v.y * c) / ONE as int) as i64, z: v.z }
    }
}

/// `v` turned about `z`, then `y`, then `x`.
pub open spec fn rotated(v: Vec3, x: Turn, y: Turn, z: Turn) -> Vec3 {
    rotated_about(rotated_about(rotated_about(v, 2, z), 1, y), 0, x)
}

/// `(a * c + b * s) / ONE`, rounded down.
fn mix(a: i64, b: i64, c: i64, s: i64, lim: i64) -> (r: i64)
    requires
        0 <= lim <= 0x1000_0000_0000_0000,
        -lim <= a <= lim,
        -lim <= b <= lim,
        -ONE <= c <= ONE,
        -ONE <= s <= ONE,
    ensures
        r == (a * c + b * s) / ONE as int,
        -2 * lim <= r <= 2 * lim,
{
    proof {
        let o = ONE as int;
        assert(-lim * o <= a * c <= lim * o && -lim * o <= b * s <= lim * o) by (nonlinear_arith)
            requires
                -lim <= a <= lim,
                -lim <= b <= lim,
                -o <= c <= o,
                -o <= s <= o,
        ;
        let n = a * c + b * s;
        lemma_fundamental_div_mod(n, o);
        lemma_mod_bound(n, o);
        assert(-2 * lim <= n / o <= 2 * lim) by (nonlinear_arith)
            requires
                n == o * (n / o) + n % o,
                0 <= n % o < o,
                -2 * lim * o <= n <= 2 * lim * o,
                o > 0,
        ;
    }
    div_floor(a as i128 * c as i128 + b as i128 * s as i128, ONE as i128) as i64
}

fn rotate_about(v: Vec3, axis: u8, t: Turn, lim: i64) -> (r: Vec3)
    requires
        0 <= lim <= 0x1000_0000_0000_0000,
        bounded(v, lim as int),
        turn_ok(t),
        axis < 3,
    ensures
        r == rotated_about(v, axis as int, t),
        bounded(r, 2 * lim),
{
    let (c, s) = (t.cos, t.sin);
    proof {
        assert(forall|a: int, b: int| #[trigger] (a * -b) == -(a * b)) by (nonlinear_arith);
    }
    if axis == 0 {
        Vec3 { x: v.x, y: mix(v.y, v.z, c, -s, lim), z: mix(v.y, v.z, s, c, lim) }
    } else if axis == 1 {
        Vec3 { x: mix(v.x, v.z, c, s, lim), y: v.y, z: mix(v.z, v.x, c, -s, lim) }
    } else {
        Vec3 { x: mix(v.x, v.y, c, -s, lim), y: mix(v.x, v.y, s, c, lim), z: v.z }
    }
}

fn rotate_point(v: Vec3, x: Turn, y: Turn, z: Turn) -> (r: Vec3)
    requires
        bounded(v, WORLD_LIMIT as int),
        turn_ok(x),
        turn_ok(y),
        turn_ok(z),
    ensures
        r == rotated(v, x, y, z),
{
    let w = WORLD_LIMIT;
    let a = rotate_about(v, 2, z, w);
    let b = rotate_about(a, 1, y, 2 * w);
    rotate_about(b, 0, x, 4 * w)
}

impl Triangle {
    /// Rotates every vertex about `z`, then `y`, then `x`, by the given turns.
    pub fn rotate(&mut self, x: Turn, y: Turn, z: Turn)
        requires
            in_world(*old(self)),
            turn_ok(x),
            turn_ok(y),
            turn_ok(z),
        ensures
            *final(self) == tri(
                rotated(old(self).a, x, y, z),
                rotated(old(self).b, x, y, z),
                rotated(old(self).c, x, y, z),
                old(self).col,
            ),
    {
        self.a = rotate_point(self.a, x, y, z);
        self.b = rotate_point(self.b, x, y, z);
        self.c = rotate_point(self.c, x, y, z);
    }
}

} // verus!
