//! Fixed-point scalars and three-component vectors.

use vstd::prelude::*;
use vstd::arithmetic::div_mod::{lemma_fundamental_div_mod, lemma_mod_bound};

verus! {

/// Number of fixed-point units in one world unit (or one pixel).
pub const ONE: i64 = 65536;

/// Largest magnitude of a world-space coordinate (and of the camera position)
/// that projection takes: 262144 units, the range in which the projected
/// coordinates still fit the clipper.
pub const WORLD_LIMIT: i64 = 0x4_0000_0000;

/// Largest magnitude of a coordinate that the clipper accepts.
pub const COORD_LIMIT: i64 = 0x0400_0000_0000_0000;

/// Largest magnitude of a component of a clipping plane's normal.
pub const NORMAL_LIMIT: i64 = 64;

/// A vector (or point) of three fixed-point coordinates.
#[derive(Clone, Copy, Debug, PartialEq, Eq, Structural)]
pub struct Vec3 {
    pub x: i64,
    pub y: i64,
    pub z: i64,
}

pub open spec fn dot(a: Vec3, b: Vec3) -> int {
    a.x * b.x + a.y * b.y + a.z * b.z
}

pub open spec fn norm_sq(a: Vec3) -> int {
    dot(a, a)
}

/// Every coordinate lies in `[-limit, limit]`.
pub open spec fn bounded(a: Vec3, limit: int) -> bool {
    -limit <= a.x <= limit && -limit <= a.y <= limit && -limit <= a.z <= limit
}

/// Whether every coordinate of `v` lies in `[-limit, limit]`.
pub fn is_bounded(v: &Vec3, limit: i64) -> (r: bool)
    requires
        limit >= 0,
    ensures
        r == bounded(*v, limit as int),
{
    -limit <= v.x && v.x <= limit && -limit <= v.y && v.y <= limit && -limit <= v.z && v.z <= limit
}

/// Floor of the square root of `n`.
pub open spec fn is_isqrt(n: int, r: int) -> bool {
    0 <= r && r * r <= n < (r + 1) * (r + 1)
}

/// Integer square root, rounded down.
pub fn isqrt(n: u128) -> (r: u128)
    ensures
        is_isqrt(n as int, r as int),
{
    // binary search on [lo, hi): lo * lo <= n < hi * hi
    let mut lo: u128 = 0;
    let mut hi: u128 = 0x1_0000_0000_0000_0000;
    assert(n < hi * hi) by (nonlinear_arith)
        requires
            hi == 0x1_0000_0000_0000_0000u128,
            n <= u128::MAX,
    ;
    while hi - lo > 1
        invariant
            lo < hi <= 0x1_0000_0000_0000_0000u128,
            lo * lo <= n < hi * hi,
        decreases hi - lo,
    {
        let mid: u128 = lo + (hi - lo) / 2;
        assert(mid * mid <= 0xffff_ffff_ffff_ffffu128 * 0xffff_ffff_ffff_ffffu128)
            by (nonlinear_arith)
            requires
                mid <= 0xffff_ffff_ffff_ffffu128,
        ;
        if mid * mid <= n {
            lo = mid;
        } else {
            hi = mid;
        }
    }
    assert(hi == lo + 1);
    lo
}

/// The floor of the square root of a non-negative `n`.
pub open spec fn sqrt_floor(n: int) -> int {
    choose|r: int| is_isqrt(n, r)
}

proof fn lemma_isqrt_unique(n: int, r1: int, r2: int)
    requires
        is_isqrt(n, r1),
        is_isqrt(n, r2),
    ensures
        r1 == r2,
{
    if r1 < r2 {
        assert((r1 + 1) * (r1 + 1) <= r2 * r2) by (nonlinear_arith)
            requires
                0 <= r1 < r2,
        ;
    } else if r2 < r1 {
        assert((r2 + 1) * (r2 + 1) <= r1 * r1) by (nonlinear_arith)
            requires
                0 <= r2 < r1,
        ;
    }
}

/// `a / d` rounded toward zero, for `d > 0`.
pub open spec fn trunc_div(a: int, d: int) -> int {
    if a >= 0 { a / d } else { -((-a) / d) }
}

/// The square root of a non-negative `n`, rounded up.
pub open spec fn sqrt_ceil(n: int) -> int {
    let s = sqrt_floor(n);
    if s * s == n { s } else { s + 1 }
}

/// `ONE * ONE`: a unit vector's squared length in fixed point.
pub const ONE_SQ: i128 = 0x1_0000_0000;

/// Largest component magnitude that `unit_scaled` takes directly.
pub const UNIT_INPUT_LIMIT: i128 = 0x8000_0000_0000;

/// Largest component magnitude that `normalize_wide` takes.
pub const WIDE_LIMIT: i128 = 0x80_0000_0000_0000_0000;

/// `(x, y, z)` divided by its length and scaled to `ONE`, each component
/// rounded toward zero. The length is taken as the rounded-up square root of
/// `|v|^2 * ONE^2`, i.e. with sixteen fractional bits. Zero stays zero.
pub open spec fn unit_scaled(x: int, y: int, z: int) -> Vec3 {
    let n = x * x + y * y + z * z;
    if n == 0 {
        Vec3 { x: 0, y: 0, z: 0 }
    } else {
        let len = sqrt_ceil(n * ONE_SQ);
        Vec3 {
            x: trunc_div(x * ONE_SQ, len) as i64,
            y: trunc_div(y * ONE_SQ, len) as i64,
            z: trunc_div(z * ONE_SQ, len) as i64,
        }
    }
}

/// A vector too long for `unit_scaled` is first divided by `2^24` (toward
/// zero), which moves its direction by less than one part in `2^23`.
pub open spec fn normalized_wide(x: int, y: int, z: int) -> Vec3 {
    let l = UNIT_INPUT_LIMIT as int;
    if -l <= x <= l && -l <= y <= l && -l <= z <= l {
        unit_scaled(x, y, z)
    } else {
        unit_scaled(
            trunc_div(x, 0x100_0000),
            trunc_div(y, 0x100_0000),
            trunc_div(z, 0x100_0000),
        )
    }
}

/// `v` scaled to unit length (`ONE`); zero stays zero.
pub open spec fn normalized(v: Vec3) -> Vec3 {
    normalized_wide(v.x as int, v.y as int, v.z as int)
}

/// Unit length up to rounding: `|r|^2` lies in `[ONE^2 - 8 ONE, ONE^2]`, so
/// `|r|` lies in `[ONE - 4, ONE]`.
pub open spec fn is_unit(r: Vec3) -> bool {
    ONE_SQ - 8 * ONE <= norm_sq(r) <= ONE_SQ
}

/// Each component of `r` has the sign of the matching one of `(x, y, z)`.
pub open spec fn same_signs(r: Vec3, x: int, y: int, z: int) -> bool {
    &&& (x > 0 ==> r.x >= 0) && (x < 0 ==> r.x <= 0) && (x == 0 ==> r.x == 0)
    &&& (y > 0 ==> r.y >= 0) && (y < 0 ==> r.y <= 0) && (y == 0 ==> r.y == 0)
    &&& (z > 0 ==> r.z >= 0) && (z < 0 ==> r.z <= 0) && (z == 0 ==> r.z == 0)
}

/// Bounds on one component of a scaled vector: `|r| len <= |a| K` and
/// `r^2 len^2 >= a^2 K^2 - 2 |a| K len`.
proof fn lemma_trunc_component(a: int, k: int, len: int)
    requires
        len >= 1,
        k >= 0,
    ensures
        trunc_div(a * k, len) * trunc_div(a * k, len) * (len * len) <= (a * a) * (k * k),
        trunc_div(a * k, len) * trunc_div(a * k, len) * (len * len) >= (a * a) * (k * k) - 2 * (
        if a < 0 { -a } else { a }) * k * len,
{
    let m = if a < 0 { -a } else { a };
    let mk = m * k;
    assert(mk >= 0) by (nonlinear_arith)
        requires
            mk == m * k,
            m >= 0,
            k >= 0,
    ;
    assert(m * m == a * a) by (nonlinear_arith)
        requires
            m == if a < 0 { -a } else { a },
    ;
    let q = mk / len;
    lemma_fundamental_div_mod(mk, len);
    lemma_mod_bound(mk, len);
    assert(a * k == mk || a * k == -mk) by (nonlinear_arith)
        requires
            m == if a < 0 { -a } else { a },
            mk == m * k,
    ;
    assert(trunc_div(a * k, len) == q || trunc_div(a * k, len) == -q);
    assert(q * q * (len * len) <= (a * a) * (k * k) && q * q * (len * len) >= (a * a) * (k * k)
        - 2 * m * k * len) by (nonlinear_arith)
        requires
            mk == len * q + mk % len,
            0 <= mk % len < len,
            mk == m * k,
            m * m == a * a,
            q >= 0,
            len >= 1,
            m >= 0,
            k >= 0,
    ;
    assert((-q) * (-q) == q * q) by (nonlinear_arith);
}

/// The components that `unit_scaled` returns make a vector of unit length up
/// to rounding.
proof fn lemma_unit_band(x: int, y: int, z: int, len: int)
    requires
        x * x + y * y + z * z >= 1,
        (len - 1) * (len - 1) <= (x * x + y * y + z * z) * ONE_SQ <= len * len,
        len >= 1,
    ensures
        ({
            let (rx, ry, rz) = (
                trunc_div(x * ONE_SQ, len),
                trunc_div(y * ONE_SQ, len),
                trunc_div(z * ONE_SQ, len),
            );
            ONE_SQ - 8 * ONE <= rx * rx + ry * ry + rz * rz <= ONE_SQ
        }),
{
    let k = ONE_SQ as int;
    let n = x * x + y * y + z * z;
    let (rx, ry, rz) = (trunc_div(x * k, len), trunc_div(y * k, len), trunc_div(z * k, len));
    let (ax, ay, az) = (
        if x < 0 { -x } else { x },
        if y < 0 { -y } else { y },
        if z < 0 { -z } else { z },
    );
    lemma_trunc_component(x, k, len);
    lemma_trunc_component(y, k, len);
    lemma_trunc_component(z, k, len);
    let s = rx * rx + ry * ry + rz * rz;
    let l2 = len * len;
    assert(s * l2 == rx * rx * l2 + ry * ry * l2 + rz * rz * l2) by (nonlinear_arith)
        requires
            s == rx * rx + ry * ry + rz * rz,
    ;
    assert(ax * ax == x * x && ay * ay == y * y && az * az == z * z) by (nonlinear_arith)
        requires
            ax == if x < 0 { -x } else { x },
            ay == if y < 0 { -y } else { y },
            az == if z < 0 { -z } else { z },
    ;
    assert(n * (k * k) == (x * x) * (k * k) + (y * y) * (k * k) + (z * z) * (k * k))
        by (nonlinear_arith)
        requires
            n == x * x + y * y + z * z,
    ;
    // upper: s len^2 <= n k^2 <= len^2 k
    assert(n * (k * k) <= l2 * k) by (nonlinear_arith)
        requires
            n * k <= l2,
            k > 0,
    ;
    assert(s <= k) by (nonlinear_arith)
        requires
            s * l2 <= l2 * k,
            l2 >= 1,
    ;
    // lower: each |c| * 2^16 <= len, since c^2 k <= n k <= len^2
    assert(x * x <= n && y * y <= n && z * z <= n) by (nonlinear_arith)
        requires
            n == x * x + y * y + z * z,
    ;
    assert(ax * 65536 <= len && ay * 65536 <= len && az * 65536 <= len) by (nonlinear_arith)
        requires
            ax * ax == x * x,
            ay * ay == y * y,
            az * az == z * z,
            ax >= 0,
            ay >= 0,
            az >= 0,
            x * x <= n,
            y * y <= n,
            z * z <= n,
            n * k <= l2,
            l2 == len * len,
            len >= 1,
            k == 65536 * 65536,
    ;
    assert(2 * ax * k * len + 2 * ay * k * len + 2 * az * k * len <= 6 * 65536 * l2)
        by (nonlinear_arith)
        requires
            ax * 65536 <= len,
            ay * 65536 <= len,
            az * 65536 <= len,
            ax >= 0,
            ay >= 0,
            az >= 0,
            len >= 1,
            k == 65536 * 65536,
            l2 == len * len,
    ;
    assert(n * (k * k) >= k * l2 - 2 * k * len) by (nonlinear_arith)
        requires
            (len - 1) * (len - 1) <= n * k,
            k > 0,
            l2 == len * len,
    ;
    assert(len >= 65536) by (nonlinear_arith)
        requires
            n >= 1,
            n * k <= len * len,
            k == 65536 * 65536,
            len >= 1,
    ;
    assert(2 * k * len <= 2 * 65536 * l2) by (nonlinear_arith)
        requires
            len >= 65536,
            k == 65536 * 65536,
            l2 == len * len,
    ;
    assert(s >= k - 8 * 65536) by (nonlinear_arith)
        requires
            s * l2 >= n * (k * k) - (2 * ax * k * len + 2 * ay * k * len + 2 * az * k * len),
            2 * ax * k * len + 2 * ay * k * len + 2 * az * k * len <= 6 * 65536 * l2,
            n * (k * k) >= k * l2 - 2 * k * len,
            2 * k * len <= 2 * 65536 * l2,
            l2 >= 1,
    ;
}

/// `a / d` rounded toward zero.
fn trunc_div_exec(a: i128, d: i128) -> (q: i128)
    requires
        d > 0,
        a > i128::MIN,
    ensures
        q == trunc_div(a as int, d as int),
{
    if a >= 0 {
        div_floor(a, d)
    } else {
        proof {
            lemma_fundamental_div_mod(-a as int, d as int);
            lemma_mod_bound(-a as int, d as int);
            assert(0 <= (-a as int) / (d as int) <= -a) by (nonlinear_arith)
                requires
                    -a == d * ((-a as int) / (d as int)) + ((-a as int) % (d as int)),
                    0 <= (-a as int) % (d as int) < d,
                    d >= 1,
                    -a > 0,
            ;
        }
        -div_floor(-a, d)
    }
}

fn unit_scaled_exec(x: i128, y: i128, z: i128) -> (r: Vec3)
    requires
        -UNIT_INPUT_LIMIT <= x <= UNIT_INPUT_LIMIT,
        -UNIT_INPUT_LIMIT <= y <= UNIT_INPUT_LIMIT,
        -UNIT_INPUT_LIMIT <= z <= UNIT_INPUT_LIMIT,
    ensures
        r == unit_scaled(x as int, y as int, z as int),
        same_signs(r, x as int, y as int, z as int),
        x * x + y * y + z * z != 0 ==> is_unit(r),
        bounded(r, ONE as int),
{
    let ghost l = UNIT_INPUT_LIMIT as int;
    proof {
        assert(0 <= x * x <= l * l && 0 <= y * y <= l * l && 0 <= z * z <= l * l)
            by (nonlinear_arith)
            requires
                -l <= x <= l,
                -l <= y <= l,
                -l <= z <= l,
        ;
    }
    let n: i128 = x * x + y * y + z * z;
    if n == 0 {
        proof {
            assert(x == 0 && y == 0 && z == 0) by (nonlinear_arith)
                requires
                    x * x + y * y + z * z == 0,
            ;
        }
        return Vec3 { x: 0, y: 0, z: 0 };
    }
    let nk: u128 = n as u128 * ONE_SQ as u128;
    let s = isqrt(nk);
    proof {
        lemma_isqrt_unique(nk as int, s as int, sqrt_floor(nk as int));
        assert(s <= 0x1_0000_0000_0000_0000u128) by (nonlinear_arith)
            requires
                s * s <= nk,
                nk <= u128::MAX,
        ;
    }
    let len: i128 = if s * s == nk {
        s as i128
    } else {
        s as i128 + 1
    };
    proof {
        assert(len == sqrt_ceil(nk as int));
        assert(nk == n * ONE_SQ);
        if s * s == nk {
            assert(len == s);
            assert((s - 1) * (s - 1) <= s * s) by (nonlinear_arith)
                requires
                    s >= 0,
                    s * s >= 1,
            ;
        } else {
            assert(len == s + 1);
        }
        assert((len - 1) * (len - 1) <= n * ONE_SQ <= len * len);
        assert(len >= 1) by (nonlinear_arith)
            requires
                n >= 1,
                n * ONE_SQ <= len * len,
                len >= 0,
        ;
        lemma_unit_band(x as int, y as int, z as int, len as int);
    }
    let k: i128 = ONE_SQ;
    proof {
        assert(-l * ONE_SQ <= x * k <= l * ONE_SQ && -l * ONE_SQ <= y * k <= l * ONE_SQ && -l
            * ONE_SQ <= z * k <= l * ONE_SQ) by (nonlinear_arith)
            requires
                -l <= x <= l,
                -l <= y <= l,
                -l <= z <= l,
                k == ONE_SQ,
                ONE_SQ > 0,
        ;
    }
    let r = Vec3 {
        x: trunc_div_exec(x * k, len) as i64,
        y: trunc_div_exec(y * k, len) as i64,
        z: trunc_div_exec(z * k, len) as i64,
    };
    proof {
        let (rx, ry, rz) = (
            trunc_div(x * ONE_SQ, len as int),
            trunc_div(y * ONE_SQ, len as int),
            trunc_div(z * ONE_SQ, len as int),
        );
        assert(0 <= rx * rx && 0 <= ry * ry && 0 <= rz * rz) by (nonlinear_arith);
        assert(-ONE <= rx <= ONE && -ONE <= ry <= ONE && -ONE <= rz <= ONE) by (nonlinear_arith)
            requires
                rx * rx + ry * ry + rz * rz <= ONE_SQ,
                0 <= rx * rx,
                0 <= ry * ry,
                0 <= rz * rz,
                ONE_SQ == 65536 * 65536,
                ONE == 65536,
        ;
        lemma_trunc_sign(x as int, len as int);
        lemma_trunc_sign(y as int, len as int);
        lemma_trunc_sign(z as int, len as int);
    }
    r
}

proof fn lemma_trunc_sign(a: int, len: int)
    requires
        len >= 1,
    ensures
        a > 0 ==> trunc_div(a * ONE_SQ, len) >= 0,
        a < 0 ==> trunc_div(a * ONE_SQ, len) <= 0,
        a == 0 ==> trunc_div(a * ONE_SQ, len) == 0,
{
    let k = ONE_SQ as int;
    assert(a > 0 ==> a * k > 0) by (nonlinear_arith)
        requires
            k > 0,
    ;
    assert(a < 0 ==> a * k < 0) by (nonlinear_arith)
        requires
            k > 0,
    ;
    if a * k >= 0 {
        lemma_fundamental_div_mod(a * k, len);
        lemma_mod_bound(a * k, len);
        assert((a * k) / len >= 0) by (nonlinear_arith)
            requires
                a * k >= 0,
                a * k == len * ((a * k) / len) + (a * k) % len,
                0 <= (a * k) % len < len,
                len >= 1,
        ;
    } else {
        lemma_fundamental_div_mod(-(a * k), len);
        lemma_mod_bound(-(a * k), len);
        assert((-(a * k)) / len >= 0) by (nonlinear_arith)
            requires
                -(a * k) >= 0,
                -(a * k) == len * ((-(a * k)) / len) + (-(a * k)) % len,
                0 <= (-(a * k)) % len < len,
                len >= 1,
        ;
    }
    if a == 0 {
        assert(a * k == 0);
        assert(0int / len == 0) by (nonlinear_arith)
            requires
                len >= 1,
        ;
    }
}

/// Scales `(x, y, z)` to unit length, as `normalized_wide` says.
pub fn normalize_wide(x: i128, y: i128, z: i128) -> (r: Vec3)
    requires
        -WIDE_LIMIT <= x <= WIDE_LIMIT,
        -WIDE_LIMIT <= y <= WIDE_LIMIT,
        -WIDE_LIMIT <= z <= WIDE_LIMIT,
    ensures
        r == normalized_wide(x as int, y as int, z as int),
        same_signs(r, x as int, y as int, z as int),
        (x != 0 || y != 0 || z != 0) ==> is_unit(r),
        bounded(r, ONE as int),
{
    let l = UNIT_INPUT_LIMIT;
    if -l <= x && x <= l && -l <= y && y <= l && -l <= z && z <= l {
        proof {
            if x != 0 || y != 0 || z != 0 {
                assert(x * x + y * y + z * z != 0) by (nonlinear_arith)
                    requires
                        x != 0 || y != 0 || z != 0,
                ;
            }
        }
        unit_scaled_exec(x, y, z)
    } else {
        let d: i128 = 0x100_0000;
        let (a, b, c) = (trunc_div_exec(x, d), trunc_div_exec(y, d), trunc_div_exec(z, d));
        proof {
            lemma_shrunk(x as int);
            lemma_shrunk(y as int);
            lemma_shrunk(z as int);
            assert(a * a + b * b + c * c != 0) by (nonlinear_arith)
                requires
                    a != 0 || b != 0 || c != 0,
            ;
        }
        unit_scaled_exec(a, b, c)
    }
}

proof fn lemma_shrunk(v: int)
    requires
        -WIDE_LIMIT <= v <= WIDE_LIMIT,
    ensures
        -UNIT_INPUT_LIMIT <= trunc_div(v, 0x100_0000) <= UNIT_INPUT_LIMIT,
        v > 0 ==> trunc_div(v, 0x100_0000) >= 0,
        v < 0 ==> trunc_div(v, 0x100_0000) <= 0,
        v == 0 ==> trunc_div(v, 0x100_0000) == 0,
        (v > UNIT_INPUT_LIMIT || v < -UNIT_INPUT_LIMIT) ==> trunc_div(v, 0x100_0000) != 0,
{
    let m = if v < 0 { -v } else { v };
    lemma_fundamental_div_mod(m, 0x100_0000);
    lemma_mod_bound(m, 0x100_0000);
}

/// Scales `v` to unit length (`ONE`); zero stays zero.
pub fn normalize(v: Vec3) -> (r: Vec3)
    ensures
        r == normalized(v),
        same_signs(r, v.x as int, v.y as int, v.z as int),
        norm_sq(v) != 0 ==> is_unit(r),
        norm_sq(v) == 0 ==> r == v,
        bounded(r, ONE as int),
{
    proof {
        if v.x == 0 && v.y == 0 && v.z == 0 {
            assert(norm_sq(v) == 0);
        } else {
            assert(norm_sq(v) != 0) by (nonlinear_arith)
                requires
                    v.x != 0 || v.y != 0 || v.z != 0,
                    norm_sq(v) == v.x * v.x + v.y * v.y + v.z * v.z,
            ;
        }
    }
    normalize_wide(v.x as i128, v.y as i128, v.z as i128)
}

/// `n / d` rounded down.
pub fn div_floor(n: i128, d: i128) -> (q: i128)
    requires
        d > 0,
    ensures
        q == n as int / d as int,
{
    proof {
        lemma_fundamental_div_mod(n as int, d as int);
        lemma_mod_bound(n as int, d as int);
        assert(i128::MIN <= n as int / d as int <= i128::MAX) by (nonlinear_arith)
            requires
                n == d * (n as int / d as int) + (n as int % d as int),
                0 <= (n as int % d as int) < d,
                d >= 1,
                i128::MIN <= n <= i128::MAX,
        ;
    }
    match n.checked_div_euclid(d) {
        Some(q) => q,
        None => 0,
    }
}

} // verus!
