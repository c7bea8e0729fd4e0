use softraster::camera::{Camera, NEAR_CLIP};
use softraster::frame::{sort_by_depth, ClipPlane};
use softraster::geometry::{isqrt, normalize, Vec3, ONE};
use softraster::mesh::Mesh;
use softraster::triangle::{Triangle, Turn};

fn v(x: i64, y: i64, z: i64) -> Vec3 {
    Vec3 { x, y, z }
}

fn camera() -> Camera {
    Camera::new(800, 800, NEAR_CLIP, 1000 * ONE, ONE, ONE).unwrap()
}

fn distance(p: &Vec3, normal: &Vec3, point: &Vec3) -> i64 {
    normal.x * (p.x - point.x) + normal.y * (p.y - point.y) + normal.z * (p.z - point.z)
}

fn vertices(t: &Triangle) -> [Vec3; 3] {
    [t.a, t.b, t.c]
}

#[test]
fn clip_all_inside_returns_triangle_unchanged() {
    let cam = camera();
    let mut t = Triangle::from_points(0, 1, 0, 5, 2, 0, 3, 7, 1);
    t.col = [1, 2, 3];
    let r = cam.clip_triangle(&v(0, 0, 0), &v(0, 1, 0), t);
    assert_eq!(r.len(), 1);
    assert_eq!(vertices(&r[0]), vertices(&t));
    assert_eq!(r[0].col, [1, 2, 3]);
}

#[test]
fn clip_boundary_vertex_counts_as_inside() {
    let cam = camera();
    let t = Triangle::from_points(0, 0, 0, 5, 2, 0, 3, 7, 1);
    let r = cam.clip_triangle(&v(0, 0, 0), &v(0, 1, 0), t);
    assert_eq!(r.len(), 1);
    assert_eq!(vertices(&r[0]), vertices(&t));
}

#[test]
fn clip_all_outside_returns_nothing() {
    let cam = camera();
    let t = Triangle::from_points(0, -1, 0, 5, -2, 0, 3, -7, 1);
    let r = cam.clip_triangle(&v(0, 0, 0), &v(0, 1, 0), t);
    assert!(r.is_empty());
}

#[test]
fn clip_one_inside_gives_one_triangle() {
    let cam = camera();
    let mut t = Triangle::from_points(0, 10, 0, -10, -10, 0, 10, -10, 0);
    t.col = [9, 9, 9];
    let r = cam.clip_triangle(&v(0, 0, 0), &v(0, 1, 0), t);
    assert_eq!(r.len(), 1);
    assert_eq!(vertices(&r[0]), [v(0, 10, 0), v(-5, 0, 0), v(5, 0, 0)]);
    assert_eq!(r[0].col, [9, 9, 9]);
}

#[test]
fn clip_two_inside_gives_two_triangles() {
    let cam = camera();
    let mut t = Triangle::from_points(-10, 10, 0, 10, 10, 0, 0, -10, 0);
    t.col = [4, 5, 6];
    let r = cam.clip_triangle(&v(0, 0, 0), &v(0, 1, 0), t);
    assert_eq!(r.len(), 2);
    assert_eq!(vertices(&r[0]), [v(-10, 10, 0), v(10, 10, 0), v(-5, 0, 0)]);
    assert_eq!(vertices(&r[1]), [v(10, 10, 0), v(-5, 0, 0), v(5, 0, 0)]);
    assert_eq!(r[1].col, [4, 5, 6]);
    // the two pieces cover the quadrilateral (-10,10) (10,10) (5,0) (-5,0)
    let area = |a: Vec3, b: Vec3, c: Vec3| ((b.x - a.x) * (c.y - a.y) - (c.x - a.x) * (b.y - a.y)).abs();
    let quad = 2 * (20 + 10) * 10 / 2;
    assert_eq!(area(r[0].a, r[0].b, r[0].c) + area(r[1].a, r[1].b, r[1].c), quad);
}

#[test]
fn clip_rounding_never_leaves_a_vertex_outside_an_axis_plane() {
    let cam = camera();
    let normals = [v(0, 1, 0), v(0, -1, 0), v(1, 0, 0), v(-1, 0, 0), v(0, 0, -1)];
    let t = Triangle::from_points(7, 3, -5, -11, -9, 4, 13, -2, 17);
    for n in normals.iter() {
        let point = v(1, 1, 1);
        let before: usize = vertices(&t).iter().filter(|p| distance(p, n, &point) >= 0).count();
        let r = cam.clip_triangle(&point, n, t);
        let expected = match before {
            0 => 0,
            1 => 1,
            2 => 2,
            _ => 1,
        };
        assert_eq!(r.len(), expected);
        for piece in r.iter() {
            for p in vertices(piece).iter() {
                assert!(distance(p, n, &point) >= 0);
            }
        }
    }
}

#[test]
fn clip_slanted_plane_stays_within_slack() {
    let cam = camera();
    let n = v(3, -2, 5);
    let point = v(2, 1, -1);
    let t = Triangle::from_points(40, 3, 9, -17, 22, -30, 5, -8, 1);
    let r = cam.clip_triangle(&point, &n, t);
    assert!(!r.is_empty());
    for piece in r.iter() {
        for p in vertices(piece).iter() {
            assert!(distance(p, &n, &point) > -10);
        }
    }
}

#[test]
fn near_plane_vertex_projects_the_same_with_or_without_clipping() {
    let mut cam2 = camera();
    cam2.position = v(0, 0, 0);
    // (0, 0, 0.1) lies on the near plane; the first triangle is not cut, the
    // second is (its other vertices lie behind the camera)
    let on_plane = v(0, 0, NEAR_CLIP);
    let whole = Triangle::from_vectors(&on_plane, &v(ONE, 0, 5 * ONE), &v(0, ONE, 5 * ONE));
    let cut = Triangle::from_vectors(&on_plane, &v(ONE, 0, -5 * ONE), &v(0, ONE, -5 * ONE));
    let a = cam2.project_triangle(&whole);
    let b = cam2.project_triangle(&cut);
    assert_eq!(a.len(), 1);
    assert_eq!(b.len(), 1);
    assert_eq!(a[0].a, b[0].a);
}

fn centered_cube() -> Vec<Triangle> {
    let h = ONE / 2;
    Mesh::unit_cube()
        .triangles
        .into_iter()
        .map(|mut t| {
            t.translate(-h, -h, -h);
            t
        })
        .collect()
}

#[test]
fn backface_cull_on_axis_view_of_cube() {
    let cam = camera();
    assert_eq!(cam.position, v(0, 0, -10 * ONE));
    let visible = centered_cube().iter().filter(|t| cam.is_triangle_visible(t)).count();
    // looking straight at the south face, only its two triangles face the camera
    assert_eq!(visible, 2);
}

#[test]
fn backface_cull_from_a_corner_sees_three_faces() {
    let mut cam = camera();
    cam.position = v(-10 * ONE, -10 * ONE, -10 * ONE);
    let visible = centered_cube().iter().filter(|t| cam.is_triangle_visible(t)).count();
    assert_eq!(visible, 6);
}

#[test]
fn sort_orders_by_centroid_depth() {
    let at = |z: i64| Triangle::from_points(0, 0, z, 1, 0, z, 0, 1, z);
    let tris = vec![at(5 * ONE), at(ONE), at(3 * ONE)];
    let sorted = sort_by_depth(tris, 0);
    let depths: Vec<i64> = sorted.iter().map(|t| t.mid().z).collect();
    assert_eq!(depths, vec![ONE, 3 * ONE, 5 * ONE]);
}

#[test]
fn sort_is_relative_to_camera_and_keeps_ties() {
    let mut a = Triangle::from_points(0, 0, 2, 0, 0, 2, 0, 0, 2);
    a.col = [1, 1, 1];
    let mut b = a;
    b.col = [2, 2, 2];
    let c = Triangle::from_points(0, 0, -4, 0, 0, -4, 0, 0, -4);
    let sorted = sort_by_depth(vec![a, c, b], -10);
    assert_eq!(sorted[0].a.z, -4);
    assert_eq!(sorted[1].col, [1, 1, 1]);
    assert_eq!(sorted[2].col, [2, 2, 2]);
}

#[test]
fn end_to_end_projection_lands_inside_window() {
    let mut cam = camera();
    cam.position = v(0, 0, 0);
    let t = Triangle::from_points(0, 0, 5 * ONE, ONE, 0, 5 * ONE, 0, ONE, 5 * ONE);
    let r = cam.project_triangle(&t);
    assert_eq!(r.len(), 1);
    for p in vertices(&r[0]).iter() {
        assert!(p.x >= 0 && p.x <= 800 * ONE);
        assert!(p.y >= 0 && p.y <= 800 * ONE);
    }
    assert_eq!((r[0].a.x, r[0].a.y), (400 * ONE, 400 * ONE));
    assert_eq!((r[0].b.x, r[0].b.y), (31457600, 400 * ONE));
    assert_eq!((r[0].c.x, r[0].c.y), (400 * ONE, 20971600));
    assert_eq!(r[0].col, [255, 255, 255]);
}

#[test]
fn triangle_behind_camera_is_dropped() {
    let mut cam = camera();
    cam.position = v(0, 0, 0);
    let t = Triangle::from_points(0, 0, -5 * ONE, ONE, 0, -5 * ONE, 0, ONE, -5 * ONE);
    assert!(cam.project_triangle(&t).is_empty());
}

#[test]
fn camera_rejects_bad_parameters() {
    assert!(Camera::new(800, 800, ONE, ONE, ONE, ONE).is_none());
    assert!(Camera::new(0, 800, NEAR_CLIP, 1000 * ONE, ONE, ONE).is_none());
    assert!(Camera::new(800, 800, NEAR_CLIP, 1000 * ONE, 1 << 30, ONE).is_none());
}

#[test]
fn camera_projection_entries() {
    let cam = camera();
    let p = cam.projection_matrix;
    assert_eq!(p.x_scale, ONE);
    assert_eq!(p.y_scale, ONE);
    assert_eq!(p.z_scale, 65542);
    assert_eq!(p.z_offset, -6555);
}

#[test]
fn camera_moves() {
    let mut cam = camera();
    cam.move_forward(ONE);
    assert_eq!(cam.position, v(0, 0, -9 * ONE));
    cam.move_up(2 * ONE);
    assert_eq!(cam.position, v(0, 2 * ONE, -9 * ONE));
    cam.move_left(ONE);
    assert_eq!(cam.position, v(-ONE, 2 * ONE, -9 * ONE));
    cam.move_forward(5000 * ONE);
    assert_eq!(cam.position, v(-ONE, 2 * ONE, 4991 * ONE));
    cam.move_up(-100_000 * ONE);
    assert_eq!(cam.position, v(-ONE, -99_998 * ONE, 4991 * ONE));
}

#[test]
fn camera_turns() {
    let mut cam = camera();
    cam.move_looking_at(0, ONE, 0);
    assert_eq!(cam.looking_at, v(0, 0, ONE));
    cam.move_looking_at(0, 0, ONE);
    assert_eq!(cam.looking_at, v(ONE, 0, 0));
    cam.move_looking_at(-ONE, ONE, 0);
    assert_eq!(cam.looking_at, v(46340, 46340, 0));
}

#[test]
fn integer_square_root() {
    assert_eq!(isqrt(0), 0);
    assert_eq!(isqrt(15), 3);
    assert_eq!(isqrt(16), 4);
    assert_eq!(isqrt(u128::MAX), u64::MAX as u128);
}

#[test]
fn normalize_scales_to_one() {
    assert_eq!(normalize(v(3, 4, 0)), v(39321, 52428, 0));
    assert_eq!(normalize(v(0, 0, 0)), v(0, 0, 0));
    assert_eq!(normalize(v(0, 0, -7)), v(0, 0, -ONE));
}

#[test]
fn triangle_accessors() {
    let mut t = Triangle::from_vercices([0, 0, 0], [3, 0, 0], [0, 3, 3]);
    assert_eq!(t.point3(1), v(3, 0, 0));
    assert_eq!(t.mid(), v(1, 1, 1));
    assert_eq!(t.col, [255, 255, 255]);
    t.translate(1, 2, 3);
    assert_eq!(t.point3(2), v(1, 5, 6));
    let n = Triangle::new([v(0, 0, 0), v(0, ONE, 0), v(ONE, ONE, 0)]).normal();
    assert_eq!(n, v(0, 0, -ONE));
}

#[test]
fn mesh_from_faces_resolves_one_based_indices() {
    let pts = vec![v(0, 0, 0), v(1, 0, 0), v(0, 1, 0)];
    let m = Mesh::from_faces(&pts, &vec![[1, 2, 3], [3, 2, 1]]).unwrap();
    assert_eq!(m.triangles.len(), 2);
    assert_eq!(m.triangles[1].a, v(0, 1, 0));
    assert!(Mesh::from_faces(&pts, &vec![[1, 2, 4]]).is_none());
    assert!(Mesh::from_faces(&pts, &vec![[0, 1, 2]]).is_none());
}

#[test]
fn frame_of_cube_is_shaded_clipped_and_sorted() {
    let cam = camera();
    let cube = Mesh::unit_cube();
    let frame = cam.render_frame(&cube.triangles);
    assert_eq!(frame.len(), 2);
    for t in frame.iter() {
        assert_eq!(t.col, [180, 180, 180]);
        for p in vertices(t).iter() {
            assert!(p.x >= 0 && p.x <= 799 * ONE && p.y >= 0 && p.y <= 799 * ONE);
        }
    }
    let key = |t: &Triangle| t.a.z + t.b.z + t.c.z;
    assert!(key(&frame[0]) <= key(&frame[1]));
}

#[test]
fn screen_clip_cuts_at_window_edges() {
    let cam = camera();
    let t = Triangle::from_points(-100 * ONE, 10 * ONE, 0, 100 * ONE, 10 * ONE, 0, 0, 20 * ONE, 0);
    let r = cam.clip_to_screen(vec![t]);
    assert!(!r.is_empty());
    for piece in r.iter() {
        for p in vertices(piece).iter() {
            assert!(p.x >= 0 && p.x <= 799 * ONE);
        }
    }
    let whole = Triangle::from_points(ONE, ONE, 0, 2 * ONE, ONE, 0, ONE, 2 * ONE, 0);
    let kept = cam.finish_frame(vec![whole]);
    assert_eq!(kept.len(), 1);
    assert_eq!(vertices(&kept[0]), vertices(&whole));
}

#[test]
fn triangle_rotates_about_each_axis() {
    let quarter = Turn { cos: 0, sin: ONE };
    let none = Turn { cos: ONE, sin: 0 };
    let mut t = Triangle::from_vectors(&v(ONE, 0, 0), &v(0, ONE, 0), &v(0, 0, ONE));
    t.col = [7, 7, 7];
    t.rotate(none, none, quarter);
    assert_eq!(vertices(&t), [v(0, ONE, 0), v(-ONE, 0, 0), v(0, 0, ONE)]);
    t.rotate(quarter, none, none);
    assert_eq!(vertices(&t), [v(0, 0, ONE), v(-ONE, 0, 0), v(0, -ONE, 0)]);
    t.rotate(none, quarter, none);
    assert_eq!(vertices(&t), [v(ONE, 0, 0), v(0, 0, ONE), v(0, -ONE, 0)]);
    assert_eq!(t.col, [7, 7, 7]);
}

#[test]
fn named_clip_planes() {
    let cam = camera();
    assert_eq!(cam.plane(ClipPlane::Near), (v(0, 0, -NEAR_CLIP), v(0, 0, -1)));
    assert_eq!(cam.plane(ClipPlane::ScreenTop), (v(0, 0, 0), v(0, 1, 0)));
    assert_eq!(cam.plane(ClipPlane::ScreenBottom), (v(0, 799 * ONE, 0), v(0, -1, 0)));
    assert_eq!(cam.plane(ClipPlane::ScreenLeft), (v(0, 0, 0), v(1, 0, 0)));
    assert_eq!(cam.plane(ClipPlane::ScreenRight), (v(799 * ONE, 0, 0), v(-1, 0, 0)));
}

fn norm_sq(r: Vec3) -> i128 {
    let (x, y, z) = (r.x as i128, r.y as i128, r.z as i128);
    x * x + y * y + z * z
}

#[test]
fn normalize_short_and_long_vectors_to_unit_length() {
    let one_sq = (ONE as i128) * (ONE as i128);
    for w in [v(1, 1, 0), v(1, 2, 3), v(-5, 0, 1), v(ONE, ONE, 0), v(i64::MAX, -3, i64::MIN + 1)] {
        let r = normalize(w);
        assert!(norm_sq(r) <= one_sq && norm_sq(r) >= one_sq - 8 * ONE as i128);
        assert!(r.x.signum() == w.x.signum() || r.x == 0);
        assert!(r.y.signum() == w.y.signum() || r.y == 0);
    }
    assert_eq!(normalize(v(1, 1, 0)), v(46340, 46340, 0));
}

#[test]
fn normal_of_a_small_triangle_has_unit_length() {
    let t = Triangle::new([v(0, 0, 0), v(0, 0, -1), v(-1, 1, 0)]);
    assert_eq!(t.normal(), v(46340, 46340, 0));
    let big = Triangle::new([v(0, 0, 0), v(0, 1 << 33, 0), v(1 << 33, 1 << 33, 0)]);
    assert_eq!(big.normal(), v(0, 0, -ONE));
}

#[test]
fn turned_direction_is_renormalized() {
    let mut cam = camera();
    cam.looking_at = v(1, ONE, 0);
    cam.move_looking_at(ONE - 1, ONE, 0);
    assert_eq!(cam.looking_at, v(46340, 46340, 0));
}

#[test]
fn camera_accepts_far_plane_of_ten_thousand_units() {
    let cam = Camera::new(800, 800, NEAR_CLIP, 10_000 * ONE, ONE, ONE).unwrap();
    assert_eq!(cam.position, v(0, 0, -10 * ONE));
    assert_eq!(cam.looking_at, v(0, 0, ONE));
    assert_eq!(cam.projection_matrix.z_scale, 65536);
}

#[test]
fn distant_triangle_is_rendered() {
    let mut cam = camera();
    cam.position = v(0, 0, 0);
    let z = 5000 * ONE;
    let t = Triangle::from_points(0, 0, z, 100 * ONE, 0, z, 0, 100 * ONE, z);
    let pieces = cam.render_triangle(&Triangle::from_vectors(&t.a, &t.c, &t.b));
    assert_eq!(pieces.len(), 1);
}
