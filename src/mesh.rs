//! Meshes: ordered collections of triangles.

use vstd::prelude::*;
use crate::geometry::{Vec3, ONE};
use crate::triangle::{Triangle, tri, white};

verus! {

/// An ordered collection of triangles.
pub struct Mesh {
    pub triangles: Vec<Triangle>,
}

pub open spec fn corner(x: int, y: int, z: int) -> Vec3 {
    Vec3 { x: (x * ONE) as i64, y: (y * ONE) as i64, z: (z * ONE) as i64 }
}

pub open spec fn face(a: (int, int, int), b: (int, int, int), c: (int, int, int)) -> Triangle {
    tri(corner(a.0, a.1, a.2), corner(b.0, b.1, b.2), corner(c.0, c.1, c.2), white())
}

/// The twelve triangles of the cube `[0, 1]^3`, two per face, wound so that
/// their normals point outward.
pub open spec fn unit_cube_faces() -> Seq<Triangle> {
    seq![
        face((0, 0, 0), (0, 1, 0), (1, 1, 0)),
        face((0, 0, 0), (1, 1, 0), (1, 0, 0)),
        face((1, 0, 0), (1, 1, 0), (1, 1, 1)),
        face((1, 0, 0), (1, 1, 1), (1, 0, 1)),
        face((1, 0, 1), (1, 1, 1), (0, 1, 1)),
        face((1, 0, 1), (0, 1, 1), (0, 0, 1)),
        face((0, 0, 1), (0, 1, 1), (0, 1, 0)),
        face((0, 0, 1), (0, 1, 0), (0, 0, 0)),
        face((0, 1, 0), (0, 1, 1), (1, 1, 1)),
        face((0, 1, 0), (1, 1, 1), (1, 1, 0)),
        face((1, 0, 1), (0, 0, 1), (0, 0, 0)),
        face((1, 0, 1), (0, 0, 0), (1, 0, 0)),
    ]
}

/// The triangle with the given 1-based vertex indices, if all are in range.
pub open spec fn resolve_face(vertices: Seq<Vec3>, f: [usize; 3]) -> Option<Triangle> {
    if forall|k: int| 0 <= k < 3 ==> 1 <= #[trigger] f@[k] <= vertices.len() {
        Some(tri(vertices[f@[0] - 1], vertices[f@[1] - 1], vertices[f@[2] - 1], white()))
    } else {
        None
    }
}

impl Mesh {
    /// The cube `[0, 1]^3` as twelve white triangles.
    pub fn unit_cube() -> (r: Mesh)
        ensures
            r.triangles@ == unit_cube_faces(),
    {
        let o = ONE;
        let triangles = vec![
            // south
            Triangle::from_points(0, 0, 0, 0, o, 0, o, o, 0),
            Triangle::from_points(0, 0, 0, o, o, 0, o, 0, 0),
            // east
            Triangle::from_points(o, 0, 0, o, o, 0, o, o, o),
            Triangle::from_points(o, 0, 0, o, o, o, o, 0, o),
            // north
            Triangle::from_points(o, 0, o, o, o, o, 0, o, o),
            Triangle::from_points(o, 0, o, 0, o, o, 0, 0, o),
            // west
            Triangle::from_points(0, 0, o, 0, o, o, 0, o, 0),
            Triangle::from_points(0, 0, o, 0, o, 0, 0, 0, 0),
            // top
            Triangle::from_points(0, o, 0, 0, o, o, o, o, o),
            Triangle::from_points(0, o, 0, o, o, o, o, o, 0),
            // bottom
            Triangle::from_points(o, 0, o, 0, 0, o, 0, 0, 0),
            Triangle::from_points(o, 0, o, 0, 0, 0, o, 0, 0),
        ];
        assert(triangles@ =~= unit_cube_faces());
        Mesh { triangles }
    }

    /// Builds a mesh from vertex positions and faces given as triples of
    /// 1-based vertex indices; `None` when an index is out of range.
    pub fn from_faces(vertices: &Vec<Vec3>, faces: &Vec<[usize; 3]>) -> (r: Option<Mesh>)
        ensures
            r is Some <==> forall|i: int|
                0 <= i < faces@.len() ==> (#[trigger] resolve_face(vertices@, faces@[i])) is Some,
            r matches Some(m) ==> m.triangles@.len() == faces@.len() && forall|i: int|
                0 <= i < faces@.len() ==> resolve_face(vertices@, faces@[i]) == Some(
                    #[trigger] m.triangles@[i],
                ),
    {
        let mut triangles: Vec<Triangle> = Vec::new();
        let mut i: usize = 0;
        while i < faces.len()
            invariant
                0 <= i <= faces@.len(),
                triangles@.len() == i,
                forall|j: int|
                    0 <= j < i ==> resolve_face(vertices@, faces@[j]) == Some(
                        #[trigger] triangles@[j],
                    ),
            decreases faces@.len() - i,
        {
            let f = faces[i];
            let n = vertices.len();
            if f[0] < 1 || f[0] > n || f[1] < 1 || f[1] > n || f[2] < 1 || f[2] > n {
                proof {
                    let k: int = if f[0] < 1 || f[0] > n { 0 } else if f[1] < 1 || f[1] > n { 1 } else { 2 };
                    assert(!(1 <= f@[k] <= vertices@.len()));
                    assert(resolve_face(vertices@, faces@[i as int]) is None);
                }
                return None;
            }
            let t = Triangle::from_vectors(&vertices[f[0] - 1], &vertices[f[1] - 1], &vertices[f[2] - 1]);
            assert(forall|k: int| 0 <= k < 3 ==> 1 <= #[trigger] f@[k] <= vertices@.len());
            triangles.push(t);
            i = i + 1;
        }
        assert forall|j: int| 0 <= j < faces@.len() implies (#[trigger] resolve_face(
            vertices@,
            faces@[j],
        )) is Some by {
            assert(resolve_face(vertices@, faces@[j]) == Some(triangles@[j]));
        }
        Some(Mesh { triangles })
    }
}

} // verus!
