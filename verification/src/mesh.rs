use vstd::prelude::*;
use crate::point::{Point, COORD_LIMIT};

verus! {

/// A Delaunay triangulation of integer positions, kept by the `spade`
/// crate. Vertices are numbered in the order in which they were added.
#[verifier::external_body]
pub struct Triangulation {
    inner: spade::delaunay::DelaunayTriangulation<
        [i64; 2],
        spade::kernels::AdaptiveIntKernel,
        spade::delaunay::DelaunayWalkLocate,
    >,
}

/// The positions of the vertices of a triangulation, by vertex number.
pub uninterp spec fn vertex_positions(t: Triangulation) -> Seq<(int, int)>;

/// The triangles of a triangulation in the order in which it lists them,
/// each as the numbers of its three vertices.
pub uninterp spec fn triangle_corners(t: Triangulation) -> Seq<(usize, usize, usize)>;

/// Whether a coordinate is small enough for the triangulation's arithmetic.
pub open spec fn coordinate_in_limit(v: int) -> bool {
    -COORD_LIMIT <= v <= COORD_LIMIT
}

/// Whether every vertex of the triangulation lies within the limit.
pub open spec fn positions_in_limit(t: Triangulation) -> bool {
    forall|i: int|
        0 <= i < vertex_positions(t).len() ==> coordinate_in_limit(
            (#[trigger] vertex_positions(t)[i]).0,
        ) && coordinate_in_limit(vertex_positions(t)[i].1)
}

/// `DelaunayTriangulation::new` of spade: a triangulation without vertices
/// and without triangles.
#[verifier::external_body]
fn triangulation_new() -> (t: Triangulation)
    ensures
        vertex_positions(t).len() == 0,
        triangle_corners(t).len() == 0,
{
    Triangulation { inner: spade::delaunay::DelaunayTriangulation::new() }
}

/// `DelaunayTriangulation::insert` of spade. A position that the
/// triangulation does not hold yet becomes a new vertex with the next
/// number; what triangles there are afterwards is left open. For a
/// position that it holds, the number of that vertex is returned, and
/// positions and triangles stay as they are. The limit on the coordinates
/// keeps the squared distances that spade computes in 64 bits.
#[verifier::external_body]
fn triangulation_insert(t: &mut Triangulation, x: i64, y: i64) -> (handle: usize)
    requires
        coordinate_in_limit(x as int),
        coordinate_in_limit(y as int),
        positions_in_limit(*old(t)),
    ensures
        vertex_positions(*old(t)).contains((x as int, y as int)) ==> {
            &&& handle < vertex_positions(*old(t)).len()
            &&& vertex_positions(*old(t))[handle as int] == (x as int, y as int)
            &&& vertex_positions(*final(t)) == vertex_positions(*old(t))
            &&& triangle_corners(*final(t)) == triangle_corners(*old(t))
        },
        !vertex_positions(*old(t)).contains((x as int, y as int)) ==> {
            &&& handle == vertex_positions(*old(t)).len()
            &&& vertex_positions(*final(t)) == vertex_positions(*old(t)).push((x as int, y as int))
        },
{
    t.inner.insert([x, y])
}

/// `DelaunayTriangulation::triangles` of spade, each face through
/// `FaceHandle::as_triangle` and `VertexHandle::fix`: the vertex numbers of
/// every triangle, in spade's order. Each number names a vertex.
#[verifier::external_body]
fn triangulation_faces(t: &Triangulation) -> (faces: Vec<(usize, usize, usize)>)
    ensures
        faces@ == triangle_corners(*t),
        forall|k: int|
            0 <= k < faces@.len() ==> {
                &&& (#[trigger] faces@[k]).0 < vertex_positions(*t).len()
                &&& faces@[k].1 < vertex_positions(*t).len()
                &&& faces@[k].2 < vertex_positions(*t).len()
            },
{
    t.inner.triangles().map(
        |face| {
            let corners = face.as_triangle();
            (corners[0].fix(), corners[1].fix(), corners[2].fix())
        },
    ).collect()
}

/// A triangular mesh over coloured points. No two points share a position,
/// and a point that is in the mesh stays in it as it is: the mesh only
/// grows.
pub struct Mesh {
    triangulation: Triangulation,
    points: Vec<Point>,
}

/// Whether two points stand at the same position, whatever their colours.
pub open spec fn same_position(p: Point, q: Point) -> bool {
    p.x == q.x && p.y == q.y
}

/// Whether some point of `points` stands where `p` stands.
pub open spec fn occupied(points: Seq<Point>, p: Point) -> bool {
    exists|i: int| 0 <= i < points.len() && same_position(#[trigger] points[i], p)
}

/// Whether all points lie within the coordinate limit and no two of them
/// share a position.
pub open spec fn tidy(points: Seq<Point>) -> bool {
    &&& forall|i: int| 0 <= i < points.len() ==> (#[trigger] points[i]).within_limit()
    &&& forall|i: int, j: int|
        0 <= i < j < points.len() ==> !same_position(#[trigger] points[i], #[trigger] points[j])
}

/// The triangles that `faces` names among `points`.
pub open spec fn corner_points(points: Seq<Point>, faces: Seq<(usize, usize, usize)>) -> Seq<
    [Point; 3],
> {
    Seq::new(
        faces.len(),
        |k: int| [points[faces[k].0 as int], points[faces[k].1 as int], points[faces[k].2 as int]],
    )
}

/// Whether every corner of every triangle is one of `points`.
pub open spec fn corners_among(points: Seq<Point>, triangles: Seq<[Point; 3]>) -> bool {
    forall|k: int|
        0 <= k < triangles.len() ==> {
            &&& points.contains((#[trigger] triangles[k])[0])
            &&& points.contains(triangles[k][1])
            &&& points.contains(triangles[k][2])
        }
}

/// The points of a mesh after `p` was put into it: `p` comes last, unless
/// a point stands at its position already. Then that point stays, with its
/// own colour, and `p` is not taken.
pub open spec fn with_point(points: Seq<Point>, p: Point) -> Seq<Point> {
    if occupied(points, p) {
        points
    } else {
        points.push(p)
    }
}

impl Mesh {
    /// The points of the mesh, in the order in which their positions came.
    pub closed spec fn points(&self) -> Seq<Point> {
        self.points@
    }

    /// The triangles of the mesh in the order in which it lists them, each
    /// as the numbers of its three points.
    pub closed spec fn faces(&self) -> Seq<(usize, usize, usize)> {
        triangle_corners(self.triangulation)
    }

    /// The triangles of the mesh, each with the points at its corners.
    pub open spec fn triangles_view(&self) -> Seq<[Point; 3]> {
        corner_points(self.points(), self.faces())
    }

    /// The mesh keeps the triangulation and its own points in step: the
    /// n-th point stands at the n-th position of the triangulation.
    pub closed spec fn wf(&self) -> bool {
        &&& self.points@.len() == vertex_positions(self.triangulation).len()
        &&& forall|i: int|
            0 <= i < self.points@.len() ==> (#[trigger] vertex_positions(self.triangulation)[i])
                == (self.points@[i].x as int, self.points@[i].y as int)
        &&& tidy(self.points@)
    }

    /// The points of a well-formed mesh are tidy.
    pub proof fn lemma_points_tidy(&self)
        requires
            self.wf(),
        ensures
            tidy(self.points()),
    {
    }

    /// A mesh without points and without triangles.
    pub fn new() -> (mesh: Mesh)
        ensures
            mesh.wf(),
            mesh.points() == Seq::<Point>::empty(),
            mesh.faces() == Seq::<(usize, usize, usize)>::empty(),
    {
        let mesh = Mesh { triangulation: triangulation_new(), points: Vec::new() };
        assert(mesh.points@ =~= Seq::<Point>::empty());
        assert(mesh.faces() =~= Seq::<(usize, usize, usize)>::empty());
        mesh
    }

    /// Number of points in the mesh.
    pub fn num_vertices(&self) -> (n: usize)
        ensures
            n == self.points().len(),
    {
        self.points.len()
    }

    /// The points of the mesh.
    pub fn vertices(&self) -> (points: &Vec<Point>)
        ensures
            points@ == self.points(),
    {
        &self.points
    }

    /// Puts `p` into the mesh as a new point. Where a point stands at the
    /// position of `p` already, the mesh stays as it is, points and
    /// triangles: a point of the mesh keeps its colour.
    pub fn insert(&mut self, p: Point)
        requires
            old(self).wf(),
            p.within_limit(),
        ensures
            final(self).wf(),
            final(self).points() == with_point(old(self).points(), p),
            occupied(old(self).points(), p) ==> final(self).faces() == old(self).faces(),
    {
        let ghost before = self.points@;
        let ghost places = vertex_positions(self.triangulation);
        proof {
            assert forall|i: int| 0 <= i < places.len() implies coordinate_in_limit(
                (#[trigger] places[i]).0,
            ) && coordinate_in_limit(places[i].1) by {
                assert(before[i].within_limit());
            }
            if occupied(before, p) {
                let i = choose|i: int| 0 <= i < before.len() && same_position(#[trigger] before[i], p);
                assert(places[i] == (p.x as int, p.y as int));
            }
            if places.contains((p.x as int, p.y as int)) {
                let i = choose|i: int| 0 <= i < places.len() && places[i] == (p.x as int, p.y as int);
                assert(same_position(before[i], p));
            }
        }
        let handle: usize = triangulation_insert(&mut self.triangulation, p.x as i64, p.y as i64);
        if handle == self.points.len() {
            self.points.push(p);
        }
    }

    /// Lists the triangles of the mesh, each with the points at its
    /// corners.
    pub fn triangles(&self) -> (triangles: Vec<[Point; 3]>)
        requires
            self.wf(),
        ensures
            triangles@ == self.triangles_view(),
            corners_among(self.points(), triangles@),
    {
        let faces = triangulation_faces(&self.triangulation);
        let mut triangles: Vec<[Point; 3]> = Vec::new();
        let mut k: usize = 0;
        while k < faces.len()
            invariant
                self.wf(),
                k <= faces@.len(),
                faces@ == triangle_corners(self.triangulation),
                forall|j: int|
                    0 <= j < faces@.len() ==> {
                        &&& (#[trigger] faces@[j]).0 < self.points@.len()
                        &&& faces@[j].1 < self.points@.len()
                        &&& faces@[j].2 < self.points@.len()
                    },
                triangles@ == corner_points(self.points@, faces@.take(k as int)),
                corners_among(self.points@, triangles@),
            decreases faces@.len() - k,
        {
            let face = faces[k];
            triangles.push([self.points[face.0], self.points[face.1], self.points[face.2]]);
            k += 1;
            assert(triangles@ =~= corner_points(self.points@, faces@.take(k as int)));
        }
        assert(faces@.take(k as int) =~= faces@);
        triangles
    }
}

} // verus!
