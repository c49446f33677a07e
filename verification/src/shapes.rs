//! Shapes as vertices joined by edges and triangular faces. The vertex type is
//! left open: the tables below give the corners of the unit cube and unit
//! plane, and a shape is built by mapping each corner to a vertex.
use vstd::prelude::*;

verus! {

/// A corner of a unit shape, each coordinate `0` or `1`.
pub type Corner = (i8, i8, i8);

/// The corners of the unit cube: front top left, front top right, front
/// bottom left, front bottom right, then the same four at the back.
pub open spec fn cube_corner_table() -> Seq<Corner> {
    seq![(0, 1, 0), (1, 1, 0), (0, 0, 0), (1, 0, 0), (0, 1, 1), (1, 1, 1), (0, 0, 1), (1, 0, 1)]
}

/// The twelve edges of the unit cube as pairs of corner indices.
pub open spec fn cube_edge_table() -> Seq<(usize, usize)> {
    seq![(0, 1), (2, 3), (4, 5), (6, 7), (0, 2), (1, 3), (4, 6), (5, 7), (0, 4), (1, 5), (2, 6), (3, 7)]
}

/// The twelve triangular faces of the unit cube, two per side (front, top,
/// right, back, bottom, left), as triples of corner indices.
pub open spec fn cube_face_table() -> Seq<(usize, usize, usize)> {
    seq![
        (0, 1, 2), (3, 2, 1),
        (0, 4, 1), (5, 1, 4),
        (7, 3, 5), (1, 5, 3),
        (5, 4, 7), (6, 7, 4),
        (3, 7, 2), (6, 2, 7),
        (4, 0, 6), (2, 6, 0),
    ]
}

/// The corners of the unit plane, lying at height `0`.
pub open spec fn plane_corner_table() -> Seq<Corner> {
    seq![(0, 0, 0), (0, 0, 1), (1, 0, 0), (1, 0, 1)]
}

/// The edges of the unit plane, its diagonal included.
pub open spec fn plane_edge_table() -> Seq<(usize, usize)> {
    seq![(0, 1), (1, 2), (2, 3), (0, 2), (1, 3)]
}

/// The two triangular faces of the unit plane.
pub open spec fn plane_face_table() -> Seq<(usize, usize, usize)> {
    seq![(0, 1, 2), (3, 2, 1)]
}

/// Every edge and face refers to an existing vertex.
pub open spec fn indices_in_range(n: nat, edges: Seq<(usize, usize)>, faces: Seq<(usize, usize, usize)>) -> bool {
    &&& forall|k: int| 0 <= k < edges.len() ==> (#[trigger] edges[k]).0 < n && edges[k].1 < n
    &&& forall|k: int| 0 <= k < faces.len() ==> (#[trigger] faces[k]).0 < n && faces[k].1 < n && faces[k].2 < n
}

/// A corner's coordinate along `axis` (`0`, `1` or `2`).
pub open spec fn coordinate(p: Corner, axis: int) -> i8 {
    if axis == 0 {
        p.0
    } else if axis == 1 {
        p.1
    } else {
        p.2
    }
}

/// The number of coordinates in which two corners differ: `1` along an
/// edge of the cube, `2` across a side's diagonal.
pub open spec fn corner_distance(p: Corner, q: Corner) -> int {
    (if p.0 != q.0 { 1int } else { 0int }) + (if p.1 != q.1 { 1int } else { 0int }) + (if p.2 != q.2 {
        1int
    } else {
        0int
    })
}

/// Two triangles `f` and `g` tile a square: `f` joins three distinct
/// corners, `g` joins the fourth corner with two corners of `f` that lie
/// across the square's diagonal, so together they use all four corners and
/// meet only along the diagonal.
pub open spec fn tiles_square(corners: Seq<Corner>, f: (usize, usize, usize), g: (usize, usize, usize)) -> bool {
    &&& f.0 != f.1 && f.1 != f.2 && f.0 != f.2
    &&& g.0 != f.0 && g.0 != f.1 && g.0 != f.2
    &&& (g.1 == f.0 || g.1 == f.1 || g.1 == f.2)
    &&& (g.2 == f.0 || g.2 == f.1 || g.2 == f.2)
    &&& g.1 != g.2
    &&& corner_distance(corners[g.1 as int], corners[g.2 as int]) == 2
}

/// The four corners of triangles `f` and `g` all lie in the plane where the
/// coordinate along `axis` is `value`.
pub open spec fn pair_in_plane(
    corners: Seq<Corner>,
    f: (usize, usize, usize),
    g: (usize, usize, usize),
    axis: int,
    value: i8,
) -> bool {
    &&& coordinate(corners[f.0 as int], axis) == value
    &&& coordinate(corners[f.1 as int], axis) == value
    &&& coordinate(corners[f.2 as int], axis) == value
    &&& coordinate(corners[g.0 as int], axis) == value
}

/// Some consecutive pair of `faces` lies in the plane where the coordinate
/// along `axis` is `value`.
pub open spec fn side_covered(corners: Seq<Corner>, faces: Seq<(usize, usize, usize)>, axis: int, value: i8) -> bool {
    exists|s: int|
        0 <= s < faces.len() / 2 && #[trigger] pair_in_plane(corners, faces[2 * s], faces[2 * s + 1], axis, value)
}

/// The faces of the unit cube cover its surface: its corners are the eight
/// distinct points with coordinates `0` or `1`; each consecutive pair of
/// faces tiles a square; and for each of the six sides of the cube (each
/// axis, at `0` and at `1`) some pair lies in that side's plane. Likewise the
/// two faces of the unit plane tile the square at height `0`.
pub proof fn lemma_unit_faces_cover_sides()
    ensures
        forall|i: int, j: int|
            0 <= i < j < 8 ==> #[trigger] cube_corner_table()[i] != #[trigger] cube_corner_table()[j],
        forall|i: int, axis: int|
            0 <= i < 8 && 0 <= axis < 3 ==> 0 <= #[trigger] coordinate(cube_corner_table()[i], axis) <= 1,
        forall|s: int|
            0 <= s < 6 ==> tiles_square(cube_corner_table(), #[trigger] cube_face_table()[2 * s], cube_face_table()[2 * s + 1]),
        forall|axis: int, value: i8|
            0 <= axis < 3 && 0 <= value <= 1 ==> #[trigger] side_covered(cube_corner_table(), cube_face_table(), axis, value),
        tiles_square(plane_corner_table(), plane_face_table()[0], plane_face_table()[1]),
        pair_in_plane(plane_corner_table(), plane_face_table()[0], plane_face_table()[1], 1, 0),
{
    let c = cube_corner_table();
    let f = cube_face_table();
    assert forall|s: int| 0 <= s < 6 implies tiles_square(c, #[trigger] f[2 * s], f[2 * s + 1]) by {
        if s == 0 {
        } else if s == 1 {
        } else if s == 2 {
        } else if s == 3 {
        } else if s == 4 {
        } else {
        }
    }
    assert forall|axis: int, value: i8| 0 <= axis < 3 && 0 <= value <= 1 implies #[trigger] side_covered(c, f, axis, value) by {
        let s: int = if axis == 0 {
            if value == 0 { 5 } else { 2 }
        } else if axis == 1 {
            if value == 0 { 4 } else { 1 }
        } else {
            if value == 0 { 0 } else { 3 }
        };
        assert(pair_in_plane(c, f[2 * s], f[2 * s + 1], axis, value));
    }
    assert forall|i: int, axis: int| 0 <= i < 8 && 0 <= axis < 3 implies 0 <= #[trigger] coordinate(c[i], axis) <= 1 by {
    }
}

/// Every face of the unit cube and of the unit plane joins three distinct
/// corners, and every index of their tables is in range.
pub proof fn lemma_unit_tables_well_formed()
    ensures
        indices_in_range(8, cube_edge_table(), cube_face_table()),
        indices_in_range(4, plane_edge_table(), plane_face_table()),
        forall|k: int| 0 <= k < 12 ==> {
            let f = #[trigger] cube_face_table()[k];
            f.0 != f.1 && f.1 != f.2 && f.0 != f.2
        },
        forall|k: int| 0 <= k < 2 ==> {
            let f = #[trigger] plane_face_table()[k];
            f.0 != f.1 && f.1 != f.2 && f.0 != f.2
        },
{
}

fn cube_corners() -> (r: Vec<Corner>)
    ensures
        r@ == cube_corner_table(),
{
    let r = vec![(0, 1, 0), (1, 1, 0), (0, 0, 0), (1, 0, 0), (0, 1, 1), (1, 1, 1), (0, 0, 1), (1, 0, 1)];
    assert(r@ =~= cube_corner_table());
    r
}

fn cube_edges() -> (r: Vec<(usize, usize)>)
    ensures
        r@ == cube_edge_table(),
{
    let r = vec![(0, 1), (2, 3), (4, 5), (6, 7), (0, 2), (1, 3), (4, 6), (5, 7), (0, 4), (1, 5), (2, 6), (3, 7)];
    assert(r@ =~= cube_edge_table());
    r
}

fn cube_faces() -> (r: Vec<(usize, usize, usize)>)
    ensures
        r@ == cube_face_table(),
{
    let r = vec![
        (0, 1, 2), (3, 2, 1),
        (0, 4, 1), (5, 1, 4),
        (7, 3, 5), (1, 5, 3),
        (5, 4, 7), (6, 7, 4),
        (3, 7, 2), (6, 2, 7),
        (4, 0, 6), (2, 6, 0),
    ];
    assert(r@ =~= cube_face_table());
    r
}

fn plane_corners() -> (r: Vec<Corner>)
    ensures
        r@ == plane_corner_table(),
{
    let r = vec![(0, 0, 0), (0, 0, 1), (1, 0, 0), (1, 0, 1)];
    assert(r@ =~= plane_corner_table());
    r
}

fn plane_edges() -> (r: Vec<(usize, usize)>)
    ensures
        r@ == plane_edge_table(),
{
    let r = vec![(0, 1), (1, 2), (2, 3), (0, 2), (1, 3)];
    assert(r@ =~= plane_edge_table());
    r
}

fn plane_faces() -> (r: Vec<(usize, usize, usize)>)
    ensures
        r@ == plane_face_table(),
{
    let r = vec![(0, 1, 2), (3, 2, 1)];
    assert(r@ =~= plane_face_table());
    r
}

/// Maps every corner through `f`, in order.
fn map_corners<P, F: Fn(Corner) -> P>(corners: &Vec<Corner>, f: &F) -> (r: Vec<P>)
    requires
        forall|c: Corner| call_requires(*f, (c,)),
    ensures
        r@.len() == corners@.len(),
        forall|k: int| 0 <= k < corners@.len() ==> call_ensures(*f, (corners@[k],), #[trigger] r@[k]),
{
    let mut r: Vec<P> = Vec::new();
    let mut i: usize = 0;
    while i < corners.len()
        invariant
            i <= corners@.len(),
            r@.len() == i,
            forall|c: Corner| call_requires(*f, (c,)),
            forall|k: int| 0 <= k < i ==> call_ensures(*f, (corners@[k],), #[trigger] r@[k]),
        decreases corners@.len() - i,
    {
        let v = f(corners[i]);
        r.push(v);
        i = i + 1;
    }
    r
}

/// A copy of `v`.
fn copied<T: Copy>(v: &Vec<T>) -> (r: Vec<T>)
    ensures
        r@ == v@,
{
    let mut r: Vec<T> = Vec::new();
    let mut i: usize = 0;
    while i < v.len()
        invariant
            i <= v@.len(),
            r@ == v@.subrange(0, i as int),
        decreases v@.len() - i,
    {
        r.push(v[i]);
        i = i + 1;
        assert(r@ =~= v@.subrange(0, i as int));
    }
    assert(v@.subrange(0, i as int) =~= v@);
    r
}

/// A shape: its vertices, its edges and its triangular faces, the last two
/// as indices into the vertices.
pub struct Shape<P> {
    vertices: Vec<P>,
    edges: Vec<(usize, usize)>,
    faces: Vec<(usize, usize, usize)>,
}

impl<P> Shape<P> {
    /// The vertices.
    pub closed spec fn spec_vertices(self) -> Seq<P> {
        self.vertices@
    }

    /// The edges, as pairs of vertex indices.
    pub closed spec fn spec_edges(self) -> Seq<(usize, usize)> {
        self.edges@
    }

    /// The faces, as triples of vertex indices.
    pub closed spec fn spec_faces(self) -> Seq<(usize, usize, usize)> {
        self.faces@
    }

    /// Every edge and face refers to an existing vertex.
    pub open spec fn wf(self) -> bool {
        indices_in_range(self.spec_vertices().len(), self.spec_edges(), self.spec_faces())
    }

    #[verifier::type_invariant]
    spec fn inv(self) -> bool {
        indices_in_range(self.vertices@.len(), self.edges@, self.faces@)
    }

    /// A unit plane whose corners are mapped to vertices by `scale`.
    pub fn new_plane<F: Fn(Corner) -> P>(scale: F) -> (r: Shape<P>)
        requires
            forall|c: Corner| call_requires(scale, (c,)),
        ensures
            r.wf(),
            r.spec_vertices().len() == 4,
            forall|k: int| 0 <= k < 4 ==> call_ensures(scale, (plane_corner_table()[k],), #[trigger] r.spec_vertices()[k]),
            r.spec_edges() == plane_edge_table(),
            r.spec_faces() == plane_face_table(),
    {
        let corners = plane_corners();
        let vertices = map_corners(&corners, &scale);
        Shape { vertices, edges: plane_edges(), faces: plane_faces() }
    }

    /// A unit cube whose corners are mapped to vertices by `scale`.
    pub fn new_cube<F: Fn(Corner) -> P>(scale: F) -> (r: Shape<P>)
        requires
            forall|c: Corner| call_requires(scale, (c,)),
        ensures
            r.wf(),
            r.spec_vertices().len() == 8,
            forall|k: int| 0 <= k < 8 ==> call_ensures(scale, (cube_corner_table()[k],), #[trigger] r.spec_vertices()[k]),
            r.spec_edges() == cube_edge_table(),
            r.spec_faces() == cube_face_table(),
    {
        let corners = cube_corners();
        let vertices = map_corners(&corners, &scale);
        Shape { vertices, edges: cube_edges(), faces: cube_faces() }
    }
}

impl<P: Copy> Shape<P> {
    /// The vertices, in order.
    pub fn vertices(&self) -> (r: Vec<P>)
        ensures
            r@ == self.spec_vertices(),
    {
        copied(&self.vertices)
    }

    /// The faces as triangles of vertices, in order.
    pub fn faces(&self) -> (r: Vec<(P, P, P)>)
        ensures
            r@.len() == self.spec_faces().len(),
            forall|k: int| 0 <= k < r@.len() ==> #[trigger] r@[k] == (
                self.spec_vertices()[self.spec_faces()[k].0 as int],
                self.spec_vertices()[self.spec_faces()[k].1 as int],
                self.spec_vertices()[self.spec_faces()[k].2 as int],
            ),
    {
        proof { use_type_invariant(self); }
        let mut r: Vec<(P, P, P)> = Vec::new();
        let mut i: usize = 0;
        while i < self.faces.len()
            invariant
                indices_in_range(self.vertices@.len(), self.edges@, self.faces@),
                i <= self.faces@.len(),
                r@.len() == i,
                forall|k: int| 0 <= k < i ==> #[trigger] r@[k] == (
                    self.vertices@[self.faces@[k].0 as int],
                    self.vertices@[self.faces@[k].1 as int],
                    self.vertices@[self.faces@[k].2 as int],
                ),
            decreases self.faces@.len() - i,
        {
            let (a, b, c) = self.faces[i];
            assert(self.faces@[i as int] == (a, b, c));
            r.push((self.vertices[a], self.vertices[b], self.vertices[c]));
            i = i + 1;
        }
        r
    }

    /// The same shape with every vertex mapped through `f`: edges and faces
    /// are unchanged.
    pub fn map_vertices<F: Fn(P) -> P>(&self, f: F) -> (r: Shape<P>)
        requires
            forall|p: P| call_requires(f, (p,)),
        ensures
            r.wf(),
            r.spec_vertices().len() == self.spec_vertices().len(),
            forall|k: int| 0 <= k < self.spec_vertices().len() ==> call_ensures(f, (self.spec_vertices()[k],), #[trigger] r.spec_vertices()[k]),
            r.spec_edges() == self.spec_edges(),
            r.spec_faces() == self.spec_faces(),
    {
        proof { use_type_invariant(self); }
        let mut vertices: Vec<P> = Vec::new();
        let mut i: usize = 0;
        while i < self.vertices.len()
            invariant
                i <= self.vertices@.len(),
                vertices@.len() == i,
                forall|p: P| call_requires(f, (p,)),
                forall|k: int| 0 <= k < i ==> call_ensures(f, (self.vertices@[k],), #[trigger] vertices@[k]),
            decreases self.vertices@.len() - i,
        {
            let v = f(self.vertices[i]);
            vertices.push(v);
            i = i + 1;
        }
        Shape { vertices, edges: copied(&self.edges), faces: copied(&self.faces) }
    }
}

} // verus!
