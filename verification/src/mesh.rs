use vstd::prelude::*;

use crate::triangle::Face;

verus! {

/// A mesh: its vertex list, its list of texture coordinates, and its faces,
/// which refer to both lists by 1-based position. The vertex and texture
/// coordinate values are of any copyable types `V` and `T`.
pub struct Mesh<V, T> {
    vertices: Vec<V>,
    texel_coordinates: Vec<T>,
    pub faces: Vec<Face>,
}

/// A mesh as the contracts see it.
pub struct MeshView<V, T> {
    pub vertices: Seq<V>,
    pub texel_coordinates: Seq<T>,
    pub faces: Seq<Face>,
}

impl<V, T> View for Mesh<V, T> {
    type V = MeshView<V, T>;

    /// The mesh's three lists.
    closed spec fn view(&self) -> MeshView<V, T> {
        MeshView {
            vertices: self.vertices@,
            texel_coordinates: self.texel_coordinates@,
            faces: self.faces@,
        }
    }
}

/// Whether `position` is a valid 1-based position in a list of `len` items.
pub open spec fn valid_position(position: usize, len: nat) -> bool {
    1 <= position <= len
}

impl<V: Copy, T: Copy> Mesh<V, T> {
    /// A mesh made of the given vertex list, texture coordinate list and faces.
    pub fn from_parts(vertices: Vec<V>, texel_coordinates: Vec<T>, faces: Vec<Face>) -> (mesh: Self)
        ensures
            mesh@.vertices == vertices@,
            mesh@.texel_coordinates == texel_coordinates@,
            mesh@.faces == faces@,
    {
        Self { vertices, texel_coordinates, faces }
    }

    /// The three corners of `face`: the vertices at its 1-based positions
    /// `a`, `b` and `c`, in that order.
    pub fn get_vertices(&self, face: &Face) -> (corners: [V; 3])
        requires
            valid_position(face.a, self@.vertices.len()),
            valid_position(face.b, self@.vertices.len()),
            valid_position(face.c, self@.vertices.len()),
        ensures
            corners@ == seq![
                self@.vertices[face.a - 1],
                self@.vertices[face.b - 1],
                self@.vertices[face.c - 1],
            ],
    {
        let corners = [
            self.vertices[face.a - 1],
            self.vertices[face.b - 1],
            self.vertices[face.c - 1],
        ];
        assert(corners@ =~= seq![
            self@.vertices[face.a - 1],
            self@.vertices[face.b - 1],
            self@.vertices[face.c - 1],
        ]);
        corners
    }

    /// The texture coordinates of the three corners of `face`: the entries at
    /// its 1-based positions `a_uv`, `b_uv` and `c_uv`, in that order.
    pub fn get_texel_coordinates(&self, face: &Face) -> (texels: [T; 3])
        requires
            valid_position(face.a_uv, self@.texel_coordinates.len()),
            valid_position(face.b_uv, self@.texel_coordinates.len()),
            valid_position(face.c_uv, self@.texel_coordinates.len()),
        ensures
            texels@ == seq![
                self@.texel_coordinates[face.a_uv - 1],
                self@.texel_coordinates[face.b_uv - 1],
                self@.texel_coordinates[face.c_uv - 1],
            ],
    {
        let texels = [
            self.texel_coordinates[face.a_uv - 1],
            self.texel_coordinates[face.b_uv - 1],
            self.texel_coordinates[face.c_uv - 1],
        ];
        assert(texels@ =~= seq![
            self@.texel_coordinates[face.a_uv - 1],
            self@.texel_coordinates[face.b_uv - 1],
            self@.texel_coordinates[face.c_uv - 1],
        ]);
        texels
    }
}

/// A white face with the given corner and texture coordinate positions.
pub open spec fn white_face(
    a: usize,
    b: usize,
    c: usize,
    a_uv: usize,
    b_uv: usize,
    c_uv: usize,
) -> Face {
    Face { a, b, c, a_uv, b_uv, c_uv, color: 0xFFFFFFFF }
}

/// The twelve faces of the built-in cube, two per side (front, right, back,
/// left, top, bottom), over its eight corners and four texture coordinates.
pub open spec fn cube_faces() -> Seq<Face> {
    seq![
        white_face(1, 2, 3, 4, 2, 1),
        white_face(1, 3, 4, 4, 1, 3),
        white_face(4, 3, 5, 4, 2, 1),
        white_face(4, 5, 6, 4, 1, 3),
        white_face(6, 5, 7, 4, 2, 1),
        white_face(6, 7, 8, 4, 1, 3),
        white_face(8, 7, 2, 4, 2, 1),
        white_face(8, 2, 1, 4, 1, 3),
        white_face(2, 7, 5, 4, 2, 1),
        white_face(2, 5, 3, 4, 1, 3),
        white_face(6, 8, 1, 4, 2, 1),
        white_face(6, 1, 4, 4, 1, 3),
    ]
}

fn make_white_face(a: usize, b: usize, c: usize, a_uv: usize, b_uv: usize, c_uv: usize) -> (face:
    Face)
    ensures
        face == white_face(a, b, c, a_uv, b_uv, c_uv),
{
    Face { a, b, c, a_uv, b_uv, c_uv, color: 0xFFFFFFFF }
}

/// The faces of the built-in test cube.
pub fn test_mesh_faces() -> (faces: Vec<Face>)
    ensures
        faces@ == cube_faces(),
{
    let mut faces: Vec<Face> = Vec::new();
    // front
    faces.push(make_white_face(1, 2, 3, 4, 2, 1));
    faces.push(make_white_face(1, 3, 4, 4, 1, 3));
    // right
    faces.push(make_white_face(4, 3, 5, 4, 2, 1));
    faces.push(make_white_face(4, 5, 6, 4, 1, 3));
    // back
    faces.push(make_white_face(6, 5, 7, 4, 2, 1));
    faces.push(make_white_face(6, 7, 8, 4, 1, 3));
    // left
    faces.push(make_white_face(8, 7, 2, 4, 2, 1));
    faces.push(make_white_face(8, 2, 1, 4, 1, 3));
    // top
    faces.push(make_white_face(2, 7, 5, 4, 2, 1));
    faces.push(make_white_face(2, 5, 3, 4, 1, 3));
    // bottom
    faces.push(make_white_face(6, 8, 1, 4, 2, 1));
    faces.push(make_white_face(6, 1, 4, 4, 1, 3));
    assert(faces@ =~= cube_faces());
    faces
}

} // verus!
