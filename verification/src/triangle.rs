use vstd::prelude::*;

verus! {

/// A triangular face of a mesh: the 1-based positions of its three corners
/// in the mesh's vertex list (`a`, `b`, `c`), of their texture coordinates in
/// the mesh's texel list (`a_uv`, `b_uv`, `c_uv`), and its packed color.
#[derive(Clone, Default)]
pub struct Face {
    pub a: usize,
    pub b: usize,
    pub c: usize,
    pub a_uv: usize,
    pub b_uv: usize,
    pub c_uv: usize,
    pub color: u32,
}

} // verus!
