use vstd::prelude::*;

verus! {

/// The number of triangles in the fan over a convex polygon of `n` corners:
/// `n - 2`, or none when there are fewer than three corners.
pub open spec fn fan_size(n: nat) -> nat {
    if n >= 3 {
        (n - 2) as nat
    } else {
        0
    }
}

/// Splits a convex polygon, given by its corners in order, into the fan of
/// triangles that all share its first corner: triangle `i` is made of corners
/// `0`, `i + 1` and `i + 2`. A polygon with fewer than three corners gives no
/// triangle.
pub fn fan_triangulate<V: Copy>(corners: &Vec<V>) -> (triangles: Vec<(V, V, V)>)
    ensures
        triangles.len() == fan_size(corners.len() as nat),
        corners.len() >= 3 ==> triangles.len() + 2 == corners.len(),
        corners.len() < 3 ==> triangles.len() == 0,
        forall|i: int|
            0 <= i < triangles.len() ==> #[trigger] triangles@[i] == (
                corners@[0],
                corners@[i + 1],
                corners@[i + 2],
            ),
{
    let mut triangles: Vec<(V, V, V)> = Vec::new();
    if corners.len() < 3 {
        return triangles;
    }
    let count = corners.len() - 2;
    let mut index: usize = 0;
    while index < count
        invariant
            count + 2 == corners.len(),
            index <= count,
            triangles.len() == index,
            forall|i: int|
                0 <= i < triangles.len() ==> #[trigger] triangles@[i] == (
                    corners@[0],
                    corners@[i + 1],
                    corners@[i + 2],
                ),
        decreases count - index,
    {
        triangles.push((corners[0], corners[index + 1], corners[index + 2]));
        index += 1;
    }
    triangles
}

/// A fan over a polygon of at least three corners closes the polygon: its
/// first triangle starts the fan at corners 0, 1, 2, its last one is corners 0,
/// n - 2, n - 1, and every edge from corner `k` to corner `k + 1` (for `1 <= k
/// < n - 1`) is an edge of triangle `k - 1`. Any list of triangles built as
/// `fan_triangulate` promises has this shape.
pub proof fn lemma_fan_closes_polygon<V>(corners: Seq<V>, triangles: Seq<(V, V, V)>)
    requires
        corners.len() >= 3,
        triangles.len() + 2 == corners.len(),
        forall|i: int|
            0 <= i < triangles.len() ==> #[trigger] triangles[i] == (
                corners[0],
                corners[i + 1],
                corners[i + 2],
            ),
    ensures
        triangles[0] == (corners[0], corners[1], corners[2]),
        triangles[triangles.len() - 1] == (
            corners[0],
            corners[corners.len() - 2],
            corners[corners.len() - 1],
        ),
        forall|k: int|
            1 <= k < corners.len() - 1 ==> {
                &&& (#[trigger] triangles[k - 1]).1 == corners[k]
                &&& triangles[k - 1].2 == corners[k + 1]
            },
{
    assert(triangles[0] == (corners[0], corners[1], corners[2]));
    assert(triangles[triangles.len() - 1] == (
        corners[0],
        corners[corners.len() - 2],
        corners[corners.len() - 1],
    ));
}

/// The size of the fan over `n >= 3` corners is `n - 2`: one triangle for each
/// corner but the first and the last.
pub proof fn lemma_fan_size(n: nat)
    requires
        n >= 3,
    ensures
        fan_size(n) + 2 == n,
{
}

} // verus!
