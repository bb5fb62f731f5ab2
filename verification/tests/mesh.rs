use threed_from_scratch::mesh::{test_mesh_faces, Mesh};
use threed_from_scratch::triangle::Face;

fn face(a: usize, b: usize, c: usize, a_uv: usize, b_uv: usize, c_uv: usize) -> Face {
    Face { a, b, c, a_uv, b_uv, c_uv, color: 0 }
}

#[test]
fn corners_are_found_by_one_based_position() {
    let mesh = Mesh::from_parts(vec![10, 20, 30, 40], vec!['a', 'b', 'c'], vec![]);
    assert_eq!(mesh.get_vertices(&face(1, 4, 2, 3, 1, 2)), [10, 40, 20]);
    assert_eq!(mesh.get_texel_coordinates(&face(1, 4, 2, 3, 1, 2)), ['c', 'a', 'b']);
}

#[test]
fn faces_are_kept() {
    let mesh: Mesh<i32, i32> = Mesh::from_parts(vec![], vec![], vec![face(1, 2, 3, 1, 2, 3)]);
    assert_eq!(mesh.faces.len(), 1);
    assert_eq!(mesh.faces[0].c, 3);
}

#[test]
fn test_cube_has_twelve_white_faces() {
    let faces = test_mesh_faces();
    assert_eq!(faces.len(), 12);
    assert!(faces.iter().all(|f| f.color == 0xFFFFFFFF));
    let corners: Vec<(usize, usize, usize)> = faces.iter().map(|f| (f.a, f.b, f.c)).collect();
    assert_eq!(
        corners,
        vec![
            (1, 2, 3),
            (1, 3, 4),
            (4, 3, 5),
            (4, 5, 6),
            (6, 5, 7),
            (6, 7, 8),
            (8, 7, 2),
            (8, 2, 1),
            (2, 7, 5),
            (2, 5, 3),
            (6, 8, 1),
            (6, 1, 4),
        ]
    );
    for (i, f) in faces.iter().enumerate() {
        if i % 2 == 0 {
            assert_eq!((f.a_uv, f.b_uv, f.c_uv), (4, 2, 1));
        } else {
            assert_eq!((f.a_uv, f.b_uv, f.c_uv), (4, 1, 3));
        }
    }
}

#[test]
fn test_cube_faces_use_eight_corners_and_four_texels() {
    let faces = test_mesh_faces();
    let mesh = Mesh::from_parts(vec![1, 2, 3, 4, 5, 6, 7, 8], vec![1, 2, 3, 4], faces.clone());
    for f in &faces {
        let corners = mesh.get_vertices(f);
        assert_eq!(corners, [f.a as i32, f.b as i32, f.c as i32]);
        let texels = mesh.get_texel_coordinates(f);
        assert_eq!(texels, [f.a_uv as i32, f.b_uv as i32, f.c_uv as i32]);
    }
}
