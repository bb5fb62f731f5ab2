use threed_from_scratch::clipping::fan_triangulate;

#[test]
fn fan_of_a_pentagon() {
    let triangles = fan_triangulate(&vec!['a', 'b', 'c', 'd', 'e']);
    assert_eq!(triangles, vec![('a', 'b', 'c'), ('a', 'c', 'd'), ('a', 'd', 'e')]);
}

#[test]
fn fan_of_a_triangle_is_itself() {
    assert_eq!(fan_triangulate(&vec![1, 2, 3]), vec![(1, 2, 3)]);
}

#[test]
fn fewer_than_three_corners_give_no_triangle() {
    assert!(fan_triangulate::<i32>(&vec![]).is_empty());
    assert!(fan_triangulate(&vec![1]).is_empty());
    assert!(fan_triangulate(&vec![1, 2]).is_empty());
}
