use threed_from_scratch::obj::{
    obj_line_kind, parse_face_elements, parse_usize, FaceParseError, ObjLineKind,
};

fn parse(s: &str) -> Option<usize> {
    parse_usize(s.as_bytes(), 0, s.len())
}

#[test]
fn line_kinds() {
    assert_eq!(obj_line_kind(b"v 1.0 2.0 3.0"), ObjLineKind::Vertex);
    assert_eq!(obj_line_kind(b"vt 0.5 0.5"), ObjLineKind::TexelCoordinate);
    assert_eq!(obj_line_kind(b"f 1/1 2/2 3/3"), ObjLineKind::Face);
    assert_eq!(obj_line_kind(b"vn 0 0 1"), ObjLineKind::Other);
    assert_eq!(obj_line_kind(b"# comment"), ObjLineKind::Other);
    assert_eq!(obj_line_kind(b"v"), ObjLineKind::Other);
    assert_eq!(obj_line_kind(b"f"), ObjLineKind::Other);
    assert_eq!(obj_line_kind(b""), ObjLineKind::Other);
    assert_eq!(obj_line_kind(b"v "), ObjLineKind::Vertex);
}

#[test]
fn parse_usize_agrees_with_std() {
    let cases = [
        "", "+", "-", "0", "7", "+7", "-7", "007", "12a", "a12", "1 2", "++1", "+-1", " 1",
        "18446744073709551615", "18446744073709551616", "4294967295", "4294967296",
        "99999999999999999999999",
    ];
    for case in cases {
        assert_eq!(parse(case), case.parse::<usize>().ok(), "case {:?}", case);
    }
}

#[test]
fn parse_usize_reads_a_range() {
    let bytes = b"f 12/34";
    assert_eq!(parse_usize(bytes, 2, 4), Some(12));
    assert_eq!(parse_usize(bytes, 5, 7), Some(34));
    assert_eq!(parse_usize(bytes, 4, 4), None);
}

#[test]
fn face_with_three_corners() {
    let face = parse_face_elements(b"1/4 2/2 3/1").unwrap();
    assert_eq!((face.a, face.b, face.c), (1, 2, 3));
    assert_eq!((face.a_uv, face.b_uv, face.c_uv), (4, 2, 1));
    assert_eq!(face.color, 0xFFAAAAAA);
}

#[test]
fn extra_slash_parts_are_ignored() {
    let face = parse_face_elements(b"5/6/7 8/9/10 11/12/13").unwrap();
    assert_eq!((face.a, face.b, face.c), (5, 8, 11));
    assert_eq!((face.a_uv, face.b_uv, face.c_uv), (6, 9, 12));
}

#[test]
fn missing_corners_are_zero() {
    let face = parse_face_elements(b"1/2 3/4").unwrap();
    assert_eq!((face.a, face.b, face.c), (1, 3, 0));
    assert_eq!((face.a_uv, face.b_uv, face.c_uv), (2, 4, 0));
}

#[test]
fn invalid_vertex_index() {
    assert_eq!(parse_face_elements(b"x/1 2/2 3/3").err(), Some(FaceParseError::InvalidVertexIndex));
    assert_eq!(parse_face_elements(b"").err(), Some(FaceParseError::InvalidVertexIndex));
    assert_eq!(parse_face_elements(b"1/1  2/2 3/3").err(), Some(FaceParseError::InvalidVertexIndex));
    assert_eq!(parse_face_elements(b"1/1 2/2 3/3 ").err(), Some(FaceParseError::InvalidVertexIndex));
}

#[test]
fn missing_texel_index() {
    assert_eq!(parse_face_elements(b"1 2 3").err(), Some(FaceParseError::MissingTexelIndex));
    assert_eq!(parse_face_elements(b"1/1 2 3/3").err(), Some(FaceParseError::MissingTexelIndex));
}

#[test]
fn invalid_texel_index() {
    assert_eq!(parse_face_elements(b"1//2 2/2 3/3").err(), Some(FaceParseError::InvalidTexelIndex));
    assert_eq!(parse_face_elements(b"1/q 2/2 3/3").err(), Some(FaceParseError::InvalidTexelIndex));
}

#[test]
fn too_many_corners() {
    assert_eq!(parse_face_elements(b"1/1 2/2 3/3 4/4").err(), Some(FaceParseError::TooManyCorners));
}

#[test]
fn first_bad_corner_decides_the_error() {
    // the fourth corner is read before it is refused, so its own error wins
    assert_eq!(parse_face_elements(b"1/1 2/2 3/3 x/4").err(), Some(FaceParseError::InvalidVertexIndex));
    assert_eq!(parse_face_elements(b"1 x/1").err(), Some(FaceParseError::MissingTexelIndex));
}
