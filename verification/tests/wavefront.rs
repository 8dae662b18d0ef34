use renderer::wavefront::{
    face_from_captures, kind_of_line, parse_index, parse_line, texture_from_captures,
    vertex_from_captures, LineKind, MeshLine, WaveFrontFile,
};

fn groups(texts: &[Option<&str>]) -> Option<Vec<Option<String>>> {
    Some(texts.iter().map(|text| text.map(|t| t.to_string())).collect())
}

#[test]
fn kinds_of_lines() {
    assert_eq!(kind_of_line("v 1 2 3"), LineKind::Vertex);
    assert_eq!(kind_of_line("f 1/1/1 2/2/2 3/3/3"), LineKind::Face);
    assert_eq!(kind_of_line("vt  0.5 0.5 0.0"), LineKind::Texture);
    assert_eq!(kind_of_line("vn 0 0 1"), LineKind::Other);
    assert_eq!(kind_of_line("# v 1 2 3"), LineKind::Other);
    assert_eq!(kind_of_line("v"), LineKind::Other);
    assert_eq!(kind_of_line("vt"), LineKind::Other);
    assert_eq!(kind_of_line(""), LineKind::Other);
    assert_eq!(kind_of_line("g head"), LineKind::Other);
}

#[test]
fn indices_count_from_one() {
    assert_eq!(parse_index("1"), Some(0));
    assert_eq!(parse_index("24"), Some(23));
    assert_eq!(parse_index("0007"), Some(6));
    assert_eq!(parse_index("1258"), Some(1257));
}

#[test]
fn text_that_is_no_index() {
    assert_eq!(parse_index(""), None);
    assert_eq!(parse_index("0"), None);
    assert_eq!(parse_index("000"), None);
    assert_eq!(parse_index("12a"), None);
    assert_eq!(parse_index("-3"), None);
    assert_eq!(parse_index("+3"), None);
    assert_eq!(parse_index(" 3"), None);
    assert_eq!(parse_index("٣"), None);
}

#[test]
fn indices_up_to_the_greatest() {
    let greatest = format!("{}", usize::MAX);
    assert_eq!(parse_index(&greatest), Some(usize::MAX - 1));
    let mut beyond = greatest.clone();
    beyond.push('0');
    assert_eq!(parse_index(&beyond), None);
    let next = format!("{}", usize::MAX as u128 + 1);
    assert_eq!(parse_index(&next), None);
}

#[test]
fn reads_a_vertex_line() {
    match parse_line("v -0.000581696 -0.734665 -0.623267") {
        MeshLine::Vertex(vertex) => {
            assert_eq!(vertex.x, "-0.000581696");
            assert_eq!(vertex.y, "-0.734665");
            assert_eq!(vertex.z, "-0.623267");
        }
        other => panic!("expected a vertex, got {:?}", other),
    }
    match parse_line("v 1e-3 2 3") {
        MeshLine::Vertex(vertex) => {
            assert_eq!(vertex.x, "1e-3");
            assert_eq!(vertex.y, "2");
            assert_eq!(vertex.z, "3");
        }
        other => panic!("expected a vertex, got {:?}", other),
    }
}

#[test]
fn reads_a_texture_line() {
    match parse_line("vt  0.532 0.923 0.000") {
        MeshLine::Texture(coordinate) => {
            assert_eq!(coordinate.u, "0.532");
            assert_eq!(coordinate.v, "0.923");
        }
        other => panic!("expected a texture coordinate, got {:?}", other),
    }
}

#[test]
fn reads_a_face_line() {
    match parse_line("f 24/1/24 25/2/25 26/3/26") {
        MeshLine::Face(face) => {
            assert_eq!(face.vertices, [23, 24, 25]);
            assert_eq!(face.textures, [0, 1, 2]);
        }
        other => panic!("expected a face, got {:?}", other),
    }
    match parse_line("f 1193/1240/1193 1180/1227/1180 1179/1226/1179") {
        MeshLine::Face(face) => {
            assert_eq!(face.vertices, [1192, 1179, 1178]);
            assert_eq!(face.textures, [1239, 1226, 1225]);
        }
        other => panic!("expected a face, got {:?}", other),
    }
}

#[test]
fn lines_that_say_too_little_are_malformed() {
    assert!(matches!(parse_line("v 1 2"), MeshLine::Malformed));
    assert!(matches!(parse_line("v x y z"), MeshLine::Malformed));
    assert!(matches!(parse_line("vt 0.5 0.5"), MeshLine::Malformed));
    assert!(matches!(parse_line("f 1 2 3"), MeshLine::Malformed));
    assert!(matches!(parse_line("f 1/1/1 2/2/2"), MeshLine::Malformed));
    assert!(matches!(parse_line("f 0/1/1 2/2/2 3/3/3"), MeshLine::Malformed));
    assert!(matches!(parse_line("f 1//1 2//2 3//3"), MeshLine::Malformed));
    assert!(matches!(parse_line("f /1/1 2/2/2 3/3/3"), MeshLine::Malformed));
}

#[test]
fn other_lines_are_passed_over() {
    assert!(matches!(parse_line("# a comment"), MeshLine::Other));
    assert!(matches!(parse_line("vn  0.001 0.482 -0.876"), MeshLine::Other));
    assert!(matches!(parse_line(""), MeshLine::Other));
    assert!(matches!(parse_line("s 1"), MeshLine::Other));
}

#[test]
fn face_from_captured_groups() {
    let found = groups(&[
        Some("f 1/2/3 4/5/6 7/8/9"),
        Some("1"),
        Some("2"),
        Some("4"),
        Some("5"),
        Some("7"),
        Some("8"),
    ]);
    match face_from_captures(&found) {
        MeshLine::Face(face) => {
            assert_eq!(face.vertices, [0, 3, 6]);
            assert_eq!(face.textures, [1, 4, 7]);
        }
        other => panic!("expected a face, got {:?}", other),
    }
    assert!(matches!(face_from_captures(&None), MeshLine::Malformed));
    let short = groups(&[Some("f"), Some("1"), Some("2")]);
    assert!(matches!(face_from_captures(&short), MeshLine::Malformed));
    let absent =
        groups(&[Some("f"), Some("1"), None, Some("4"), Some("5"), Some("7"), Some("8")]);
    assert!(matches!(face_from_captures(&absent), MeshLine::Malformed));
    let zero =
        groups(&[Some("f"), Some("1"), Some("2"), Some("0"), Some("5"), Some("7"), Some("8")]);
    assert!(matches!(face_from_captures(&zero), MeshLine::Malformed));
}

#[test]
fn vertex_and_texture_from_captured_groups() {
    let vertex = groups(&[Some("v 1 2 3"), Some("1"), Some("2"), Some("3")]);
    match vertex_from_captures(&vertex) {
        MeshLine::Vertex(vertex) => {
            assert_eq!(
                (vertex.x.as_str(), vertex.y.as_str(), vertex.z.as_str()),
                ("1", "2", "3")
            );
        }
        other => panic!("expected a vertex, got {:?}", other),
    }
    assert!(matches!(vertex_from_captures(&None), MeshLine::Malformed));
    let absent = groups(&[Some("v"), Some("1"), None, Some("3")]);
    assert!(matches!(vertex_from_captures(&absent), MeshLine::Malformed));
    let long = groups(&[Some("v"), Some("1"), Some("2"), Some("3"), Some("4")]);
    assert!(matches!(vertex_from_captures(&long), MeshLine::Malformed));
    let texture = groups(&[Some("vt  1 2"), Some("1"), Some("2")]);
    match texture_from_captures(&texture) {
        MeshLine::Texture(coordinate) => {
            assert_eq!((coordinate.u.as_str(), coordinate.v.as_str()), ("1", "2"));
        }
        other => panic!("expected a texture coordinate, got {:?}", other),
    }
    assert!(matches!(texture_from_captures(&None), MeshLine::Malformed));
    let absent = groups(&[Some("vt"), None, Some("2")]);
    assert!(matches!(texture_from_captures(&absent), MeshLine::Malformed));
}

fn lines(texts: &[&str]) -> Vec<String> {
    texts.iter().map(|text| text.to_string()).collect()
}

#[test]
fn mesh_keeps_the_order_of_its_description() {
    let description = lines(&[
        "# a triangle and a half",
        "v 0 0 0",
        "v 1 0 0",
        "vt  0.5 0.25 0.0",
        "v 0 1 0",
        "vn  0 0 1",
        "f 1/1/1 2/1/1 3/1/1",
        "v 1 1 0.5",
        "f 2/1/1 4/1/1 3/1/1",
        "",
    ]);
    let mesh = WaveFrontFile::from_lines(&description).unwrap();
    assert_eq!(mesh.vertex_count(), 4);
    assert_eq!(mesh.face_count(), 2);
    assert_eq!(mesh.texture_count(), 1);
    assert_eq!(mesh.get_vertex(1).x, "1");
    assert_eq!(mesh.get_vertex(3).z, "0.5");
    assert_eq!(mesh.get_texture(0).u, "0.5");
    assert_eq!(mesh.get_texture(0).v, "0.25");
    assert_eq!(mesh.get_face(0).vertices, [0, 1, 2]);
    assert_eq!(mesh.get_face(1).vertices, [1, 3, 2]);
    assert_eq!(mesh.get_face(1).textures, [0, 0, 0]);
}

#[test]
fn mesh_of_no_lines_is_empty() {
    let mesh = WaveFrontFile::from_lines(&Vec::new()).unwrap();
    assert_eq!(mesh.vertex_count(), 0);
    assert_eq!(mesh.face_count(), 0);
    assert_eq!(mesh.texture_count(), 0);
}

#[test]
fn mesh_reading_stops_at_the_first_malformed_line() {
    let description = lines(&["v 0 0 0", "f 1/1/1 2/2/2", "v 1", "f 1/1/1 2/2/2 3/3/3"]);
    assert_eq!(WaveFrontFile::from_lines(&description).unwrap_err(), 1);
    let later = lines(&["v 0 0 0", "g head", "v 1"]);
    assert_eq!(WaveFrontFile::from_lines(&later).unwrap_err(), 2);
}
