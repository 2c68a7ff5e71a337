use raytracer::mesh::{assemble_triangles, map_vertices, parse_obj, Face, ObjError, Triangle};

#[test]
fn triangle_new_holds_vertices() {
    let t = Triangle::new(1u32, 2u32, 3u32);
    assert_eq!(t.v1, 1);
    assert_eq!(t.v2, 2);
    assert_eq!(t.v3, 3);
}

#[test]
fn parse_reads_vertices_and_faces() {
    let text = b"# a comment\nv 1.0 2.0 3.0\nv 4 5 6\nv 0.5 0.5 0.5\nf 1 2 3\n";
    let data = parse_obj(text).unwrap();
    assert_eq!(data.vertices.len(), 3);
    assert_eq!(data.vertices[0].x, b"1.0".to_vec());
    assert_eq!(data.vertices[0].y, b"2.0".to_vec());
    assert_eq!(data.vertices[0].z, b"3.0".to_vec());
    assert_eq!(data.vertices[1].x, b"4".to_vec());
    assert_eq!(data.vertices[2].z, b"0.5".to_vec());
    assert_eq!(data.faces, vec![Face { a: 1, b: 2, c: 3 }]);
}

#[test]
fn parse_skips_blank_lines_and_trims() {
    let text = b"\n   \n\t# indented comment\r\n  v 1 2 3  \r\nf 1 1 1\r\n\n";
    let data = parse_obj(text).unwrap();
    assert_eq!(data.vertices.len(), 1);
    assert_eq!(data.vertices[0].x, b"1".to_vec());
    assert_eq!(data.faces, vec![Face { a: 1, b: 1, c: 1 }]);
}

#[test]
fn parse_empty_input_is_empty_mesh() {
    let data = parse_obj(b"").unwrap();
    assert_eq!(data.vertices.len(), 0);
    assert_eq!(data.faces.len(), 0);
}

#[test]
fn parse_rejects_short_face_line() {
    assert_eq!(parse_obj(b"f 1 2\n").unwrap_err(), ObjError::MissingField);
}

#[test]
fn parse_rejects_short_vertex_line() {
    assert_eq!(parse_obj(b"v 1 2\n").unwrap_err(), ObjError::MissingField);
}

#[test]
fn parse_rejects_trailing_field() {
    assert_eq!(parse_obj(b"v 1 2 3 4\n").unwrap_err(), ObjError::TrailingField);
    assert_eq!(parse_obj(b"f 1 2 3 4\n").unwrap_err(), ObjError::TrailingField);
}

#[test]
fn parse_rejects_unknown_indicator() {
    assert_eq!(parse_obj(b"vn 1 2 3\n").unwrap_err(), ObjError::UnknownIndicator);
}

#[test]
fn parse_rejects_bad_face_index() {
    assert_eq!(parse_obj(b"f 1 x 3\n").unwrap_err(), ObjError::BadIndex);
    // An empty field between two separators is not a number.
    assert_eq!(parse_obj(b"f 1  2 3\n").unwrap_err(), ObjError::BadIndex);
    // Too large for the machine word.
    assert_eq!(parse_obj(b"f 99999999999999999999 1 1\n").unwrap_err(), ObjError::BadIndex);
}

#[test]
fn parse_reports_first_bad_line() {
    assert_eq!(parse_obj(b"vn 1 2 3\nf 1 2\n").unwrap_err(), ObjError::UnknownIndicator);
    assert_eq!(parse_obj(b"v 1 2 3\nf 1 2\nvn 0 0 0\n").unwrap_err(), ObjError::MissingField);
}

#[test]
fn assemble_resolves_one_based_indices() {
    let vertices = vec![10u32, 20, 30];
    let faces = vec![Face { a: 1, b: 2, c: 3 }, Face { a: 3, b: 3, c: 1 }];
    let ts = assemble_triangles(&vertices, &faces).unwrap();
    assert_eq!(ts.len(), 2);
    assert_eq!((ts[0].v1, ts[0].v2, ts[0].v3), (10, 20, 30));
    assert_eq!((ts[1].v1, ts[1].v2, ts[1].v3), (30, 30, 10));
}

#[test]
fn assemble_rejects_zero_index() {
    let vertices = vec![10u32];
    let faces = vec![Face { a: 0, b: 1, c: 1 }];
    assert_eq!(
        assemble_triangles(&vertices, &faces).unwrap_err(),
        ObjError::IndexOutOfRange
    );
}

#[test]
fn assemble_rejects_large_index() {
    let vertices = vec![10u32, 20];
    let faces = vec![Face { a: 1, b: 3, c: 2 }];
    assert_eq!(
        assemble_triangles(&vertices, &faces).unwrap_err(),
        ObjError::IndexOutOfRange
    );
}

#[test]
fn map_vertices_transforms_every_corner() {
    let src = vec![Triangle::new(1u32, 2, 3), Triangle::new(4, 5, 6)];
    let out = map_vertices(&src, |v: &u32| v * 10);
    assert_eq!(out.len(), 2);
    assert_eq!((out[0].v1, out[0].v2, out[0].v3), (10, 20, 30));
    assert_eq!((out[1].v1, out[1].v2, out[1].v3), (40, 50, 60));
}

#[test]
fn mesh_load_end_to_end() {
    // A description goes through the same steps the scene loader takes:
    // parse, read coordinates, resolve faces, transform vertices.
    let text = b"v 0.5 1.5 -2.0\nv 1 0 0\nv 0 1 0\nf 1 2 3\n";
    let data = parse_obj(text).unwrap();
    let coords: Vec<(f64, f64, f64)> = data
        .vertices
        .iter()
        .map(|v| {
            let num = |t: &Vec<u8>| -> f64 {
                std::str::from_utf8(t).expect("utf8").parse().expect("f64")
            };
            (num(&v.x), num(&v.y), num(&v.z))
        })
        .collect();
    assert_eq!(coords[0], (0.5, 1.5, -2.0));
    let ts = assemble_triangles(&coords, &data.faces).unwrap();
    let ts = map_vertices(&ts, |v: &(f64, f64, f64)| (v.0 * 2.0, v.1 * 2.0, v.2 * 2.0));
    assert_eq!(ts[0].v1, (1.0, 3.0, -4.0));
    assert_eq!(ts[0].v2, (2.0, 0.0, 0.0));
    assert_eq!(ts[0].v3, (0.0, 2.0, 0.0));
}
