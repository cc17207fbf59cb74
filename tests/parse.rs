use obj_mesh::model::{Model, Normal, Number, Vertex};
use obj_mesh::obj::{classify, CommandKind, ObjModel, ParseError};

fn value(n: &Number) -> f32 {
    std::str::from_utf8(n.text()).unwrap().parse::<f32>().unwrap()
}

fn triple(t: &(Number, Number, Number)) -> (f32, f32, f32) {
    (value(&t.0), value(&t.1), value(&t.2))
}

fn vertices(m: &Model) -> Vec<(f32, f32, f32)> {
    m.vertices.iter().map(|v| triple(&v.position)).collect()
}

fn normals(m: &Model) -> Vec<(f32, f32, f32)> {
    m.normals.iter().map(|n| triple(&n.normal)).collect()
}

fn number_of(x: f32) -> Number {
    Number::from_text(format!("{}", x).as_bytes()).unwrap()
}

fn placeholder(v: &Vertex) -> Normal {
    let (x, y, z) = triple(&v.position);
    Normal { normal: (number_of(x.cos()), number_of(y.sin()), number_of(z.sin())) }
}

#[test]
fn normals_are_made_for_each_vertex() {
    let m = ObjModel::parse(b"v 1.0 2.0 3.0\nv 0.5 0.0 -1.0\nv 0 0 0\n", placeholder).unwrap();
    assert_eq!(m.vertices.len(), 3);
    assert_eq!(m.normals.len(), 3);
    let n = normals(&m);
    assert_eq!(n[0], (1.0f32.cos(), 2.0f32.sin(), 3.0f32.sin()));
    assert_eq!(n[1], (0.5f32.cos(), 0.0f32.sin(), (-1.0f32).sin()));
    assert_eq!(n[2], (1.0, 0.0, 0.0));
}

#[test]
fn declared_normals_are_kept() {
    let m = ObjModel::parse(b"v 1 2 3\nvn 0 0 1\n", placeholder).unwrap();
    assert_eq!(normals(&m), vec![(0.0, 0.0, 1.0)]);
}

#[test]
fn fill_normals_leaves_declared_ones() {
    let mut m = Model::new();
    m.fill_normals(placeholder);
    assert!(m.normals.is_empty());
    let mut m = ObjModel::parse(b"v 1 2 3\nvn 0 0 1\nv 4 5 6\n", placeholder).unwrap();
    m.fill_normals(placeholder);
    assert_eq!(normals(&m), vec![(0.0, 0.0, 1.0)]);
}

#[test]
fn one_vertex_exactly() {
    let m = ObjModel::parse(b"v 1.0 2.0 3.0\n", placeholder).unwrap();
    assert_eq!(vertices(&m), vec![(1.0, 2.0, 3.0)]);
    assert_eq!(normals(&m), vec![(1.0f32.cos(), 2.0f32.sin(), 3.0f32.sin())]);
    assert!(m.indices.is_empty());
    assert_eq!(value(&m.scale), 1.0);
}

#[test]
fn comment_adds_nothing() {
    let m = ObjModel::parse(b"# comment\nv 1.0 1.0 1.0\n", placeholder).unwrap();
    assert_eq!(vertices(&m), vec![(1.0, 1.0, 1.0)]);
    assert_eq!(normals(&m), vec![(1.0f32.cos(), 1.0f32.sin(), 1.0f32.sin())]);
}

#[test]
fn comment_after_arguments() {
    let m = ObjModel::parse(b"v 1 2 3# trailing words\n", placeholder).unwrap();
    assert_eq!(vertices(&m), vec![(1.0, 2.0, 3.0)]);
}

#[test]
fn face_indices_in_order() {
    let m = ObjModel::parse(b"f 1 2 3\n", placeholder).unwrap();
    assert_eq!(m.indices, vec![1, 2, 3]);
}

#[test]
fn face_lines_append() {
    let m = ObjModel::parse(b"f 1 2 3\nf 3 2 0\n", placeholder).unwrap();
    assert_eq!(m.indices, vec![1, 2, 3, 3, 2, 0]);
}

#[test]
fn last_scale_wins() {
    let m = ObjModel::parse(b"s 2.5\ns 4.0\n", placeholder).unwrap();
    assert_eq!(value(&m.scale), 4.0);
    assert_eq!(m.scale.text(), b"4.0");
}

#[test]
fn unsupported_line_changes_nothing() {
    let m = ObjModel::parse(b"xyz 1 2 3\n", placeholder).unwrap();
    assert!(m.vertices.is_empty());
    assert!(m.normals.is_empty());
    assert!(m.indices.is_empty());
    assert_eq!(value(&m.scale), 1.0);
    let m = ObjModel::parse(b"xyz 1 2 3\nv 4 5 6\n", placeholder).unwrap();
    assert_eq!(vertices(&m), vec![(4.0, 5.0, 6.0)]);
}

#[test]
fn malformed_vertex_inserts_nothing() {
    let r = ObjModel::parse(b"v a b c\n", placeholder);
    assert_eq!(r.unwrap_err(), ParseError::MalformedNumericArgument { line: 1, command: CommandKind::Vertex });
}

#[test]
fn short_vertex_is_malformed() {
    let r = ObjModel::parse(b"v 1 2\n", placeholder);
    assert_eq!(r.unwrap_err(), ParseError::MalformedNumericArgument { line: 1, command: CommandKind::Vertex });
}

#[test]
fn malformed_normal_and_scale() {
    assert_eq!(
        ObjModel::parse(b"v 1 2 3\nvn 1 x 3\n", placeholder).unwrap_err(),
        ParseError::MalformedNumericArgument { line: 2, command: CommandKind::Normal }
    );
    assert_eq!(
        ObjModel::parse(b"\n\ns \n", placeholder).unwrap_err(),
        ParseError::MalformedNumericArgument { line: 3, command: CommandKind::Scale }
    );
}

#[test]
fn extra_vertex_arguments_are_not_read() {
    let m = ObjModel::parse(b"v 1 2 3 4\n", placeholder).unwrap();
    assert_eq!(vertices(&m), vec![(1.0, 2.0, 3.0)]);
}

#[test]
fn index_out_of_range() {
    assert_eq!(
        ObjModel::parse(b"f 1 65536\n", placeholder).unwrap_err(),
        ParseError::IndexOutOfRange { line: 1 }
    );
    assert_eq!(
        ObjModel::parse(b"v 0 0 0\nf 1 x\n", placeholder).unwrap_err(),
        ParseError::IndexOutOfRange { line: 2 }
    );
    assert_eq!(
        ObjModel::parse(b"f -1\n", placeholder).unwrap_err(),
        ParseError::IndexOutOfRange { line: 1 }
    );
    let m = ObjModel::parse(b"f 0 65535 +7 007\n", placeholder).unwrap();
    assert_eq!(m.indices, vec![0, 65535, 7, 7]);
}

#[test]
fn trailing_space_on_face_line_fails() {
    assert_eq!(
        ObjModel::parse(b"f 1 2 3 \n", placeholder).unwrap_err(),
        ParseError::IndexOutOfRange { line: 1 }
    );
}

#[test]
fn slash_groups_keep_first_part() {
    let m = ObjModel::parse(b"f 1/2/3 4/5/6 7//9\n", placeholder).unwrap();
    assert_eq!(m.indices, vec![1, 4, 7]);
}

#[test]
fn carriage_returns_are_dropped() {
    let m = ObjModel::parse(b"v 1 2 3\r\nf 1\r\n", placeholder).unwrap();
    assert_eq!(vertices(&m), vec![(1.0, 2.0, 3.0)]);
    assert_eq!(m.indices, vec![1]);
}

#[test]
fn unterminated_last_line_is_dropped() {
    let m = ObjModel::parse(b"v 1 2 3\nv 4 5 6", placeholder).unwrap();
    assert_eq!(vertices(&m), vec![(1.0, 2.0, 3.0)]);
}

#[test]
fn empty_input_gives_empty_mesh() {
    let m = ObjModel::parse(b"", placeholder).unwrap();
    assert!(m.vertices.is_empty() && m.normals.is_empty() && m.indices.is_empty());
    assert_eq!(m.scale.text(), b"1.0");
    assert!(m.tex_path.is_none());
    assert_eq!(triple(&m.position), (0.0, 0.0, 0.0));
    assert_eq!(m.position.0.text(), b"0.0");
}

#[test]
fn leading_space_is_skipped() {
    let m = ObjModel::parse(b" v 1 2 3\n", placeholder).unwrap();
    assert_eq!(vertices(&m), vec![(1.0, 2.0, 3.0)]);
}

#[test]
fn double_space_gives_empty_argument() {
    assert_eq!(
        ObjModel::parse(b"v  1 2 3\n", placeholder).unwrap_err(),
        ParseError::MalformedNumericArgument { line: 1, command: CommandKind::Vertex }
    );
}

#[test]
fn command_without_arguments_is_not_read() {
    let m = ObjModel::parse(b"s\nv\n", placeholder).unwrap();
    assert_eq!(value(&m.scale), 1.0);
    assert!(m.vertices.is_empty());
}

#[test]
fn first_fault_ends_reading() {
    assert_eq!(
        ObjModel::parse(b"f 70000\nv a b c\n", placeholder).unwrap_err(),
        ParseError::IndexOutOfRange { line: 1 }
    );
}

#[test]
fn float_forms_are_read() {
    let m = ObjModel::parse(b"v -1.5e2 .5 7.\nv inf -NaN +INFINITY\n", placeholder).unwrap();
    let v = vertices(&m);
    assert_eq!(v[0], (-150.0, 0.5, 7.0));
    assert!(v[1].0.is_infinite() && v[1].1.is_nan() && v[1].2 == f32::INFINITY);
}

#[test]
fn written_mesh_reads_back() {
    let input = b"# model\ns 0.25\nv 1.0 2.0 3.0\nv -1 1e3 inf\nvn 0 1 0\nvn 0 0 1\nf 0 1 65535\nf 1/1/1 0\nxyz ignored\n";
    let m = ObjModel::parse(input, placeholder).unwrap();
    let text = m.to_text();
    assert_eq!(
        text,
        b"s 0.25\nv 1.0 2.0 3.0\nv -1 1e3 inf\nvn 0 1 0\nvn 0 0 1\nf 0 1 65535 1 0\n".to_vec()
    );
    let again = ObjModel::parse(&text, placeholder).unwrap();
    assert_eq!(vertices(&again), vertices(&m));
    assert_eq!(normals(&again), normals(&m));
    assert_eq!(again.indices, m.indices);
    assert_eq!(again.scale.text(), m.scale.text());
}

#[test]
fn empty_mesh_writes_scale_only() {
    let m = Model::new();
    assert_eq!(m.to_text(), b"s 1.0\n".to_vec());
}

#[test]
fn texture_path_is_kept() {
    let mut m = ObjModel::parse(b"v 1 2 3\n", placeholder).unwrap();
    m.set_tex_path("a.png".to_string());
    assert_eq!(m.tex_path.as_deref(), Some("a.png"));
    assert_eq!(vertices(&m), vec![(1.0, 2.0, 3.0)]);
}

#[test]
fn command_names_classify() {
    assert_eq!(classify(b"v"), CommandKind::Vertex);
    assert_eq!(classify(b"vn"), CommandKind::Normal);
    assert_eq!(classify(b"f"), CommandKind::Face);
    assert_eq!(classify(b"s"), CommandKind::Scale);
    assert_eq!(classify(b"vt"), CommandKind::Unsupported);
    assert_eq!(classify(b""), CommandKind::Unsupported);
    assert_eq!(classify(b"V"), CommandKind::Unsupported);
}

#[test]
fn cloned_model_is_equal() {
    let m = ObjModel::parse(b"v 1 2 3\nf 0\n", placeholder).unwrap();
    let c = m.clone();
    assert_eq!(vertices(&c), vertices(&m));
    assert_eq!(c.indices, m.indices);
}

#[test]
fn leading_unsupported_line_changes_nothing() {
    for rest in [&b"v 1 2 3\nf 0 0 0\ns 2\n"[..], b"", b"vn 0 1 0\nv 4 5 6\n"] {
        let mut with = b"xyz 1 2 3\n".to_vec();
        with.extend_from_slice(rest);
        let a = ObjModel::parse(&with, placeholder).unwrap();
        let b = ObjModel::parse(rest, placeholder).unwrap();
        assert_eq!(a.to_text(), b.to_text());
    }
    assert_eq!(
        ObjModel::parse(b"xyz 1 2 3\nv 1 q 3\n", placeholder).unwrap_err(),
        ParseError::MalformedNumericArgument { line: 2, command: CommandKind::Vertex }
    );
    assert_eq!(
        ObjModel::parse(b"v 1 q 3\n", placeholder).unwrap_err(),
        ParseError::MalformedNumericArgument { line: 1, command: CommandKind::Vertex }
    );
}
