use obj_mesh::controls::ControlState;
use obj_mesh::model::{Normal, Number, Vertex};
use obj_mesh::obj::{CommandKind, MeshReader, ObjModel, ParseError};

fn zero_normal(_: &Vertex) -> Normal {
    Normal { normal: (Number::zero(), Number::zero(), Number::one()) }
}

#[test]
fn reader_takes_pieces() {
    let input = b"v 1 2 3\nvn 0 0 1\nf 0 0 0\ns 2\n";
    let mut r = MeshReader::new();
    for piece in input.chunks(3) {
        assert_eq!(r.feed(piece), Ok(()));
    }
    let m = r.finish(zero_normal);
    let whole = ObjModel::parse(input, zero_normal).unwrap();
    assert_eq!(m.to_text(), whole.to_text());
    assert_eq!(m.indices, vec![0, 0, 0]);
    assert_eq!(m.scale.text(), b"2");
}

#[test]
fn reader_reports_fault_with_line() {
    let mut r = MeshReader::new();
    assert_eq!(r.feed(b"v 1 2 3\n"), Ok(()));
    assert_eq!(r.feed(b"vn 1 2\n"), Err(ParseError::MalformedNumericArgument { line: 2, command: CommandKind::Normal }));
}

#[test]
fn reader_can_stop_early() {
    let mut r = MeshReader::new();
    assert_eq!(r.feed(b"v 1 2 3\nv 4 5"), Ok(()));
    let m = r.finish(zero_normal);
    assert_eq!(m.vertices.len(), 1);
    assert_eq!(m.normals.len(), 1);
    assert_eq!(m.normals[0].normal.2.text(), b"1.0");
}

#[test]
fn reader_notes_unsupported_lines() {
    let mut r = MeshReader::new();
    assert_eq!(r.feed(b"mtllib a.mtl\nv 1 2 3\n"), Ok(()));
    assert_eq!(r.feed(b"usemtl x\nf 0\no\n"), Ok(()));
    let notes = r.unsupported();
    assert_eq!(notes.len(), 2);
    assert_eq!(notes[0].number, 1);
    assert_eq!(notes[0].command, b"mtllib".to_vec());
    assert_eq!(notes[1].number, 3);
    assert_eq!(notes[1].command, b"usemtl".to_vec());
}

#[test]
fn keys_are_held_once() {
    let mut c = ControlState::new();
    assert!(!c.is_key_pressed(17));
    c.key_press(17);
    c.key_press(17);
    c.key_press(30);
    assert!(c.is_key_pressed(17) && c.is_key_pressed(30));
    c.key_release(17);
    assert!(!c.is_key_pressed(17));
    assert!(c.is_key_pressed(30));
    c.key_release(99);
    assert!(c.is_key_pressed(30));
}

#[test]
fn buttons_are_held_once() {
    let mut c = ControlState::new();
    c.mouse_click(1);
    c.mouse_click(1);
    assert!(c.is_mouse_clicked(1));
    assert!(!c.is_key_pressed(1));
    c.mouse_release(1);
    assert!(!c.is_mouse_clicked(1));
}
