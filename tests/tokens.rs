use obj_mesh::literal::{is_float_text, parse_index, write_index};
use obj_mesh::model::Number;
use obj_mesh::scan::{scan, Scanner};

#[test]
fn float_literals() {
    for ok in ["1", "1.0", "-2.5", "+3", ".5", "7.", "1e5", "1E-5", "2.5e+3", "inf", "-Infinity", "NaN", "+nan"] {
        assert!(is_float_text(ok.as_bytes()), "{}", ok);
        assert!(ok.parse::<f32>().is_ok(), "{}", ok);
    }
    for bad in ["", ".", "+", "e5", "1e", "1e+", "1..0", "1.0.0", "a", "infx", " 1", "1 ", "--1", "0x10"] {
        assert!(!is_float_text(bad.as_bytes()), "{}", bad);
        assert!(bad.parse::<f32>().is_err(), "{}", bad);
    }
}

#[test]
fn numbers_keep_their_text() {
    let n = Number::from_text(b"-0.125").unwrap();
    assert_eq!(n.text(), b"-0.125");
    assert!(Number::from_text(b"x").is_none());
    assert_eq!(Number::one().text(), b"1.0");
}

#[test]
fn index_tokens() {
    assert_eq!(parse_index(b"0"), Some(0));
    assert_eq!(parse_index(b"65535"), Some(65535));
    assert_eq!(parse_index(b"+12"), Some(12));
    assert_eq!(parse_index(b"000000000000000042"), Some(42));
    assert_eq!(parse_index(b"65536"), None);
    assert_eq!(parse_index(b"999999999999"), None);
    assert_eq!(parse_index(b""), None);
    assert_eq!(parse_index(b"+"), None);
    assert_eq!(parse_index(b"-1"), None);
    assert_eq!(parse_index(b"1a"), None);
}

#[test]
fn index_text() {
    for n in [0u16, 7, 10, 99, 100, 12345, 65535] {
        let mut out = b"x".to_vec();
        write_index(n, &mut out);
        assert_eq!(out, format!("x{}", n).into_bytes());
        assert_eq!(parse_index(&out[1..]), Some(n));
    }
}

#[test]
fn lines_are_split() {
    let lines = scan(b"v 1 2 3\n\n# note\nf 1/2 3\nxyz\nlast 1");
    assert_eq!(lines.len(), 2);
    assert_eq!(lines[0].number, 1);
    assert_eq!(lines[0].command, b"v".to_vec());
    assert_eq!(lines[0].args, vec![b"1".to_vec(), b"2".to_vec(), b"3".to_vec()]);
    assert_eq!(lines[1].number, 4);
    assert_eq!(lines[1].command, b"f".to_vec());
    assert_eq!(lines[1].args, vec![b"1".to_vec(), b"3".to_vec()]);
}

#[test]
fn scanner_feeds_bytes() {
    let mut s = Scanner::new();
    let mut out = Vec::new();
    for b in b"xyz a b\r\n" {
        if let Some(l) = s.feed(*b) {
            out.push(l);
        }
    }
    assert_eq!(out.len(), 1);
    assert_eq!(out[0].command, b"xyz".to_vec());
    assert_eq!(out[0].args, vec![b"a".to_vec(), b"b".to_vec()]);
}

#[test]
fn hash_inside_skip_region_is_skipped() {
    let lines = scan(b"f 1/#2 3\n");
    assert_eq!(lines[0].args, vec![b"1".to_vec(), b"3".to_vec()]);
}
