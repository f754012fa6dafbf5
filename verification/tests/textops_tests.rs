use commitgen::textops::{format_diff_lines, join_bytes, trim_line_ending};

#[test]
fn diff_lines_get_marker_prefixes() {
    let lines: Vec<(u8, Vec<u8>)> = vec![
        (b'+', b"added line\n".to_vec()),
        (b'-', b"removed line\n".to_vec()),
        (b' ', b"context\n".to_vec()),
    ];
    let out = format_diff_lines(&lines);
    assert_eq!(out, b"+:added line\n-:removed line\n :context\n".to_vec());
}

#[test]
fn diff_of_nothing_is_empty() {
    let out = format_diff_lines(&Vec::new());
    assert!(out.is_empty());
}

#[test]
fn join_with_separator() {
    let parts: Vec<Vec<u8>> = vec![b"a".to_vec(), b"b".to_vec(), b"c".to_vec()];
    assert_eq!(join_bytes(&parts, &b", ".to_vec()), b"a, b, c".to_vec());
}

#[test]
fn join_edge_cases() {
    assert_eq!(join_bytes(&Vec::new(), &b",".to_vec()), Vec::<u8>::new());
    assert_eq!(join_bytes(&vec![b"only".to_vec()], &b",".to_vec()), b"only".to_vec());
    assert_eq!(
        join_bytes(&vec![Vec::new(), Vec::new()], &b",".to_vec()),
        b",".to_vec()
    );
}

#[test]
fn trim_drops_line_endings() {
    let mut v = b"abc\r\n".to_vec();
    trim_line_ending(&mut v);
    assert_eq!(v, b"abc".to_vec());

    let mut v = b"abc\n".to_vec();
    trim_line_ending(&mut v);
    assert_eq!(v, b"abc".to_vec());

    let mut v = b"abc".to_vec();
    trim_line_ending(&mut v);
    assert_eq!(v, b"abc".to_vec());

    let mut v = b"\n".to_vec();
    trim_line_ending(&mut v);
    assert_eq!(v, Vec::<u8>::new());

    // Only one ending is removed: an inner newline survives.
    let mut v = b"abc\n\n".to_vec();
    trim_line_ending(&mut v);
    assert_eq!(v, b"abc\n".to_vec());
}
