use simpleio::{read_lines, read_lines_raw, ReadError};

#[test]
fn lines_split_and_strip_terminators() {
    let content = b"alpha\nbeta\r\ngamma".to_vec();
    let expected = vec!["alpha".to_string(), "beta".to_string(), "gamma".to_string()];
    assert_eq!(read_lines(Some(content)), expected);
}

#[test]
fn trailing_newline_adds_no_line() {
    assert_eq!(read_lines(Some(b"alpha\n".to_vec())), vec!["alpha".to_string()]);
}

#[test]
fn empty_interior_lines_are_kept() {
    let expected = vec!["a".to_string(), "".to_string(), "b".to_string()];
    assert_eq!(read_lines(Some(b"a\n\nb".to_vec())), expected);
}

#[test]
fn lone_carriage_return_at_end_is_kept() {
    assert_eq!(read_lines(Some(b"a\r".to_vec())), vec!["a\r".to_string()]);
}

#[test]
fn empty_content_has_no_lines() {
    assert_eq!(read_lines(Some(Vec::new())), Vec::<String>::new());
}

#[test]
fn undecodable_lines_are_dropped_in_order() {
    let mut content = b"first\n".to_vec();
    content.extend_from_slice(&[0xff, 0xfe]);
    content.extend_from_slice(b"\nlast");
    assert_eq!(read_lines(Some(content)), vec!["first".to_string(), "last".to_string()]);
}

#[test]
fn raw_lines_surface_each_decode_error() {
    let mut content = b"first\n".to_vec();
    content.extend_from_slice(&[0xff, 0xfe]);
    content.extend_from_slice(b"\nlast");
    let results = read_lines_raw(Some(content)).unwrap();
    assert_eq!(results.len(), 3);
    assert_eq!(results[0], Ok("first".to_string()));
    assert_eq!(results[1], Err(ReadError::Decode));
    assert_eq!(results[2], Ok("last".to_string()));
}

#[test]
fn unreadable_file_gives_no_lines_but_raw_errors() {
    assert_eq!(read_lines(None), Vec::<String>::new());
    assert_eq!(read_lines_raw(None), Err(ReadError::Io));
}
