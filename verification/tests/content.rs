use simpleio::{read_file_into_buffer, read_file_into_string, ReadError};

#[test]
fn buffer_returns_content_unchanged() {
    assert_eq!(read_file_into_buffer(Some(vec![1, 2, 3])), Ok(vec![1, 2, 3]));
}

#[test]
fn buffer_of_unreadable_file_is_io_error() {
    assert_eq!(read_file_into_buffer(None), Err(ReadError::Io));
}

#[test]
fn string_decodes_utf8_content() {
    let bytes = vec![0x68, 0xc3, 0xa9, 0x21];
    assert_eq!(read_file_into_string(Some(bytes)), Ok(String::from("h\u{e9}!")));
}

#[test]
fn string_and_buffer_agree_on_utf8_content() {
    let bytes = b"some text\nwith lines".to_vec();
    let buffer = read_file_into_buffer(Some(bytes.clone())).unwrap();
    let text = read_file_into_string(Some(bytes)).unwrap();
    assert_eq!(text.as_bytes(), buffer.as_slice());
}

#[test]
fn string_of_invalid_utf8_is_decode_error() {
    assert_eq!(read_file_into_string(Some(vec![0xff, 0xfe])), Err(ReadError::Decode));
}

#[test]
fn string_of_unreadable_file_is_io_error() {
    assert_eq!(read_file_into_string(None), Err(ReadError::Io));
}
