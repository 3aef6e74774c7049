use http11::errors::Error;
use http11::helpers::bytes::{Bytes, FragmentedBytes};
use http11::helpers::parser::{
    look_for_crlf, look_for_delimiter, look_for_double_crlf, push_to_buffer, skip_initial_crlf,
};

#[test]
pub fn test_look_for_crlf_one_buffer() {
    let bytes = Bytes::new(vec![1, 2, 3, b'\r', b'\n'], 5);
    let mut bytes = FragmentedBytes::new(vec![bytes]);

    let buffer = look_for_crlf(&mut bytes);
    assert!(buffer.is_some());
    assert_eq!(vec![1, 2, 3], buffer.unwrap());
}

#[test]
pub fn test_look_for_crlf_multiple_buffer() {
    let bytes1 = Bytes::new(vec![1, 2, 3], 3);
    let bytes2 = Bytes::new(vec![1, 2, 3, 4, 5], 5);
    let bytes3 = Bytes::new(vec![1, 2, 3, 6, 7, 8, b'\r', b'\n', 9, 10], 10);

    let mut bytes = FragmentedBytes::new(vec![bytes1, bytes2, bytes3]);

    let buffer = look_for_crlf(&mut bytes);
    assert!(buffer.is_some());
    assert_eq!(vec![1, 2, 3, 1, 2, 3, 4, 5, 1, 2, 3, 6, 7, 8], buffer.unwrap());
}

#[test]
pub fn test_look_for_crlf_with_no_crlf() {
    let bytes1 = Bytes::new(vec![1, 2, 3], 3);
    let bytes2 = Bytes::new(vec![1, 2, 3, 4, 5], 5);

    let mut bytes = FragmentedBytes::new(vec![bytes1, bytes2]);

    let buffer = look_for_crlf(&mut bytes);
    assert!(buffer.is_none());

    let bytes3 = Bytes::new(vec![1, 2, 3, 6, 7, 8, b'\r', 9, 10], 9);
    bytes.push_bytes(bytes3);

    let buffer = look_for_crlf(&mut bytes);
    assert!(buffer.is_none());

    let bytes4 = Bytes::new(vec![1, 2, 3, 6, 7, 8, b'\r', b'\n', 9, 10], 10);
    bytes.push_bytes(bytes4);

    let buffer = look_for_crlf(&mut bytes);
    assert!(buffer.is_some());
    assert_eq!(
        vec![1, 2, 3, 1, 2, 3, 4, 5, 1, 2, 3, 6, 7, 8, b'\r', 9, 10, 1, 2, 3, 6, 7, 8],
        buffer.unwrap()
    );
}

#[test]
fn test_look_for_other_delimiter_sequentially() {
    let delimiter = vec![4, 5];
    let bytes1 = Bytes::new(vec![1, 2, 3, 4, 5], 5);
    let bytes2 = Bytes::new(vec![11, 12, 13, 4, 5], 5);
    let bytes3 = Bytes::new(vec![21, 22, 23, 4, 5], 5);

    let mut bytes = FragmentedBytes::new(vec![bytes1, bytes2, bytes3]);

    let buffer = look_for_delimiter(&mut bytes, &delimiter);
    assert!(buffer.is_some());
    assert_eq!(vec![1, 2, 3], buffer.unwrap());

    let buffer = look_for_delimiter(&mut bytes, &delimiter);
    assert!(buffer.is_some());
    assert_eq!(vec![11, 12, 13], buffer.unwrap());

    let buffer = look_for_delimiter(&mut bytes, &delimiter);
    assert!(buffer.is_some());
    assert_eq!(vec![21, 22, 23], buffer.unwrap());
}

#[test]
fn test_crlf_at_start() {
    let mut bytes = FragmentedBytes::new(vec![b"\r\nasdf".to_vec().into()]);
    let buffer = look_for_crlf(&mut bytes);
    assert!(buffer.is_some());
    assert_eq!(b"".to_vec(), buffer.unwrap());
}

#[test]
fn test_skip_crlf() {
    let mut buffer = vec![];
    for _i in 1..100 {
        buffer.push(b'\r');
        buffer.push(b'\n');
    }

    buffer.push(b'A');
    let len = buffer.len();
    let bytes = Bytes::new(buffer, len);
    let mut bytes = FragmentedBytes::new(vec![bytes]);

    let result = skip_initial_crlf(&mut bytes);
    assert!(result.unwrap());

    let buffer = bytes.copy_buffer(len - 1);
    assert_eq!(buffer, vec![65]);
}

#[test]
fn test_skip_crlf_no_lf_after_cr() {
    let mut buffer = vec![];
    for _i in 1..5 {
        buffer.push(b'\r');
        buffer.push(b'\n');
    }

    buffer.push(b'\r');
    let len = buffer.len();
    let bytes = Bytes::new(buffer, len);
    let mut bytes = FragmentedBytes::new(vec![bytes]);

    let result = skip_initial_crlf(&mut bytes);
    assert!(!result.unwrap());

    let buffer = bytes.copy_buffer(len - 1);
    assert_eq!(buffer, vec![13, 10, 13, 10, 13, 10, 13, 10, 13]);
}

#[test]
fn test_skip_crlf_no_char_to_read() {
    let mut buffer = vec![];
    for _i in 1..5 {
        buffer.push(b'\r');
        buffer.push(b'\n');
    }

    let len = buffer.len();
    let bytes = Bytes::new(buffer, len);
    let mut bytes = FragmentedBytes::new(vec![bytes]);

    let result = skip_initial_crlf(&mut bytes);
    assert!(!result.unwrap());

    let buffer = bytes.copy_buffer(len - 1);
    assert_eq!(buffer, vec![13, 10, 13, 10, 13, 10, 13, 10]);
}

fn rope_of(parts: Vec<&[u8]>) -> FragmentedBytes {
    FragmentedBytes::new(parts.into_iter().map(|p| p.to_vec().into()).collect())
}

#[test]
fn skip_takes_lone_line_feeds_too() {
    let mut bytes = rope_of(vec![b"\r\n\r", b"\n\n\nGET"]);
    assert!(skip_initial_crlf(&mut bytes).unwrap());
    assert_eq!(bytes.read_pos(), 6);
    assert_eq!(bytes.to_vec(), b"GET".to_vec());
}

#[test]
fn skip_on_a_first_byte_that_is_no_line_end_moves_nothing() {
    let mut bytes = rope_of(vec![b"GET"]);
    assert!(skip_initial_crlf(&mut bytes).unwrap());
    assert_eq!(bytes.read_pos(), 0);
}

#[test]
fn skip_on_empty_input_needs_more() {
    let mut bytes = FragmentedBytes::default();
    assert!(!skip_initial_crlf(&mut bytes).unwrap());
}

#[test]
fn skip_rejects_a_cr_without_lf() {
    let mut bytes = rope_of(vec![b"\r\n\r", b"G"]);
    let result = skip_initial_crlf(&mut bytes);
    match result {
        Err(Error::InvalidCrlf(message)) => assert_eq!(message, "a CR is not followed by LF"),
        other => panic!("expected InvalidCrlf, found {:?}", other),
    }
    assert_eq!(bytes.read_pos(), 0);
}

#[test]
fn find_takes_the_earliest_occurrence() {
    let mut bytes = rope_of(vec![b"ab\r\ncd\r\n"]);
    assert_eq!(look_for_crlf(&mut bytes), Some(b"ab".to_vec()));
    assert_eq!(bytes.read_pos(), 4);
    assert_eq!(look_for_crlf(&mut bytes), Some(b"cd".to_vec()));
    assert_eq!(bytes.read_pos(), 8);
    assert_eq!(look_for_crlf(&mut bytes), None);
    assert_eq!(bytes.read_pos(), 8);
}

#[test]
fn find_sees_a_delimiter_that_spans_fragments() {
    let mut bytes = rope_of(vec![b"ab\r", b"\n", b"\r", b"\ncd"]);
    assert_eq!(look_for_double_crlf(&mut bytes), Some(b"ab".to_vec()));
    assert_eq!(bytes.to_vec(), b"cd".to_vec());
}

#[test]
fn find_of_one_byte_at_the_very_start() {
    let mut bytes = rope_of(vec![b";rest"]);
    assert_eq!(look_for_delimiter(&mut bytes, &vec![b';']), Some(vec![]));
    assert_eq!(bytes.read_pos(), 1);
}

#[test]
fn find_with_overlapping_prefix() {
    let mut bytes = rope_of(vec![b"\r\r\n\r\n\r\nx"]);
    assert_eq!(look_for_double_crlf(&mut bytes), Some(b"\r".to_vec()));
    assert_eq!(bytes.to_vec(), b"\r\nx".to_vec());
}

#[test]
fn find_without_match_leaves_the_cursor() {
    let mut bytes = rope_of(vec![b"abc\r"]);
    bytes.set_read_pos(1);
    assert_eq!(look_for_crlf(&mut bytes), None);
    assert_eq!(bytes.read_pos(), 1);
}

#[test]
fn window_keeps_the_last_bytes() {
    let mut window = Vec::new();
    push_to_buffer(&mut window, 1, 3);
    push_to_buffer(&mut window, 2, 3);
    assert_eq!(window, vec![1, 2]);
    push_to_buffer(&mut window, 3, 3);
    assert_eq!(window, vec![1, 2, 3]);
    push_to_buffer(&mut window, 4, 3);
    assert_eq!(window, vec![2, 3, 4]);
    let mut single = vec![9];
    push_to_buffer(&mut single, 8, 1);
    assert_eq!(single, vec![8]);
}
