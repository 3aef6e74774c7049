use http11::errors::Error;
use http11::headers::Headers;
use http11::helpers::bytes::{Bytes, FragmentedBytes};
use http11::request::request_body_builder::{ChunkedBody, PartialRequestBody, RequestBodyBuilder};
use http11::request::RequestBody;

fn empty_message_headers() -> Headers {
    Headers::try_from("".to_string()).unwrap()
}

fn create_fragmented_bytes(bytes: Vec<&[u8]>) -> FragmentedBytes {
    let bytes: Vec<Bytes> = bytes.into_iter().map(|v| v.to_vec().into()).collect();
    FragmentedBytes::new(bytes)
}

#[test]
fn test_whole_body() {
    let headers = empty_message_headers();
    const BODY_LENGTH: usize = 20;
    let mut builder = RequestBodyBuilder::new_whole(BODY_LENGTH);
    let bytes1 = Bytes::new(vec![1, 2, 3], 3);
    let mut bytes = FragmentedBytes::new(vec![bytes1]);

    assert!(!builder.is_parsed());
    assert!(!builder.is_chunked());
    assert_eq!(builder.body_length(), BODY_LENGTH);

    builder.parse(&mut bytes, &headers).unwrap();
    assert!(!builder.is_parsed());
    assert!(!builder.is_chunked());
    assert_eq!(builder.body_length(), BODY_LENGTH);

    let bytes1 = Bytes::new(vec![4, 5, 6, 7, 8, 9, 10], 7);
    bytes.push_bytes(bytes1);
    builder.parse(&mut bytes, &headers).unwrap();
    assert!(!builder.is_parsed());
    assert!(!builder.is_chunked());
    assert_eq!(builder.body_length(), BODY_LENGTH);

    let bytes1 = Bytes::new(vec![14, 15, 16, 17, 18, 19, 20], 7);
    bytes.push_bytes(bytes1);
    builder.parse(&mut bytes, &headers).unwrap();
    assert!(!builder.is_parsed());
    assert!(!builder.is_chunked());
    assert_eq!(builder.body_length(), BODY_LENGTH);

    let bytes1 = Bytes::new(vec![21, 22, 23, 24], 4);
    bytes.push_bytes(bytes1);
    builder.parse(&mut bytes, &headers).unwrap();
    assert!(builder.is_parsed());
    assert!(!builder.is_chunked());
    assert_eq!(builder.body_length(), BODY_LENGTH);

    assert!(matches!(builder.body(), PartialRequestBody::Whole(_)));
    if let PartialRequestBody::Whole(b) = builder.body() {
        // the body is the announced twenty bytes; the one byte behind them
        // stays in the rope for the request that follows
        assert_eq!(b.total_len(), 20);
        assert_eq!(b.read_pos(), 0);
    }
    assert_eq!(bytes.to_vec(), vec![24]);
}

#[test]
fn test_valid() {
    let mut bytes = create_fragmented_bytes(vec![b"1A", b";ext1", b";ext2=v2", b" ; ext3=v3", b"\r\n"]);

    let chunk_data = RequestBodyBuilder::get_chunk_data(&mut bytes);
    assert!(chunk_data.is_ok());

    let (chunk_size, ext) = chunk_data.unwrap().unwrap();
    assert_eq!(chunk_size, 26);
    assert_eq!(ext, vec!["ext1", "ext2=v2", "ext3=v3"]);
}

#[test]
fn test_invalid_chunk_size() {
    let mut bytes = create_fragmented_bytes(vec![b"0S", b";ext1", b";ext2=v2", b" ; ext3=v3", b"\r\n"]);

    let chunk_data = RequestBodyBuilder::get_chunk_data(&mut bytes);
    assert!(chunk_data.is_err());

    let expected_error = Error::ParseIntError("0S".to_string());

    assert_eq!(chunk_data.err().unwrap().to_string(), expected_error.to_string());
}

#[test]
fn test_incomplete_chunk() {
    let mut bytes = create_fragmented_bytes(vec![b"0S", b";ext1", b";ext2=v2", b" ; ext3=v3", b"\r"]);

    let chunk_data = RequestBodyBuilder::get_chunk_data(&mut bytes);
    assert!(chunk_data.is_ok());
    let chunk_data = chunk_data.unwrap();
    assert!(chunk_data.is_none());
}

#[test]
fn test_chunked_in_one_pass() {
    let headers = empty_message_headers();
    let mut builder = RequestBodyBuilder::new_chunked();

    let buffer = b"A\r\nabcdefghij\r\nA;ext1=1;ext2=2\r\nklmnopqrst\r\n0\r\n";

    let mut bytes = FragmentedBytes::new(vec![buffer.to_vec().into()]);

    builder.parse(&mut bytes, &headers).unwrap();
    // the last chunk was read; the empty line that ends the body is awaited
    assert!(!builder.is_parsed());
    bytes.push_bytes(b"\r\n".to_vec().into());
    builder.parse(&mut bytes, &headers).unwrap();
    assert!(builder.is_parsed());

    match builder.body() {
        PartialRequestBody::Chunked(b) => {
            assert!(b.is_completed());
            assert!(!b.has_pending());

            let mut expected_chunks = FragmentedBytes::default();
            expected_chunks.push_bytes(b"abcdefghij".to_vec().into());
            expected_chunks.push_bytes(b"klmnopqrst".to_vec().into());
            assert_eq!(b.chunks().to_fragments(), expected_chunks.to_fragments());
            assert_eq!(b.chunks().read_pos(), expected_chunks.read_pos());
            assert_eq!(b.chunks().total_len(), expected_chunks.total_len());
        }

        PartialRequestBody::Whole(_) => {
            panic!("Expected chunked body");
        }
    }
}

#[test]
fn test_chunked_in_multiple_pass() {
    let headers = empty_message_headers();
    let mut builder = RequestBodyBuilder::new_chunked();

    // incomplete CRLF of first line of the chunk
    let buffer = b"A\r";
    let mut bytes = FragmentedBytes::new(vec![buffer.to_vec().into()]);
    builder.parse(&mut bytes, &headers).unwrap();
    assert!(!builder.is_parsed());

    // total length was 10, 6 is passed
    let buffer = b"\nabcdef";
    bytes.push_bytes(buffer.to_vec().into());
    builder.parse(&mut bytes, &headers).unwrap();
    assert!(!builder.is_parsed());

    // last CRLF is not yet received
    let buffer = b"ghij";
    bytes.push_bytes(buffer.to_vec().into());
    builder.parse(&mut bytes, &headers).unwrap();
    assert!(!builder.is_parsed());

    // complete CRLF of first line of the chunk
    let buffer = b"\r\n0b\r\n";
    bytes.push_bytes(buffer.to_vec().into());
    builder.parse(&mut bytes, &headers).unwrap();
    assert!(!builder.is_parsed());

    // last CRLF also received
    let buffer = b"12345678910\r\n";
    bytes.push_bytes(buffer.to_vec().into());
    builder.parse(&mut bytes, &headers).unwrap();
    assert!(!builder.is_parsed());

    // first line incomplete of the last chunk
    let buffer = b"0";
    bytes.push_bytes(buffer.to_vec().into());
    builder.parse(&mut bytes, &headers).unwrap();
    assert!(!builder.is_parsed());

    // first line complete of the last chunk
    let buffer = b"00\r\n";
    bytes.push_bytes(buffer.to_vec().into());
    builder.parse(&mut bytes, &headers).unwrap();
    // the empty line that ends the body is still awaited
    assert!(!builder.is_parsed());
    bytes.push_bytes(b"\r\n".to_vec().into());
    builder.parse(&mut bytes, &headers).unwrap();
    assert!(builder.is_parsed());

    match builder.body() {
        PartialRequestBody::Chunked(b) => {
            assert!(b.is_completed());
            assert!(!b.has_pending());

            let mut expected_chunks = FragmentedBytes::default();
            expected_chunks.push_bytes(b"abcdefghij".to_vec().into());
            expected_chunks.push_bytes(b"12345678910".to_vec().into());
            assert_eq!(b.chunks().to_fragments(), expected_chunks.to_fragments());
            assert_eq!(b.chunks().read_pos(), expected_chunks.read_pos());
            assert_eq!(b.chunks().total_len(), expected_chunks.total_len());
        }

        PartialRequestBody::Whole(_) => {
            panic!("Expected chunked body");
        }
    }
}

fn chunked_body_of(parts: Vec<&[u8]>) -> (RequestBodyBuilder, FragmentedBytes, Result<(), Error>) {
    let headers = empty_message_headers();
    let mut builder = RequestBodyBuilder::new_chunked();
    let mut bytes = FragmentedBytes::default();
    let mut result = Ok(());
    for part in parts {
        bytes.push_bytes(part.to_vec().into());
        result = builder.parse(&mut bytes, &headers);
        if result.is_err() {
            break;
        }
    }
    (builder, bytes, result)
}

#[test]
fn chunked_body_is_the_payloads_without_the_framing() {
    let (builder, bytes, result) =
        chunked_body_of(vec![b"3\r\nabc\r\n1;x=y\r\nd\r\n0\r\n\r\nNEXT"]);
    assert!(result.is_ok());
    assert!(builder.is_parsed());
    assert_eq!(bytes.to_vec(), b"NEXT".to_vec());
    match builder.build() {
        RequestBody::Chunked(rope) => assert_eq!(rope.to_vec(), b"abcd".to_vec()),
        other => panic!("expected a chunked body, found {:?}", other),
    }
}

#[test]
fn chunked_body_byte_by_byte() {
    let stream = b"3\r\nabc\r\n1;x=y\r\nd\r\n0\r\n\r\n";
    let parts: Vec<&[u8]> = stream.chunks(1).collect();
    let (builder, bytes, result) = chunked_body_of(parts);
    assert!(result.is_ok());
    assert!(builder.is_parsed());
    assert_eq!(bytes.to_vec(), Vec::<u8>::new());
    assert_eq!(builder.build().to_vec(), b"abcd".to_vec());
}

#[test]
fn chunk_data_may_hold_line_ends() {
    let (builder, _, result) = chunked_body_of(vec![b"4\r\n\r\n\r\n\r\n0\r\n\r\n"]);
    assert!(result.is_ok());
    assert!(builder.is_parsed());
    assert_eq!(builder.build().to_vec(), b"\r\n\r\n".to_vec());
}

#[test]
fn trailer_lines_are_passed_over() {
    let (builder, bytes, result) =
        chunked_body_of(vec![b"1\r\na\r\n0\r\nExpires: never\r\nX: y\r\n", b"\r\nrest"]);
    assert!(result.is_ok());
    assert!(builder.is_parsed());
    assert_eq!(bytes.to_vec(), b"rest".to_vec());
    assert_eq!(builder.build().to_vec(), b"a".to_vec());
}

#[test]
fn trailer_without_its_end_needs_more() {
    let (builder, bytes, result) = chunked_body_of(vec![b"0\r\nExpires: never\r\n"]);
    assert!(result.is_ok());
    assert!(!builder.is_parsed());
    assert_eq!(bytes.to_vec(), b"Expires: never\r\n".to_vec());
}

#[test]
fn chunk_data_must_be_followed_by_crlf() {
    let (builder, bytes, result) = chunked_body_of(vec![b"2\r\nabXY"]);
    match result {
        Err(Error::InvalidCrlf(message)) => {
            assert_eq!(message, "the data of a chunk is not followed by CR LF")
        }
        other => panic!("expected InvalidCrlf, found {:?}", other),
    }
    assert!(!builder.is_parsed());
    assert_eq!(bytes.to_vec(), b"XY".to_vec());
}

#[test]
fn chunk_terminator_may_arrive_late() {
    let (builder, bytes, result) = chunked_body_of(vec![b"2\r\nab", b"\r"]);
    assert!(result.is_ok());
    assert!(!builder.is_parsed());
    assert_eq!(bytes.to_vec(), b"\r".to_vec());
    match builder.body() {
        PartialRequestBody::Chunked(body) => assert_eq!(body.chunks().to_vec(), b"ab".to_vec()),
        other => panic!("expected a chunked body, found {:?}", other),
    }
}

#[test]
fn chunk_header_that_is_no_text() {
    let mut bytes = create_fragmented_bytes(vec![b"1;\xff\r\n"]);
    match RequestBodyBuilder::get_chunk_data(&mut bytes) {
        Err(Error::InvalidUtf8String(raw)) => assert_eq!(raw, b"1;\xff".to_vec()),
        other => panic!("expected InvalidUtf8String, found {:?}", other),
    }
}

#[test]
fn chunk_sizes() {
    for (line, expected) in [("0", 0usize), ("ff", 255), ("FF", 255), (" 1f ", 31), ("0010", 16)] {
        let mut bytes = create_fragmented_bytes(vec![line.as_bytes(), b"\r\n"]);
        let (size, extensions) = RequestBodyBuilder::get_chunk_data(&mut bytes).unwrap().unwrap();
        assert_eq!(size, expected);
        assert!(extensions.is_empty());
    }
    for bad in ["", "+1", "-1", "0x1", "g", "1 2"] {
        let mut bytes = create_fragmented_bytes(vec![bad.as_bytes(), b"\r\n"]);
        match RequestBodyBuilder::get_chunk_data(&mut bytes) {
            Err(Error::ParseIntError(raw)) => assert_eq!(raw, bad),
            other => panic!("expected ParseIntError, found {:?}", other),
        }
    }
    let beyond = format!("{:x}0", usize::MAX);
    let mut bytes = create_fragmented_bytes(vec![beyond.as_bytes(), b"\r\n"]);
    assert!(matches!(RequestBodyBuilder::get_chunk_data(&mut bytes), Err(Error::ParseIntError(_))));
    let most = format!("{:x}", usize::MAX);
    let mut bytes = create_fragmented_bytes(vec![most.as_bytes(), b"\r\n"]);
    assert_eq!(RequestBodyBuilder::get_chunk_data(&mut bytes).unwrap().unwrap().0, usize::MAX);
}

#[test]
fn chunk_extensions_may_be_any_text() {
    let mut bytes = create_fragmented_bytes(vec!["a; \u{e9}t\u{e9} ;;x".as_bytes(), b"\r\n"]);
    let (size, extensions) = RequestBodyBuilder::get_chunk_data(&mut bytes).unwrap().unwrap();
    assert_eq!(size, 10);
    assert_eq!(extensions, vec!["\u{e9}t\u{e9}", "", "x"]);
}

#[test]
fn pending_chunk_is_remembered() {
    let mut body = ChunkedBody::new();
    assert!(!body.has_pending());
    assert!(body.get_pending().is_none());
    body.set_pending(5, vec!["a".to_string()]);
    assert!(body.has_pending());
    assert_eq!(body.get_pending(), Some((5, vec!["a".to_string()])));
    assert!(!body.has_pending());
    body.push_back(vec![1, 2]);
    body.push_back(vec![3]);
    assert_eq!(body.chunks().to_vec(), vec![1, 2, 3]);
    assert!(!body.is_completed());
}

#[test]
fn push_buffer_adds_to_a_chunked_body_only() {
    let mut chunked = PartialRequestBody::Chunked(ChunkedBody::new());
    chunked.push_buffer(vec![1]);
    match &chunked {
        PartialRequestBody::Chunked(body) => assert_eq!(body.chunks().to_vec(), vec![1]),
        other => panic!("expected a chunked body, found {:?}", other),
    }
    let mut whole = PartialRequestBody::Whole(FragmentedBytes::default());
    whole.push_buffer(vec![1]);
    match &whole {
        PartialRequestBody::Whole(rope) => assert_eq!(rope.total_len(), 0),
        other => panic!("expected a body of fixed length, found {:?}", other),
    }
}

#[test]
fn whole_body_of_no_bytes_is_received_at_once() {
    let headers = empty_message_headers();
    let mut builder = RequestBodyBuilder::new_whole(0);
    let mut bytes = create_fragmented_bytes(vec![b"GET"]);
    assert!(!builder.is_parsed());
    builder.parse(&mut bytes, &headers).unwrap();
    assert!(builder.is_parsed());
    assert_eq!(bytes.to_vec(), b"GET".to_vec());
    assert_eq!(builder.build().to_vec(), Vec::<u8>::new());
}

#[test]
fn whole_body_takes_its_bytes_once() {
    let headers = empty_message_headers();
    let mut builder = RequestBodyBuilder::new_whole(2);
    let mut bytes = create_fragmented_bytes(vec![b"a", b"bcd"]);
    builder.parse(&mut bytes, &headers).unwrap();
    assert!(builder.is_parsed());
    builder.parse(&mut bytes, &headers).unwrap();
    assert_eq!(bytes.to_vec(), b"cd".to_vec());
    match builder.build() {
        RequestBody::Whole(rope) => assert_eq!(rope.to_vec(), b"ab".to_vec()),
        other => panic!("expected a body of fixed length, found {:?}", other),
    }
}

#[test]
fn body_length_can_be_set() {
    let mut builder = RequestBodyBuilder::new_whole(2);
    builder.set_body_length(3);
    assert_eq!(builder.body_length(), 3);
}
