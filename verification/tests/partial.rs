use http11::errors::Error;
use http11::helpers::bytes::Bytes;
use http11::request::partial::{
    can_skip_initial_crlf, parse_request_uri, parse_token, skip_initial_crlf, PartialRequest,
    RequestBuilder,
};
use http11::request::HttpMethods;

#[test]
fn test_remove_initial_empty_lines() {
    let buffer = b"\r\n\r\n\n\nGET HTTP/1.1";
    let builder = RequestBuilder::parse(buffer);
    assert!(builder.method().is_some());
}

#[test]
fn test_use_parse_more() {
    let buffer = b"GE";
    let mut builder = RequestBuilder::parse(buffer);
    assert!(builder.method().is_none());
    assert!(builder.partial().has_partial());

    let buffer = b"T /abc";
    builder.parse_more(buffer);

    assert!(builder.method().is_some());
    assert!(
        matches!(builder.method(), Some(HttpMethods::GET)),
        "expected method {:?}; found {:?}",
        HttpMethods::GET,
        builder.method()
    );
}

#[test]
fn test_parse_uri() {
    let buffer = b"\r\n\r\n\n\nGET /abc ";
    let builder = RequestBuilder::parse(buffer);

    assert!(builder.method().is_some());
    assert!(builder.uri().is_some());
    assert!(matches!(builder.uri(), Some(..)));

    assert_eq!(builder.uri().as_ref().unwrap().uri(), &String::from("/abc"));
}

#[test]
fn test_partial_parse_uri() {
    let buffer = b"GE";
    let mut builder = RequestBuilder::parse(buffer);
    assert!(builder.method().is_none());
    assert!(builder.uri().is_none());
    assert!(builder.partial().has_partial());

    let buffer = b"T /ab";
    builder.parse_more(buffer);

    assert!(builder.method().is_some());
    assert!(builder.uri().is_none());
    assert!(builder.partial().has_partial());
    assert!(matches!(builder.method(), Some(HttpMethods::GET)));

    let buffer = b"cd ";
    builder.parse_more(buffer);

    assert!(builder.method().is_some());
    assert!(builder.uri().is_some());
    assert!(matches!(builder.uri(), Some(..)));

    assert_eq!(builder.uri().as_ref().unwrap().uri(), &String::from("/abcd"));
}

#[test]
fn a_field_cut_twice_is_kept_whole() {
    let mut builder = RequestBuilder::parse(b"D");
    builder.parse_more(b"ELE");
    assert!(matches!(builder.partial(), PartialRequest::Method(v) if v == b"DELE"));
    builder.parse_more(b"TE /a");
    assert!(matches!(builder.method(), Some(HttpMethods::DELETE)));
    builder.parse_more(b"/b");
    assert!(matches!(builder.partial(), PartialRequest::RequestUri(v) if v == b"/a/b"));
    builder.parse_more(b"/c HTTP/1.1");
    assert_eq!(builder.uri().as_ref().unwrap().uri(), "/a/b/c");
    assert!(!builder.partial().has_partial());
    assert!(!builder.is_parsed());
}

#[test]
fn a_new_reader_holds_nothing() {
    let builder = RequestBuilder::new();
    assert!(builder.method().is_none());
    assert!(builder.uri().is_none());
    assert!(builder.partial().is_uninit());
    assert!(!builder.partial().has_partial());
    assert!(!builder.is_parsed());
}

#[test]
fn an_empty_first_buffer() {
    let builder = RequestBuilder::parse(b"");
    assert!(builder.method().is_none());
    assert!(matches!(builder.partial(), PartialRequest::Method(v) if v.is_empty()));
}

#[test]
fn pieces_by_their_kind() {
    assert!(PartialRequest::Complete(vec![]).is_complete());
    assert!(!PartialRequest::Complete(vec![]).has_partial());
    assert!(PartialRequest::Uninit.is_uninit());
    assert!(PartialRequest::Method(vec![]).has_partial());
    assert!(PartialRequest::RequestUri(vec![]).has_partial());
    assert!(PartialRequest::HttpVersion(vec![]).has_partial());
    assert!(PartialRequest::Token(vec![]).has_partial());
}

#[test]
fn tokens_end_at_a_space_or_at_the_end() {
    let mut bytes: Bytes = b"GET /".to_vec().into();
    assert!(matches!(parse_token(&mut bytes), Ok(PartialRequest::Complete(v)) if v == b"GET"));
    assert_eq!(bytes.current_pos(), 4);
    assert!(matches!(parse_token(&mut bytes), Err(Error::Token)));
    assert_eq!(bytes.current_pos(), 5);
    assert!(matches!(parse_token(&mut bytes), Ok(PartialRequest::Token(v)) if v.is_empty()));

    let mut bytes: Bytes = b"PO".to_vec().into();
    assert!(matches!(parse_token(&mut bytes), Ok(PartialRequest::Token(v)) if v == b"PO"));
    assert_eq!(bytes.current_pos(), 2);

    let mut bytes: Bytes = b" x".to_vec().into();
    assert!(matches!(parse_token(&mut bytes), Ok(PartialRequest::Complete(v)) if v.is_empty()));
    assert_eq!(bytes.current_pos(), 1);
}

#[test]
fn targets_end_at_a_space_or_at_the_end() {
    let mut bytes: Bytes = b"/a?b=c HTTP".to_vec().into();
    assert!(matches!(parse_request_uri(&mut bytes), Ok(PartialRequest::Complete(v)) if v == b"/a?b=c"));
    assert_eq!(bytes.current_pos(), 7);
    assert!(matches!(parse_request_uri(&mut bytes), Ok(PartialRequest::RequestUri(v)) if v == b"HTTP"));
    assert_eq!(bytes.current_pos(), 11);
}

#[test]
fn empty_lines_of_a_buffer_are_stepped_over() {
    let mut bytes: Bytes = b"\r\n\n\r\nG".to_vec().into();
    skip_initial_crlf(&mut bytes);
    assert_eq!(bytes.current_pos(), 5);
    assert_eq!(bytes.peek(), Some(b'G'));
    let mut bytes: Bytes = b"\n\n".to_vec().into();
    skip_initial_crlf(&mut bytes);
    assert_eq!(bytes.current_pos(), 2);
}

#[test]
fn a_first_buffer_can_be_tested_before_it_is_read() {
    assert!(RequestBuilder::can_parse(b""));
    assert!(RequestBuilder::can_parse(b"GE"));
    assert!(RequestBuilder::can_parse(b"\r\n\nGET /abc "));
    assert!(RequestBuilder::can_parse(b"GET /\xc3\xa9 "));
    assert!(RequestBuilder::can_parse(b"GET /\xff"));
    assert!(!RequestBuilder::can_parse(b"\rGET / "));
    assert!(!RequestBuilder::can_parse(b"\r\n\r"));
    assert!(!RequestBuilder::can_parse(b"G@T / "));
    assert!(!RequestBuilder::can_parse(b"GET /\xff "));
    assert!(!RequestBuilder::can_parse(b"GET /\xc3 HTTP/1.1"));
}

#[test]
fn a_further_buffer_can_be_tested_before_it_is_read() {
    let mut builder = RequestBuilder::parse(b"GE");
    assert!(builder.can_parse_more(b"T /a"));
    assert!(builder.can_parse_more(b""));
    assert!(!builder.can_parse_more(b"T: /a"));
    assert!(!builder.can_parse_more(b"T /\xff "));
    builder.parse_more(b"T /\xc3");
    assert!(builder.can_parse_more(b"\xa9 "));
    assert!(builder.can_parse_more(b"\xa9"));
    assert!(!builder.can_parse_more(b" "));
    assert!(!builder.can_parse_more(b"x "));
    builder.parse_more(b"\xa9 HTTP/1.1");
    assert_eq!(builder.uri().as_ref().unwrap().uri(), "/\u{e9}");
    assert!(builder.can_parse_more(b"\xff anything"));
}

#[test]
fn empty_lines_can_be_tested_before_they_are_stepped_over() {
    assert!(can_skip_initial_crlf(&b"\r\n\nG".to_vec().into()));
    assert!(can_skip_initial_crlf(&b"".to_vec().into()));
    assert!(can_skip_initial_crlf(&b"G\r".to_vec().into()));
    assert!(!can_skip_initial_crlf(&b"\r".to_vec().into()));
    assert!(!can_skip_initial_crlf(&b"\n\rG".to_vec().into()));
}
