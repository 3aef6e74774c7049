use http11::errors::Error;
use http11::headers::{
    is_continued_field, is_valid_header_name, ContentLength, ExtensionHeader, Header, HeaderValue,
    Headers, Trailer, TransferEncoding, TransferEncodingValue,
};
use http11::text::join_strings;

#[test]
fn test_no_header() {
    let buffer = "";
    let result = Headers::try_from(buffer.to_string());
    assert!(result.is_ok());

    let result = result.unwrap();
    assert_eq!(result.len(), 0);
    assert_eq!(result.capacity(), 0);
}

#[test]
fn test_respond_throw_error_invalid_header_with_space_before_colon() {
    let buffer = "accept : */*\r\nuser-agent : abc";
    let result = Headers::try_from(buffer.to_string());
    assert!(result.is_err());

    let result = result.err().unwrap();
    let expected_error = Error::InvalidHeaderField(format!("accept "));
    assert_eq!(result.to_string(), expected_error.to_string());
}

#[test]
fn test_throw_error_for_header_field_continuation() {
    let buffer = "accept: */*\r\nuser-agent: abc\r\n\tcontinued";
    let result = Headers::try_from(buffer.to_string());
    assert!(result.is_err());

    let result = result.err().unwrap();
    let expected_error = Error::InvalidHeaderFormat(format!(
        "The line continuation with space or tab is not allowed:- \tcontinued"
    ));
    assert_eq!(result.to_string(), expected_error.to_string());
}

#[test]
fn test_when_no_colon_in_header_field() {
    let buffer = "accept */*\r\nuser-agent: abc";
    let result = Headers::try_from(buffer.to_string());
    assert!(result.is_err());

    let result = result.err().unwrap();
    let expected_error = Error::InvalidHeaderFormat(format!(
        "The header field line does not contain colon:- accept */*"
    ));
    assert_eq!(result.to_string(), expected_error.to_string());
}

#[test]
fn test_invalid_char_in_value() {
    let buffer = "accept: abcdfd\u{12}";
    let result = Headers::try_from(buffer.to_string());
    assert!(result.is_err());

    let result = result.err().unwrap();
    let expected_error = Error::InvalidHeaderFieldValue(format!("abcdfd\u{12}"));
    assert_eq!(result.to_string(), expected_error.to_string());
}

#[test]
fn test_valid_char_in_value() {
    let mut buffer = "accept: ab cd\t".to_string();
    for i in 33..=126 {
        buffer += std::str::from_utf8(&[i]).unwrap();
    }

    let result = Headers::try_from(buffer);
    assert!(result.is_ok());
}

fn extension_value(headers: &Headers, name: &str) -> Option<String> {
    match headers.get(name) {
        Some(HeaderValue::Extension(header)) => Some(header.value()),
        _ => None,
    }
}

#[test]
fn unknown_headers_are_kept_under_their_lower_case_name() {
    let headers = Headers::try_from("Host: x\r\nUser-Agent: abc".to_string()).unwrap();
    assert_eq!(headers.len(), 2);
    assert_eq!(extension_value(&headers, "host"), Some("x".to_string()));
    assert_eq!(extension_value(&headers, "user-agent"), Some("abc".to_string()));
    match headers.get("host") {
        Some(HeaderValue::Extension(header)) => {
            assert_eq!(header.name(), "host");
            assert_eq!(header.header_string(), "host: x");
        }
        other => panic!("expected an extension header, found {:?}", other),
    }
}

#[test]
fn lookup_ignores_the_case_of_the_name() {
    let headers = Headers::try_from("X-Trace-Id: 7".to_string()).unwrap();
    assert_eq!(extension_value(&headers, "x-trace-id"), Some("7".to_string()));
    assert_eq!(extension_value(&headers, "X-TRACE-ID"), Some("7".to_string()));
    assert_eq!(extension_value(&headers, "X-Trace-Id"), Some("7".to_string()));
    assert!(headers.get("x-trace").is_none());
}

#[test]
fn the_last_of_two_lines_with_one_name_stays() {
    let headers = Headers::try_from("Via: a\r\nHost: h\r\nvia: b\r\nVIA: c".to_string()).unwrap();
    assert_eq!(headers.len(), 2);
    assert_eq!(extension_value(&headers, "via"), Some("c".to_string()));
    assert_eq!(extension_value(&headers, "host"), Some("h".to_string()));
}

#[test]
fn values_lose_outer_blanks_and_inner_runs() {
    let headers = Headers::try_from("a: \t x  \t y \t".to_string()).unwrap();
    assert_eq!(extension_value(&headers, "a"), Some("x y".to_string()));
}

#[test]
fn empty_values_and_empty_lines_are_dropped() {
    let headers = Headers::try_from("a:\r\n\r\nb:  \t\r\nc: 1".to_string()).unwrap();
    assert_eq!(headers.len(), 1);
    assert!(headers.get("a").is_none());
    assert!(headers.get("b").is_none());
    assert_eq!(extension_value(&headers, "c"), Some("1".to_string()));
}

#[test]
fn a_line_that_starts_with_a_space_is_a_folded_line() {
    let result = Headers::try_from("a: 1\r\n b".to_string());
    match result {
        Err(Error::InvalidHeaderFormat(message)) => assert_eq!(
            message,
            "The line continuation with space or tab is not allowed:-  b"
        ),
        other => panic!("expected InvalidHeaderFormat, found {:?}", other),
    }
}

#[test]
fn an_empty_name_is_no_token() {
    let result = Headers::try_from(": 1".to_string());
    match result {
        Err(Error::InvalidHeaderField(message)) => {
            assert_eq!(message, "")
        }
        other => panic!("expected InvalidHeaderField, found {:?}", other),
    }
}

#[test]
fn a_name_outside_ascii_is_no_token() {
    let result = Headers::try_from("n\u{e4}me: 1".to_string());
    match result {
        Err(Error::InvalidHeaderField(message)) => {
            assert_eq!(message, "n\u{e4}me")
        }
        other => panic!("expected InvalidHeaderField, found {:?}", other),
    }
}

#[test]
fn the_kelvin_sign_is_not_folded_to_a_letter() {
    assert!(Headers::try_from("\u{212a}eep: 1".to_string()).is_err());
}

#[test]
fn only_space_and_tab_count_as_blanks_in_a_value() {
    let result = Headers::try_from("a: x\u{c}y".to_string());
    match result {
        Err(Error::InvalidHeaderFieldValue(value)) => assert_eq!(value, "x\u{c}y"),
        other => panic!("expected InvalidHeaderFieldValue, found {:?}", other),
    }
}

#[test]
fn the_first_bad_line_decides_the_error() {
    let result = Headers::try_from("a b\r\n\tc".to_string());
    assert!(matches!(result, Err(Error::InvalidHeaderFormat(m)) if m.ends_with(":- a b")));
}

#[test]
fn content_length_is_decimal_digits_only() {
    assert_eq!(ContentLength::try_from("0").unwrap().content_length(), 0);
    assert_eq!(ContentLength::try_from("42").unwrap().content_length(), 42);
    assert_eq!(ContentLength::try_from("007").unwrap().content_length(), 7);
    assert_eq!(ContentLength::try_from("007").unwrap().value(), "007");
    assert_eq!(ContentLength::try_from("5").unwrap().name(), "content-length");
    assert_eq!(ContentLength::try_from("5").unwrap().header_string(), "content-length: 5");
    for bad in ["", "+5", "-5", "5a", "a", "0x10", " 5", "5 ", "\u{661}"] {
        assert!(
            matches!(ContentLength::try_from(bad), Err(Error::InvalidContentLengthValue)),
            "{:?}",
            bad
        );
    }
}

#[test]
fn content_length_must_fit_the_word() {
    let max = usize::MAX.to_string();
    assert_eq!(ContentLength::try_from(&max).unwrap().content_length(), usize::MAX);
    let beyond = format!("{}0", max);
    assert!(matches!(ContentLength::try_from(&beyond), Err(Error::InvalidContentLengthValue)));
    let next = (usize::MAX as u128 + 1).to_string();
    assert!(matches!(ContentLength::try_from(&next), Err(Error::InvalidContentLengthValue)));
}

#[test]
fn content_length_in_a_block() {
    let headers = Headers::try_from("Content-Length: 12".to_string()).unwrap();
    assert_eq!(headers.content_length().unwrap().content_length(), 12);
    assert!(headers.transfer_encoding().is_none());
    assert!(headers.trailer().is_none());
    let result = Headers::try_from("Content-Length: 1 2".to_string());
    assert!(matches!(result, Err(Error::InvalidContentLengthValue)));
}

#[test]
fn transfer_encoding_lists_its_codings() {
    let header = TransferEncoding::try_from("gzip, Chunked").unwrap();
    assert!(header.has_transfer_encoding());
    assert!(header.is_chunked());
    assert_eq!(header.value(), "gzip, chunked");
    assert_eq!(header.name(), "transfer-encoding");
    assert_eq!(header.header_string(), "transfer-encoding: gzip, chunked");

    let header = TransferEncoding::try_from("chunked,gzip").unwrap();
    assert!(!header.is_chunked());
    assert_eq!(header.value(), "chunked, gzip");

    let header = TransferEncoding::try_from("gzip,,x").unwrap();
    assert_eq!(header.value(), "gzip, , x");
}

#[test]
fn transfer_encoding_without_codings() {
    let header = TransferEncoding::clone();
    assert!(!header.has_transfer_encoding());
    assert!(!header.is_chunked());
    assert_eq!(header.value(), "");
}

#[test]
fn a_coding_is_chunked_in_any_case_of_its_letters() {
    assert!(matches!(TransferEncodingValue::from("chunked"), TransferEncodingValue::Chunked));
    assert!(matches!(TransferEncodingValue::from("CHUNKED"), TransferEncodingValue::Chunked));
    match TransferEncodingValue::from("GZip") {
        TransferEncodingValue::Extension(name) => assert_eq!(name, "GZip"),
        other => panic!("expected an extension, found {:?}", other),
    }
    assert_eq!(TransferEncodingValue::from("ChUnKeD").to_string(), "chunked");
    assert_eq!(TransferEncodingValue::from("br").to_string(), "br");
}

#[test]
fn trailer_names_must_be_known() {
    let trailer = Trailer::try_from("content-length, , trailer,transfer-encoding").unwrap();
    assert_eq!(trailer.value(), "content-length, trailer, transfer-encoding");
    assert_eq!(trailer.name(), "trailer");
    match Trailer::try_from("content-length, expires, other") {
        Err(Error::InvalidHeaderField(name)) => assert_eq!(name, "expires"),
        other => panic!("expected InvalidHeaderField, found {:?}", other),
    }
    assert!(Trailer::try_from("Content-Length").is_err());
    assert_eq!(Trailer::try_from("").unwrap().value(), "");
}

#[test]
fn trailer_in_a_block() {
    let headers = Headers::try_from("Trailer: content-length".to_string()).unwrap();
    assert_eq!(headers.trailer().unwrap().value(), "content-length");
    let result = Headers::try_from("Trailer: expires".to_string());
    assert!(matches!(result, Err(Error::InvalidHeaderField(name)) if name == "expires"));
}

#[test]
fn known_names() {
    assert!(is_valid_header_name("transfer-encoding"));
    assert!(is_valid_header_name("content-length"));
    assert!(is_valid_header_name("trailer"));
    assert!(!is_valid_header_name("Trailer"));
    assert!(!is_valid_header_name("host"));
    assert!(!is_valid_header_name(""));
}

#[test]
fn header_by_name_and_value() {
    assert!(matches!(Headers::get_header_struct("host", ""), Ok(None)));
    assert!(matches!(
        Headers::get_header_struct("content-length", "3"),
        Ok(Some(HeaderValue::ContentLength(_)))
    ));
    assert!(matches!(
        Headers::get_header_struct("transfer-encoding", "chunked"),
        Ok(Some(HeaderValue::TransferEncoding(_)))
    ));
    assert!(matches!(
        Headers::get_header_struct("trailer", "trailer"),
        Ok(Some(HeaderValue::Trailer(_)))
    ));
    assert!(matches!(
        Headers::get_header_struct("content-length", "x"),
        Err(Error::InvalidContentLengthValue)
    ));
    match Headers::get_header_struct("host", "x") {
        Ok(Some(header)) => assert_eq!(header.name(), "host"),
        other => panic!("expected a header, found {:?}", other),
    }
}

#[test]
fn the_store_has_room_for_what_it_holds() {
    let headers = Headers::try_from("a: 1\r\nb: 2\r\nc: 3".to_string()).unwrap();
    assert_eq!(headers.len(), 3);
    assert!(headers.capacity() >= 3);
    assert_eq!(Headers::new().capacity(), 0);
}

#[test]
fn insert_replaces_a_header_of_the_same_name() {
    let mut headers = Headers::new();
    headers.insert(HeaderValue::Extension(ExtensionHeader::new("a", "1")));
    headers.insert(HeaderValue::Extension(ExtensionHeader::new("b", "2")));
    headers.insert(HeaderValue::Extension(ExtensionHeader::new("a", "3")));
    assert_eq!(headers.len(), 2);
    assert_eq!(extension_value(&headers, "a"), Some("3".to_string()));
    assert_eq!(extension_value(&headers, "b"), Some("2".to_string()));
}

#[test]
fn folded_lines_start_with_a_blank() {
    assert!(is_continued_field(&vec![' ', 'a']));
    assert!(is_continued_field(&vec!['\t']));
    assert!(!is_continued_field(&vec!['a', ' ']));
    assert!(!is_continued_field(&vec![]));
}

#[test]
fn strings_are_joined_with_the_separator_between() {
    assert_eq!(join_strings(&vec![], ", "), "");
    assert_eq!(join_strings(&vec!["a".to_string()], ", "), "a");
    assert_eq!(join_strings(&vec!["a".to_string(), "b".to_string(), "".to_string()], ", "), "a, b, ");
}
