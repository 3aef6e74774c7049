use http11::connection::{next_action, Action, Event, FRAME_SIZE};
use http11::request::RequestBuilder;
use http11::response::{status_line, Response};
use http11::status::StatusCode;
use http11::App;

fn frame(bytes: &[u8]) -> Event {
    let mut buffer = bytes.to_vec();
    buffer.resize(FRAME_SIZE, 0);
    Event::Read(buffer, bytes.len())
}

#[test]
fn a_connection_reads_until_the_request_is_complete() {
    let mut builder = RequestBuilder::new();
    assert!(matches!(next_action(&mut builder, Event::WouldBlock), Action::Read));
    assert!(matches!(next_action(&mut builder, frame(b"GET / HTTP/1.1\r\n")), Action::Read));
    assert!(matches!(next_action(&mut builder, Event::WouldBlock), Action::Read));
    assert!(matches!(next_action(&mut builder, frame(b"Host: x\r\n\r\n")), Action::Dispatch));
    assert!(builder.build().is_ok());
}

#[test]
fn a_connection_refuses_what_is_no_request() {
    let mut builder = RequestBuilder::new();
    match next_action(&mut builder, frame(b"GET / HTTP/0.9\r\n")) {
        Action::Refuse(code) => assert_eq!(code.as_u16(), 400),
        other => panic!("expected a refusal, found {:?}", other),
    }
    match next_action(&mut builder, frame(b"more")) {
        Action::Refuse(code) => assert_eq!(code.as_u16(), 400),
        other => panic!("expected a refusal, found {:?}", other),
    }
}

#[test]
fn a_connection_closes_at_the_end_of_the_stream() {
    let mut builder = RequestBuilder::new();
    assert!(matches!(next_action(&mut builder, frame(b"GET / HT")), Action::Read));
    assert!(matches!(next_action(&mut builder, Event::EndOfStream), Action::Close));
    assert!(matches!(next_action(&mut builder, Event::Failed), Action::Close));
    assert_eq!(builder.buffered_len(), 8);
}

#[test]
fn a_frame_that_claims_more_than_it_holds_is_not_taken() {
    let mut builder = RequestBuilder::new();
    match next_action(&mut builder, Event::Read(b"GET".to_vec(), 4)) {
        Action::Refuse(code) => assert_eq!(code.as_u16(), 500),
        other => panic!("expected a refusal, found {:?}", other),
    }
    assert_eq!(builder.buffered_len(), 0);
}

#[test]
fn status_codes_have_three_digits() {
    for code in [0u16, 1, 99, 1000, 1001, u16::MAX] {
        assert!(StatusCode::from_u16(code).is_err());
    }
    for code in [100u16, 101, 200, 404, 999] {
        assert_eq!(StatusCode::from_u16(code).unwrap().as_u16(), code);
    }
    assert_eq!(StatusCode::continue_().as_u16(), 100);
    assert_eq!(StatusCode::ok().as_u16(), 200);
    assert_eq!(StatusCode::bad_request().as_u16(), 400);
    assert_eq!(StatusCode::not_found().as_u16(), 404);
    assert_eq!(StatusCode::internal_server_error().as_u16(), 500);
}

#[test]
fn reason_phrases() {
    assert_eq!(StatusCode::reason(100), Some("Continue"));
    assert_eq!(StatusCode::reason(200), Some("OK"));
    assert_eq!(StatusCode::reason(400), Some("Bad Request"));
    assert_eq!(StatusCode::reason(404), Some("Not Found"));
    assert_eq!(StatusCode::reason(500), Some("Internal Server Error"));
    assert_eq!(StatusCode::reason(201), None);
    assert_eq!(StatusCode::reason(0), None);
}

#[test]
fn status_lines() {
    assert_eq!(status_line(StatusCode::ok()), "HTTP/1.1 200 OK\r\n");
    assert_eq!(status_line(StatusCode::bad_request()), "HTTP/1.1 400 Bad Request\r\n");
    assert_eq!(status_line(StatusCode::from_u16(907).unwrap()), "HTTP/1.1 907 \r\n");
    assert_eq!(status_line(StatusCode::from_u16(100).unwrap()), "HTTP/1.1 100 Continue\r\n");
}

#[test]
fn a_new_response_is_neither_ready_nor_sent() {
    let mut response = Response::new();
    assert!(!response.is_response_ready());
    assert!(!response.is_sent());
    response.send_code(StatusCode::ok());
    assert!(!response.is_response_ready());
    assert!(!response.is_sent());
}

#[test]
fn an_application_can_be_made() {
    let app = App::new();
    assert_eq!(format!("{:?}", app), "App");
}
