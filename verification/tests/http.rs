use rusteze::http::{
    begin_exchange, build_response, internal_error_response, request_line, ExchangeAction,
    ExchangeEvent, ExchangeState, HTTPHandler, RequestLineError,
};

const ERROR_500: &[u8] =
    b"HTTP/1.1 500 Internal Server Error\r\nContent-Length: 0\r\nConnection: close\r\n\r\n";

fn write_bytes(a: &ExchangeAction) -> Vec<u8> {
    match a {
        ExchangeAction::Write(b) => b.clone(),
        _ => panic!("expected a write"),
    }
}

#[test]
fn handler_address_and_templates() {
    let h = HTTPHandler::new("127.0.0.1", "8080");
    assert_eq!(h.address(), "127.0.0.1:8080");
    assert_eq!(h.template_path("index"), Some("./templates/index.html".to_string()));
    assert_eq!(h.template_path("404"), Some("./templates/404.html".to_string()));
    assert_eq!(h.template_path("other"), None);
}

#[test]
fn request_line_strips_crlf() {
    assert_eq!(request_line(b"GET / HTTP/1.1\r\n"), Ok(b"GET / HTTP/1.1".to_vec()));
}

#[test]
fn request_line_strips_lf() {
    assert_eq!(request_line(b"abc\n"), Ok(b"abc".to_vec()));
}

#[test]
fn request_line_without_ending() {
    assert_eq!(request_line(b"abc"), Ok(b"abc".to_vec()));
}

#[test]
fn request_line_lone_carriage_return_stays() {
    assert_eq!(request_line(b"abc\r"), Ok(b"abc\r".to_vec()));
}

#[test]
fn request_line_only_newline_is_empty_line() {
    assert_eq!(request_line(b"\r\n"), Ok(Vec::new()));
}

#[test]
fn request_line_empty_read_is_error() {
    assert_eq!(request_line(b""), Err(RequestLineError::Empty));
}

#[test]
fn request_line_invalid_utf8_is_error() {
    assert_eq!(request_line(&[0xff, b'\n']), Err(RequestLineError::InvalidUtf8));
}

#[test]
fn route_index() {
    let h = HTTPHandler::new("h", "1");
    let (status, path) = h.route(b"GET / HTTP/1.1");
    assert_eq!(status, "HTTP/1.1 200 OK");
    assert_eq!(path, "./templates/index.html");
}

#[test]
fn route_anything_else_is_not_found() {
    let h = HTTPHandler::new("h", "1");
    for line in [&b"GET /x HTTP/1.1"[..], b"GET / HTTP/1.0", b"", b"get / http/1.1"] {
        let (status, path) = h.route(line);
        assert_eq!(status, "HTTP/1.1 404 NOT FOUND");
        assert_eq!(path, "./templates/404.html");
    }
}

#[test]
fn response_format() {
    let r = build_response("HTTP/1.1 200 OK", b"<p>hi</p>").unwrap();
    assert_eq!(
        r,
        b"HTTP/1.1 200 OK\r\nContent-Type: text/html; charset=utf-8\r\nContent-Length: 9\r\nConnection: close\r\n\r\n<p>hi</p>".to_vec()
    );
}

#[test]
fn response_length_counts_bytes() {
    let r = build_response("HTTP/1.1 200 OK", "é".as_bytes()).unwrap();
    let text = String::from_utf8(r).unwrap();
    assert!(text.contains("Content-Length: 2\r\n"));
    assert!(text.ends_with("\r\n\r\né"));
}

#[test]
fn response_empty_content() {
    let r = build_response("HTTP/1.1 404 NOT FOUND", b"").unwrap();
    assert_eq!(
        r,
        b"HTTP/1.1 404 NOT FOUND\r\nContent-Type: text/html; charset=utf-8\r\nContent-Length: 0\r\nConnection: close\r\n\r\n".to_vec()
    );
}

#[test]
fn response_refuses_invalid_utf8_content() {
    assert_eq!(build_response("HTTP/1.1 200 OK", &[0xc3, 0x28]), None);
}

#[test]
fn internal_error_bytes() {
    assert_eq!(internal_error_response(), ERROR_500.to_vec());
}

#[test]
fn exchange_serves_index() {
    let h = HTTPHandler::new("127.0.0.1", "8080");
    let (s, a) = begin_exchange();
    assert!(matches!(a, ExchangeAction::ReadLine));
    let (s, a) = h.step(s, ExchangeEvent::LineRead(b"GET / HTTP/1.1\r\n".to_vec()));
    match &a {
        ExchangeAction::ReadFile(p) => assert_eq!(p, "./templates/index.html"),
        _ => panic!("expected a file read"),
    }
    let (s, a) = h.step(s, ExchangeEvent::ContentRead(b"hello".to_vec()));
    assert_eq!(
        write_bytes(&a),
        b"HTTP/1.1 200 OK\r\nContent-Type: text/html; charset=utf-8\r\nContent-Length: 5\r\nConnection: close\r\n\r\nhello".to_vec()
    );
    assert!(matches!(s, ExchangeState::Replying));
    let (s, a) = h.step(s, ExchangeEvent::Written);
    assert!(matches!(s, ExchangeState::Finished));
    assert!(matches!(a, ExchangeAction::Close));
}

#[test]
fn exchange_serves_not_found() {
    let h = HTTPHandler::new("127.0.0.1", "8080");
    let (s, _) = begin_exchange();
    let (s, a) = h.step(s, ExchangeEvent::LineRead(b"GET /missing HTTP/1.1\r\n".to_vec()));
    match &a {
        ExchangeAction::ReadFile(p) => assert_eq!(p, "./templates/404.html"),
        _ => panic!("expected a file read"),
    }
    let (_, a) = h.step(s, ExchangeEvent::ContentRead(b"nope".to_vec()));
    let bytes = write_bytes(&a);
    assert!(bytes.starts_with(b"HTTP/1.1 404 NOT FOUND\r\n"));
}

#[test]
fn exchange_empty_request_gets_500() {
    let h = HTTPHandler::new("127.0.0.1", "8080");
    let (s, _) = begin_exchange();
    let (s, a) = h.step(s, ExchangeEvent::LineRead(Vec::new()));
    assert_eq!(write_bytes(&a), ERROR_500.to_vec());
    assert!(matches!(s, ExchangeState::ReplyingError));
    let (s, a) = h.step(s, ExchangeEvent::WriteFailed);
    assert!(matches!(s, ExchangeState::Finished));
    assert!(matches!(a, ExchangeAction::Close));
}

#[test]
fn exchange_read_failure_gets_500() {
    let h = HTTPHandler::new("127.0.0.1", "8080");
    let (s, _) = begin_exchange();
    let (_, a) = h.step(s, ExchangeEvent::LineFailed);
    assert_eq!(write_bytes(&a), ERROR_500.to_vec());
}

#[test]
fn exchange_missing_template_gets_500() {
    let h = HTTPHandler::new("127.0.0.1", "8080");
    let (s, _) = begin_exchange();
    let (s, _) = h.step(s, ExchangeEvent::LineRead(b"GET / HTTP/1.1\n".to_vec()));
    let (s, a) = h.step(s, ExchangeEvent::ContentFailed);
    assert_eq!(write_bytes(&a), ERROR_500.to_vec());
    let (s, _) = h.step(s, ExchangeEvent::Written);
    assert!(matches!(s, ExchangeState::Finished));
}

#[test]
fn exchange_invalid_template_gets_500() {
    let h = HTTPHandler::new("127.0.0.1", "8080");
    let (s, _) = begin_exchange();
    let (s, _) = h.step(s, ExchangeEvent::LineRead(b"GET / HTTP/1.1\n".to_vec()));
    let (_, a) = h.step(s, ExchangeEvent::ContentRead(vec![0xff]));
    assert_eq!(write_bytes(&a), ERROR_500.to_vec());
}

#[test]
fn exchange_failed_write_gets_500() {
    let h = HTTPHandler::new("127.0.0.1", "8080");
    let (s, _) = begin_exchange();
    let (s, _) = h.step(s, ExchangeEvent::LineRead(b"GET / HTTP/1.1\n".to_vec()));
    let (s, _) = h.step(s, ExchangeEvent::ContentRead(b"x".to_vec()));
    let (s, a) = h.step(s, ExchangeEvent::WriteFailed);
    assert_eq!(write_bytes(&a), ERROR_500.to_vec());
    let (s, a) = h.step(s, ExchangeEvent::WriteFailed);
    assert!(matches!(s, ExchangeState::Finished));
    assert!(matches!(a, ExchangeAction::Close));
}

#[test]
fn exchange_unexpected_event_closes() {
    let h = HTTPHandler::new("127.0.0.1", "8080");
    let (s, _) = begin_exchange();
    let (s, a) = h.step(s, ExchangeEvent::Written);
    assert!(matches!(s, ExchangeState::Finished));
    assert!(matches!(a, ExchangeAction::Close));
}

#[test]
fn exchange_answer_ignores_line_ending() {
    let h = HTTPHandler::new("127.0.0.1", "8080");
    let mut answers = Vec::new();
    for raw in [&b"GET / HTTP/1.1\r\n"[..], b"GET / HTTP/1.1\n", b"GET / HTTP/1.1"] {
        let (s, _) = begin_exchange();
        let (s, _) = h.step(s, ExchangeEvent::LineRead(raw.to_vec()));
        let (_, a) = h.step(s, ExchangeEvent::ContentRead(b"page".to_vec()));
        answers.push(write_bytes(&a));
    }
    assert_eq!(answers[0], answers[1]);
    assert_eq!(answers[1], answers[2]);
    assert!(answers[0].starts_with(b"HTTP/1.1 200 OK\r\n"));
}
