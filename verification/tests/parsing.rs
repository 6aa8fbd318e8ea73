//! Tests of the parser's edge behavior and of response construction on its
//! own.

use http_server::request::HttpRequest;
use http_server::response::HttpResponse;

#[test]
fn fewer_than_three_tokens_is_a_parse_error() {
    assert!(HttpRequest::from_byte_array(b"GET /\r\n\r\n").is_none());
    assert!(HttpRequest::from_byte_array(b"GET\r\n\r\n").is_none());
    assert!(HttpRequest::from_byte_array(b"").is_none());
    assert!(HttpRequest::from_byte_array(b"   \r\n  \r\n\r\n").is_none());
}

#[test]
fn missing_separator_treats_the_whole_buffer_as_head() {
    let req = HttpRequest::from_byte_array(b"GET / HTTP/1.1").expect("three tokens parse");
    assert_eq!(req.verb, b"GET".to_vec());
    assert_eq!(req.path, b"/".to_vec());
    assert_eq!(req.protocol, b"HTTP/1.1".to_vec());
    assert!(req.headers.is_empty());
    assert!(req.body.is_empty());
}

#[test]
fn body_is_everything_after_the_first_blank_line() {
    let req = HttpRequest::from_byte_array(b"POST /files/a HTTP/1.1\r\n\r\nline\r\n\r\nmore")
        .expect("parse");
    assert_eq!(req.body, b"line\r\n\r\nmore".to_vec());
}

#[test]
fn header_names_lose_their_trailing_colon() {
    let req =
        HttpRequest::from_byte_array(b"GET / HTTP/1.1\r\nHost: localhost\r\nAccept: x\r\n\r\n")
            .expect("parse");
    assert_eq!(
        req.headers,
        vec![
            (b"Host".to_vec(), b"localhost".to_vec()),
            (b"Accept".to_vec(), b"x".to_vec()),
        ]
    );
}

#[test]
fn any_whitespace_run_separates_tokens() {
    let req = HttpRequest::from_byte_array(b"GET\t/user-agent  HTTP/1.1\r\nUser-Agent: curl\r\n\r\n")
        .expect("parse");
    assert_eq!(req.verb, b"GET".to_vec());
    assert_eq!(req.path, b"/user-agent".to_vec());
    assert_eq!(req.protocol, b"HTTP/1.1".to_vec());
    assert_eq!(req.headers, vec![(b"User-Agent".to_vec(), b"curl".to_vec())]);
}

#[test]
fn only_the_trailing_colon_is_stripped_from_a_header_name() {
    let req = HttpRequest::from_byte_array(b"GET / HTTP/1.1\r\nX:Y: v\r\n\r\n").expect("parse");
    assert_eq!(req.headers, vec![(b"X:Y".to_vec(), b"v".to_vec())]);
}

#[test]
fn an_unpaired_trailing_token_is_dropped() {
    let req = HttpRequest::from_byte_array(b"GET / HTTP/1.1\r\nOrphan:\r\n\r\n").expect("parse");
    assert!(req.headers.is_empty());
}

#[test]
fn invalid_utf8_is_replaced_not_passed_through() {
    let mut buf = b"GET /echo/a".to_vec();
    buf.push(0xFF);
    buf.extend_from_slice(b"b HTTP/1.1\r\n\r\n");
    let req = HttpRequest::from_byte_array(&buf).expect("parse");
    let mut expected = b"/echo/a".to_vec();
    expected.extend_from_slice("\u{FFFD}".as_bytes());
    expected.extend_from_slice(b"b");
    assert_eq!(req.path, expected);
}

#[test]
fn minimal_response_serializes_to_the_exact_status_line() {
    let r = HttpResponse::new(Vec::new(), b"HTTP/1.1".to_vec(), 200);
    assert_eq!(r.serialize(), b"HTTP/1.1 200 OK\r\n\r\n".to_vec());
}

#[test]
fn response_with_body_has_header_lines_blank_line_body_and_trailer() {
    let r = HttpResponse::new(b"hi".to_vec(), b"HTTP/1.1".to_vec(), 200)
        .prepare_plain_text_headers();
    assert_eq!(
        r.serialize(),
        b"HTTP/1.1 200 OK\r\nContent-Type: text/plain\r\nContent-Length: 2\r\n\r\nhi\r\n\r\n"
            .to_vec()
    );
}

#[test]
fn octet_stream_headers_name_the_binary_content_type() {
    let r = HttpResponse::new(b"abc".to_vec(), b"HTTP/1.1".to_vec(), 200)
        .prepare_octet_stream_headers();
    assert_eq!(
        r.serialize(),
        b"HTTP/1.1 200 OK\r\nContent-Type: application/octet-stream\r\nContent-Length: 3\r\n\r\nabc\r\n\r\n"
            .to_vec()
    );
}
