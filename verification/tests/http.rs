//! End-to-end tests of the protocol core: parsing, routing, and serializing
//! concrete requests and responses.

use http_server::request::HttpRequest;
use http_server::response::HttpResponse;
use http_server::router::{file_read_response, file_write_response, handle, route, RouteAction};

fn respond(action: RouteAction) -> HttpResponse {
    match action {
        RouteAction::Respond(r) => r,
        _ => panic!("expected a finished response"),
    }
}

fn parse(buf: &[u8]) -> HttpRequest {
    HttpRequest::from_byte_array(buf).expect("request should parse")
}

#[test]
fn get_root_is_200_empty_no_headers() {
    let req = parse(b"GET / HTTP/1.1\r\nHost: localhost:4221\r\n\r\n");
    assert_eq!(req.verb, b"GET".to_vec());
    assert_eq!(req.path, b"/".to_vec());
    assert_eq!(req.protocol, b"HTTP/1.1".to_vec());
    let r = respond(route(req));
    assert_eq!(r.status, b"200 OK".to_vec());
    assert!(r.body.is_empty());
    assert!(r.headers.is_empty());
    assert_eq!(r.serialize(), b"HTTP/1.1 200 OK\r\n\r\n".to_vec());
}

#[test]
fn echo_returns_the_text_with_plain_text_headers() {
    let req = parse(b"GET /echo/abc HTTP/1.1\r\n\r\n");
    let r = respond(route(req));
    assert_eq!(r.status, b"200 OK".to_vec());
    assert_eq!(r.body, b"abc".to_vec());
    assert_eq!(
        r.headers,
        vec![
            (b"Content-Type".to_vec(), b"text/plain".to_vec()),
            (b"Content-Length".to_vec(), b"3".to_vec()),
        ]
    );
    assert_eq!(
        r.serialize(),
        b"HTTP/1.1 200 OK\r\nContent-Type: text/plain\r\nContent-Length: 3\r\n\r\nabc\r\n\r\n"
            .to_vec()
    );
}

#[test]
fn echo_of_empty_remainder_has_length_zero() {
    let req = parse(b"GET /echo/ HTTP/1.1\r\n\r\n");
    let r = respond(route(req));
    assert!(r.body.is_empty());
    assert_eq!(
        r.headers,
        vec![
            (b"Content-Type".to_vec(), b"text/plain".to_vec()),
            (b"Content-Length".to_vec(), b"0".to_vec()),
        ]
    );
}

#[test]
fn echo_content_length_is_exact_decimal() {
    let text = [b'x'; 123];
    let mut buf = b"GET /echo/".to_vec();
    buf.extend_from_slice(&text);
    buf.extend_from_slice(b" HTTP/1.1\r\n\r\n");
    let req = parse(&buf);
    let r = respond(route(req));
    assert_eq!(r.body, text.to_vec());
    assert_eq!(r.headers[1], (b"Content-Length".to_vec(), b"123".to_vec()));

    let text10 = [b'y'; 10];
    let mut buf10 = b"GET /echo/".to_vec();
    buf10.extend_from_slice(&text10);
    buf10.extend_from_slice(b" HTTP/1.1\r\n\r\n");
    let r10 = respond(route(parse(&buf10)));
    assert_eq!(r10.headers[1], (b"Content-Length".to_vec(), b"10".to_vec()));
}

#[test]
fn user_agent_reflects_the_header_value() {
    let req = parse(b"GET /user-agent HTTP/1.1\r\nHost: x\r\nUser-Agent: foobar/1.2.3\r\n\r\n");
    let r = respond(route(req));
    assert_eq!(r.status, b"200 OK".to_vec());
    assert_eq!(r.body, b"foobar/1.2.3".to_vec());
    assert_eq!(
        r.headers,
        vec![
            (b"Content-Type".to_vec(), b"text/plain".to_vec()),
            (b"Content-Length".to_vec(), b"12".to_vec()),
        ]
    );
}

#[test]
fn user_agent_missing_is_a_request_fault() {
    let req = parse(b"GET /user-agent HTTP/1.1\r\nHost: x\r\n\r\n");
    match route(req) {
        RouteAction::MissingUserAgent => {}
        _ => panic!("expected the missing user-agent fault"),
    }
}

#[test]
fn duplicate_headers_keep_the_last_value() {
    let req = parse(b"GET /user-agent HTTP/1.1\r\nUser-Agent: one\r\nUser-Agent: two\r\n\r\n");
    let r = respond(route(req));
    assert_eq!(r.body, b"two".to_vec());
}

#[test]
fn files_round_trip_returns_the_posted_body() {
    let post = parse(b"POST /files/report.txt HTTP/1.1\r\nContent-Length: 5\r\n\r\nhello");
    let stored = match route(post) {
        RouteAction::WriteFile { name, contents, protocol } => {
            assert_eq!(name, b"report.txt".to_vec());
            assert_eq!(protocol, b"HTTP/1.1".to_vec());
            let r = file_write_response(protocol);
            assert_eq!(r.serialize(), b"HTTP/1.1 201 Created\r\n\r\n".to_vec());
            contents
        }
        _ => panic!("expected a file write"),
    };
    assert_eq!(stored, b"hello".to_vec());

    let get = parse(b"GET /files/report.txt HTTP/1.1\r\n\r\n");
    match route(get) {
        RouteAction::ReadFile { name, protocol } => {
            assert_eq!(name, b"report.txt".to_vec());
            let r = file_read_response(protocol, Some(stored));
            assert_eq!(r.status, b"200 OK".to_vec());
            assert_eq!(r.body, b"hello".to_vec());
            assert_eq!(
                r.headers,
                vec![
                    (b"Content-Type".to_vec(), b"application/octet-stream".to_vec()),
                    (b"Content-Length".to_vec(), b"5".to_vec()),
                ]
            );
        }
        _ => panic!("expected a file read"),
    }
}

#[test]
fn files_get_of_missing_file_is_404_empty() {
    let get = parse(b"GET /files/nope.txt HTTP/1.1\r\n\r\n");
    match route(get) {
        RouteAction::ReadFile { name, protocol } => {
            assert_eq!(name, b"nope.txt".to_vec());
            let r = file_read_response(protocol, None);
            assert_eq!(r.status, b"404 Not Found".to_vec());
            assert!(r.body.is_empty());
            assert!(r.headers.is_empty());
            assert_eq!(r.serialize(), b"HTTP/1.1 404 Not Found\r\n\r\n".to_vec());
        }
        _ => panic!("expected a file read"),
    }
}

#[test]
fn handle_decides_a_whole_buffer_and_rejects_a_malformed_one() {
    match handle(b"GET /echo/hey HTTP/1.1\r\n\r\n").expect("well-formed") {
        RouteAction::Respond(r) => assert_eq!(r.body, b"hey".to_vec()),
        _ => panic!("expected a finished response"),
    }
    assert!(handle(b"oops\r\n\r\n").is_none());
}

#[test]
fn unrecognized_routes_are_404_empty() {
    let del = parse(b"DELETE / HTTP/1.1\r\n\r\n");
    let r = respond(route(del));
    assert_eq!(r.status, b"404 Not Found".to_vec());
    assert!(r.body.is_empty());
    assert!(r.headers.is_empty());

    let other = parse(b"GET /nope HTTP/1.1\r\n\r\n");
    let r2 = respond(route(other));
    assert_eq!(r2.status, b"404 Not Found".to_vec());
    assert!(r2.body.is_empty());

    let post_root = parse(b"POST / HTTP/1.1\r\n\r\n");
    let r3 = respond(route(post_root));
    assert_eq!(r3.status, b"404 Not Found".to_vec());
}
