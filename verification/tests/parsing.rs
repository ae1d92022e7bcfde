//! Unit tests for the parser, the router and the serializer.

use http_server::handlers::{handle_echo, handle_not_found, handle_root, handle_user_agent};
use http_server::message::{
    HttpEncoding, HttpMethod, HttpRequest, HttpStatus, HttpTarget, HttpVersion,
};
use http_server::parser::{
    parse_accept, parse_accept_encoding, parse_host, parse_method, parse_user_agent, parse_version,
};
use http_server::router::parse_target;
use http_server::text::{split_lines, split_tokens, trim_bytes};

#[test]
fn method_tokens() {
    assert_eq!(parse_method(Some(&b"GET".to_vec())), Ok(HttpMethod::Get));
    assert_eq!(parse_method(Some(&b"POST".to_vec())), Ok(HttpMethod::Post));
    assert_eq!(parse_method(Some(&b"get".to_vec())), Err(()));
    assert_eq!(parse_method(Some(&b"PUT".to_vec())), Err(()));
    assert_eq!(parse_method(None), Err(()));
}

#[test]
fn version_tokens() {
    assert_eq!(
        parse_version(Some(&b"HTTP/1.1".to_vec())),
        Ok(HttpVersion::Http11)
    );
    assert_eq!(parse_version(Some(&b"HTTP/1.0".to_vec())), Err(()));
    assert_eq!(parse_version(Some(&b"http/1.1".to_vec())), Err(()));
    assert_eq!(parse_version(None), Err(()));
}

#[test]
fn target_classification() {
    assert!(matches!(
        parse_target(Some(&b"/".to_vec())),
        Ok(HttpTarget::Root)
    ));
    match parse_target(Some(&b"/echo/abc123".to_vec())) {
        Ok(HttpTarget::Echo(p)) => assert_eq!(p, b"abc123".to_vec()),
        _ => panic!("expected the echo route"),
    }
    match parse_target(Some(&b"/echo/".to_vec())) {
        Ok(HttpTarget::Echo(p)) => assert_eq!(p, Vec::<u8>::new()),
        _ => panic!("expected the echo route"),
    }
    assert!(matches!(
        parse_target(Some(&b"/user-agent".to_vec())),
        Ok(HttpTarget::UserAgent)
    ));
    match parse_target(Some(&b"/files/notes.txt".to_vec())) {
        Ok(HttpTarget::Files(p)) => assert_eq!(p, b"notes.txt".to_vec()),
        _ => panic!("expected the files route"),
    }
    assert!(matches!(
        parse_target(Some(&b"/unknown/path".to_vec())),
        Ok(HttpTarget::NotFound)
    ));
    assert!(matches!(
        parse_target(Some(&b"/user-agent/extra".to_vec())),
        Ok(HttpTarget::NotFound)
    ));
    assert!(matches!(parse_target(None), Ok(HttpTarget::NotFound)));
}

#[test]
fn target_is_deterministic() {
    let a = parse_target(Some(&b"/echo/x".to_vec()));
    let b = parse_target(Some(&b"/echo/x".to_vec()));
    match (a, b) {
        (Ok(HttpTarget::Echo(p)), Ok(HttpTarget::Echo(q))) => assert_eq!(p, q),
        _ => panic!("expected the echo route twice"),
    }
}

#[test]
fn host_header_lines() {
    assert_eq!(
        parse_host(&b"Host: localhost".to_vec()),
        Ok(b"localhost".to_vec())
    );
    // the value is everything after the first colon, trimmed
    assert_eq!(
        parse_host(&b"HOST:  localhost:4221 ".to_vec()),
        Ok(b"localhost:4221".to_vec())
    );
    assert_eq!(parse_host(&b"User-Agent: x".to_vec()), Err(()));
    // the colon is part of the matched prefix
    assert_eq!(parse_host(&b"hostile: x".to_vec()), Err(()));
    assert_eq!(parse_host(&b"host:x".to_vec()), Ok(b"x".to_vec()));
}

#[test]
fn user_agent_header_lines() {
    assert_eq!(
        parse_user_agent(&b"User-Agent: test-client/1.0".to_vec()),
        Ok(b"test-client/1.0".to_vec())
    );
    assert_eq!(
        parse_user_agent(&b"user-agent:curl/8.0".to_vec()),
        Ok(b"curl/8.0".to_vec())
    );
    assert_eq!(parse_user_agent(&b"Accept: x".to_vec()), Err(()));
}

#[test]
fn accept_header_lines() {
    assert_eq!(parse_accept(&b"Accept: */*".to_vec()), Ok(b"*/*".to_vec()));
    assert_eq!(parse_accept(&b"Accept-Encoding: gzip".to_vec()), Err(()));
}

#[test]
fn accept_encoding_lines() {
    assert_eq!(
        parse_accept_encoding(&b"Accept-Encoding: gzip, deflate".to_vec()),
        Ok(vec![HttpEncoding::Gzip, HttpEncoding::Deflate])
    );
    // unknown tokens are dropped silently, order preserved
    assert_eq!(
        parse_accept_encoding(&b"Accept-Encoding: br, frobnicate, compress".to_vec()),
        Ok(vec![HttpEncoding::Br, HttpEncoding::Compress])
    );
    assert_eq!(parse_accept_encoding(&b"Accept-Encoding:".to_vec()), Ok(vec![]));
    assert_eq!(
        parse_accept_encoding(&b"ACCEPT-ENCODING:   gzip  ".to_vec()),
        Ok(vec![HttpEncoding::Gzip])
    );
    assert_eq!(parse_accept_encoding(&b"Accept: gzip".to_vec()), Err(()));
    // empty and whitespace-only fields are simply unrecognised
    assert_eq!(
        parse_accept_encoding(&b"Accept-Encoding: gzip,,  ,br".to_vec()),
        Ok(vec![HttpEncoding::Gzip, HttpEncoding::Br])
    );
}

#[test]
fn full_request_with_all_headers() {
    let raw = b"GET /index HTTP/1.1\r\nHost: example\r\nUser-Agent: ua/1\r\nAccept: */*\r\nAccept-Encoding: gzip, br\r\n\r\n";
    let req = HttpRequest::from_bytes(&raw.to_vec()).unwrap();
    assert!(matches!(req.method, HttpMethod::Get));
    assert!(matches!(req.target, HttpTarget::NotFound));
    assert_eq!(req.host, Some(b"example".to_vec()));
    assert_eq!(req.user_agent, Some(b"ua/1".to_vec()));
    assert_eq!(req.accept, Some(b"*/*".to_vec()));
    assert_eq!(req.accept_encoding, vec![HttpEncoding::Gzip, HttpEncoding::Br]);
    assert_eq!(req.body, Vec::<u8>::new());
}

#[test]
fn header_names_match_case_insensitively() {
    let raw = b"GET / HTTP/1.1\r\nhOsT: a\r\nUSER-AGENT: b\r\n\r\n";
    let req = HttpRequest::from_bytes(&raw.to_vec()).unwrap();
    assert_eq!(req.host, Some(b"a".to_vec()));
    assert_eq!(req.user_agent, Some(b"b".to_vec()));
}

#[test]
fn repeated_header_keeps_last_occurrence() {
    let raw = b"GET / HTTP/1.1\r\nHost: first\r\nHost: second\r\n\r\n";
    let req = HttpRequest::from_bytes(&raw.to_vec()).unwrap();
    assert_eq!(req.host, Some(b"second".to_vec()));
}

#[test]
fn unrecognised_headers_are_ignored() {
    let raw = b"GET / HTTP/1.1\r\nX-Custom: whatever\r\n\r\n";
    let req = HttpRequest::from_bytes(&raw.to_vec()).unwrap();
    assert_eq!(req.host, None);
    assert_eq!(req.user_agent, None);
    assert_eq!(req.accept, None);
    assert_eq!(req.accept_encoding, Vec::<HttpEncoding>::new());
}

#[test]
fn bare_line_feeds_are_line_breaks_too() {
    let raw = b"GET /echo/x HTTP/1.1\nHost: a\n\nbody";
    let req = HttpRequest::from_bytes(&raw.to_vec()).unwrap();
    assert_eq!(req.host, Some(b"a".to_vec()));
    assert_eq!(req.body, b"body".to_vec());
}

#[test]
fn only_the_first_body_line_is_kept() {
    let raw = b"POST /files/a HTTP/1.1\r\n\r\nfirst\r\nsecond";
    let req = HttpRequest::from_bytes(&raw.to_vec()).unwrap();
    assert_eq!(req.body, b"first".to_vec());
}

#[test]
fn requests_without_enough_start_line_tokens_fail() {
    assert!(HttpRequest::from_bytes(&b"".to_vec()).is_err());
    assert!(HttpRequest::from_bytes(&b"GET".to_vec()).is_err());
    assert!(HttpRequest::from_bytes(&b"GET /".to_vec()).is_err());
    assert!(HttpRequest::from_bytes(&b"GET / HTTP/1.1".to_vec()).is_ok());
}

#[test]
fn new_request_has_no_headers() {
    let req = HttpRequest::new(
        HttpMethod::Post,
        HttpTarget::Root,
        HttpVersion::Http11,
        b"payload".to_vec(),
    );
    assert!(matches!(req.method, HttpMethod::Post));
    assert_eq!(req.host, None);
    assert_eq!(req.user_agent, None);
    assert_eq!(req.accept, None);
    assert_eq!(req.accept_encoding, Vec::<HttpEncoding>::new());
    assert_eq!(req.body, b"payload".to_vec());
}

#[test]
fn handlers_fill_length_from_body() {
    let root = handle_root();
    assert_eq!(root.body, b"Hello, World!".to_vec());
    assert_eq!(root.content_length, 13);
    assert!(matches!(root.status, HttpStatus::Okay));

    let echo = handle_echo(&b"abc123".to_vec());
    assert_eq!(echo.body, b"abc123".to_vec());
    assert_eq!(echo.content_length, 6);

    let ua = handle_user_agent(&b"test-client/1.0".to_vec());
    assert_eq!(ua.body, b"test-client/1.0".to_vec());
    assert_eq!(ua.content_length, 15);

    let nf = handle_not_found();
    assert_eq!(nf.body, Vec::<u8>::new());
    assert_eq!(nf.content_length, 0);
    assert!(matches!(nf.status, HttpStatus::NotFound));
}

#[test]
fn serializer_renders_multi_digit_lengths() {
    let body = vec![b'x'; 120];
    let resp = handle_echo(&body);
    let wire = resp.to_bytes();
    assert!(wire.starts_with(b"HTTP/1.1 200 OK\r\nContent-Type: text/plain\r\nContent-Length: 120\r\n\r\n"));
    assert_eq!(wire.len(), b"HTTP/1.1 200 OK\r\nContent-Type: text/plain\r\nContent-Length: 120\r\n\r\n".len() + 120);
}

#[test]
fn text_helpers_split_and_trim() {
    let lines = split_lines(&b"a\r\nb\nc".to_vec());
    assert_eq!(lines, vec![b"a".to_vec(), b"b".to_vec(), b"c".to_vec()]);
    let lines = split_lines(&b"a\r\n".to_vec());
    assert_eq!(lines, vec![b"a".to_vec()]);
    let toks = split_tokens(&b"  GET   /  HTTP/1.1 ".to_vec());
    assert_eq!(
        toks,
        vec![b"GET".to_vec(), b"/".to_vec(), b"HTTP/1.1".to_vec()]
    );
    assert_eq!(trim_bytes(&b"  x y  ".to_vec()), b"x y".to_vec());
    assert_eq!(trim_bytes(&b"   ".to_vec()), Vec::<u8>::new());
}
