//! End-to-end scenarios: raw request bytes through parsing, dispatch,
//! handling and serialization, checked against the exact wire output.

use http_server::handlers::{handle_files, Dispatch, FileOutcome};
use http_server::handlers::{dispatch_request, file_path};
use http_server::message::{HttpMethod, HttpRequest, HttpStatus};

fn respond(dispatch: Dispatch, files: &mut Vec<(Vec<u8>, Vec<u8>)>) -> Option<Vec<u8>> {
    match dispatch {
        Dispatch::Reply(resp) => Some(resp.to_bytes()),
        Dispatch::FileOp(method, name, body) => {
            let outcome = match method {
                HttpMethod::Get => match files.iter().find(|(n, _)| *n == name) {
                    Some((_, contents)) => FileOutcome::Content(contents.clone()),
                    None => FileOutcome::Missing,
                },
                HttpMethod::Post => match files.iter_mut().find(|(n, _)| *n == name) {
                    Some((_, contents)) => {
                        contents.extend_from_slice(&body);
                        FileOutcome::Appended
                    }
                    None => FileOutcome::Missing,
                },
            };
            Some(handle_files(&method, outcome).to_bytes())
        }
        Dispatch::Abort => None,
    }
}

fn run(request: &[u8], files: &mut Vec<(Vec<u8>, Vec<u8>)>) -> Option<Vec<u8>> {
    let req = HttpRequest::from_bytes(&request.to_vec()).ok()?;
    respond(dispatch_request(req), files)
}

#[test]
fn get_root_exact_wire() {
    let mut files = Vec::new();
    let out = run(b"GET / HTTP/1.1\r\n\r\n", &mut files).unwrap();
    assert_eq!(
        out,
        b"HTTP/1.1 200 OK\r\nContent-Type: text/plain\r\nContent-Length: 13\r\n\r\nHello, World!"
            .to_vec()
    );
}

#[test]
fn get_echo_exact_wire() {
    let mut files = Vec::new();
    let out = run(b"GET /echo/abc123 HTTP/1.1\r\n\r\n", &mut files).unwrap();
    assert_eq!(
        out,
        b"HTTP/1.1 200 OK\r\nContent-Type: text/plain\r\nContent-Length: 6\r\n\r\nabc123"
            .to_vec()
    );
}

#[test]
fn get_user_agent_wire() {
    let mut files = Vec::new();
    let out = run(
        b"GET /user-agent HTTP/1.1\r\nHost: localhost\r\nUser-Agent: test-client/1.0\r\n\r\n",
        &mut files,
    )
    .unwrap();
    assert_eq!(
        out,
        b"HTTP/1.1 200 OK\r\nContent-Type: text/plain\r\nContent-Length: 15\r\n\r\ntest-client/1.0"
            .to_vec()
    );
}

#[test]
fn get_user_agent_without_header_aborts() {
    let mut files = Vec::new();
    let out = run(b"GET /user-agent HTTP/1.1\r\n\r\n", &mut files);
    assert!(out.is_none());
}

#[test]
fn get_missing_file_is_not_found() {
    let mut files = Vec::new();
    let out = run(b"GET /files/missing.txt HTTP/1.1\r\n\r\n", &mut files).unwrap();
    assert_eq!(
        out,
        b"HTTP/1.1 404 NOT FOUND\r\nContent-Type: application/octet-stream\r\nContent-Length: 0\r\n\r\n"
            .to_vec()
    );
}

#[test]
fn post_appends_to_existing_file_only() {
    let mut files = vec![(b"existing.txt".to_vec(), Vec::new())];
    let out = run(
        b"POST /files/existing.txt HTTP/1.1\r\n\r\nhello",
        &mut files,
    )
    .unwrap();
    assert!(out.starts_with(b"HTTP/1.1 201 CREATED\r\n"));
    let got = run(b"GET /files/existing.txt HTTP/1.1\r\n\r\n", &mut files).unwrap();
    assert!(got.ends_with(b"\r\n\r\nhello"));
    // a second identical append doubles the contents rather than replacing
    let again = run(
        b"POST /files/existing.txt HTTP/1.1\r\n\r\nhello",
        &mut files,
    )
    .unwrap();
    assert!(again.starts_with(b"HTTP/1.1 201 CREATED\r\n"));
    assert_eq!(files[0].1, b"hellohello".to_vec());
    // posting to a file that does not exist never creates it
    let missing = run(b"POST /files/new.txt HTTP/1.1\r\n\r\nhello", &mut files).unwrap();
    assert!(missing.starts_with(b"HTTP/1.1 404 NOT FOUND\r\n"));
    assert_eq!(files.len(), 1);
}

#[test]
fn post_on_get_only_routes_is_not_found() {
    let mut files = Vec::new();
    let expected =
        b"HTTP/1.1 404 NOT FOUND\r\nContent-Type: text/plain\r\nContent-Length: 0\r\n\r\n"
            .to_vec();
    assert_eq!(run(b"POST / HTTP/1.1\r\n\r\n", &mut files).unwrap(), expected);
    assert_eq!(
        run(b"POST /echo/abc HTTP/1.1\r\n\r\n", &mut files).unwrap(),
        expected
    );
    assert_eq!(
        run(
            b"POST /user-agent HTTP/1.1\r\nUser-Agent: x\r\n\r\n",
            &mut files
        )
        .unwrap(),
        expected
    );
}

#[test]
fn unknown_path_is_not_found() {
    let mut files = Vec::new();
    let out = run(b"GET /unknown/path HTTP/1.1\r\n\r\n", &mut files).unwrap();
    assert_eq!(
        out,
        b"HTTP/1.1 404 NOT FOUND\r\nContent-Type: text/plain\r\nContent-Length: 0\r\n\r\n"
            .to_vec()
    );
}

#[test]
fn serialized_response_splits_back_into_header_block_and_body() {
    // a body that itself contains the separator must still come back whole
    let body = b"first\r\n\r\nsecond".to_vec();
    let resp = handle_files(&HttpMethod::Get, FileOutcome::Content(body.clone()));
    let wire = resp.to_bytes();
    let sep = wire
        .windows(4)
        .position(|w| w == b"\r\n\r\n")
        .expect("serialized response has a separator");
    let header_block = &wire[..sep];
    let split_body = &wire[sep + 4..];
    assert_eq!(split_body, &body[..]);
    assert_eq!(
        header_block,
        b"HTTP/1.1 200 OK\r\nContent-Type: application/octet-stream\r\nContent-Length: 15"
    );
    assert_eq!(resp.content_length, body.len());
}

#[test]
fn repeated_get_of_unchanged_file_is_identical() {
    let contents = b"stable contents".to_vec();
    let first = handle_files(&HttpMethod::Get, FileOutcome::Content(contents.clone()));
    let second = handle_files(&HttpMethod::Get, FileOutcome::Content(contents.clone()));
    assert_eq!(first.body, second.body);
    assert_eq!(first.content_length, second.content_length);
    assert_eq!(first.to_bytes(), second.to_bytes());
}

#[test]
fn file_path_is_plain_concatenation() {
    let dir = b"/srv/files/".to_vec();
    let name = b"a.txt".to_vec();
    assert_eq!(file_path(&dir, &name), b"/srv/files/a.txt".to_vec());
}

#[test]
fn malformed_requests_are_rejected() {
    let mut files = Vec::new();
    assert!(run(b"", &mut files).is_none());
    assert!(run(b"GET /\r\n\r\n", &mut files).is_none());
    assert!(run(b"PATCH / HTTP/1.1\r\n\r\n", &mut files).is_none());
    assert!(run(b"GET / HTTP/1.0\r\n\r\n", &mut files).is_none());
    assert!(run(b"GET\r\n\r\n", &mut files).is_none());
}

#[test]
fn post_reaching_handler_with_read_outcome_is_not_found() {
    // an outcome that does not answer the method's operation collapses to 404
    let resp = handle_files(&HttpMethod::Post, FileOutcome::Content(b"x".to_vec()));
    assert!(matches!(resp.status, HttpStatus::NotFound));
    let resp = handle_files(&HttpMethod::Get, FileOutcome::Appended);
    assert!(matches!(resp.status, HttpStatus::NotFound));
}
