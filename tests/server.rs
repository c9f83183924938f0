use std::io::Read;

use http_server::errors::{AppError, ClientError, ServerError};
use http_server::handlers::{handle_get_file, handle_post_file};
use http_server::request::{Method, Request, Route};
use http_server::response::{frame_ok, Response};
use http_server::router::{error_response, request_router, select_handler, Handler, Step};
use http_server::utils::{get_response, Status};

fn reply(input: &[u8], dir: &Option<String>) -> Vec<u8> {
    let req = Request::try_new(input).unwrap();
    match request_router(&req, dir).unwrap() {
        Step::Reply(resp) => resp.to_vec(),
        _ => panic!("expected a reply"),
    }
}

#[test]
fn echo_example_frames_exactly() {
    assert_eq!(
        b"HTTP/1.1 200 OK\r\nContent-Type: text/plain\r\nContent-Length: 5\r\n\r\ngrape".to_vec(),
        reply(b"GET /echo/grape HTTP/1.1\r\n\r\n", &None)
    );
}

#[test]
fn root_example_frames_exactly() {
    assert_eq!(
        b"HTTP/1.1 200 OK\r\n\r\n".to_vec(),
        reply(b"GET / HTTP/1.1\r\n\r\n", &None)
    );
}

#[test]
fn unknown_route_is_not_found() {
    assert_eq!(
        b"HTTP/1.1 404 Not Found\r\n\r\n".to_vec(),
        reply(b"GET /bogus HTTP/1.1\r\n\r\n", &None)
    );
    assert_eq!(
        b"HTTP/1.1 404 Not Found\r\n\r\n".to_vec(),
        reply(b"POST /echo/x HTTP/1.1\r\n\r\n", &None)
    );
}

#[test]
fn echo_identity_without_encoding() {
    let x = "some-value_42";
    let input = format!("GET /echo/{} HTTP/1.1\r\n\r\n", x);
    let req = Request::try_new(input.as_bytes()).unwrap();
    match request_router(&req, &None).unwrap() {
        Step::Reply(Response::Success(Some((body, mime, enc)))) => {
            assert_eq!(x.as_bytes(), body.as_slice());
            assert_eq!("text/plain", mime);
            assert_eq!(None, enc);
        }
        _ => panic!("expected a body"),
    }
}

#[test]
fn dispatch_table_is_total() {
    let methods = [
        Method::Get,
        Method::Post,
        Method::Unknown(ClientError::BadRequest),
        Method::Unsupported(ServerError::NotImplemented),
    ];
    let routes = [Route::Root, Route::Echo, Route::UserAgent, Route::Files, Route::Unknown];
    for m in methods {
        for r in routes {
            let expected = match (m, r) {
                (Method::Get, Route::Root) => Handler::Empty,
                (Method::Get, Route::Echo) => Handler::Echo,
                (Method::Get, Route::UserAgent) => Handler::UserAgent,
                (Method::Get, Route::Files) => Handler::GetFile,
                (Method::Post, Route::Files) => Handler::PostFile,
                _ => Handler::NotFound,
            };
            assert_eq!(expected, select_handler(m, r));
            assert_eq!(select_handler(m, r), select_handler(m, r));
        }
    }
}

#[test]
fn post_then_get_round_trips_bytes() {
    let dir = Some("/srv/data".to_owned());
    let body = b"\x00binary\xffbytes".to_vec();
    let mut post = format!("POST /files/blob HTTP/1.1\r\nContent-Length: {}\r\n\r\n", body.len()).into_bytes();
    post.extend_from_slice(&body);
    let req = Request::try_new(&post).unwrap();
    let (path, written) = match request_router(&req, &dir).unwrap() {
        Step::WriteFile(p, b) => (p, b),
        _ => panic!("expected a write"),
    };
    assert_eq!(b"/srv/data/blob".to_vec(), path);
    assert_eq!(body, written);
    assert!(matches!(handle_post_file(Ok(())), Ok(Response::Created)));

    let get = Request::try_new(b"GET /files/blob HTTP/1.1\r\n\r\n").unwrap();
    let read_path = match request_router(&get, &dir).unwrap() {
        Step::ReadFile(p) => p,
        _ => panic!("expected a read"),
    };
    assert_eq!(path, read_path);
    match handle_get_file(&get, Some(written)) {
        Response::Success(Some((b, mime, enc))) => {
            assert_eq!(body, b);
            assert_eq!("application/octet-stream", mime);
            assert_eq!(None, enc);
        }
        _ => panic!("expected the file"),
    }
}

#[test]
fn directory_with_trailing_slash_joins_once() {
    let req = Request::try_new(b"GET /files/a HTTP/1.1\r\n\r\n").unwrap();
    match request_router(&req, &Some("data/".to_owned())).unwrap() {
        Step::ReadFile(p) => assert_eq!(b"data/a".to_vec(), p),
        _ => panic!("expected a read"),
    }
}

#[test]
fn failed_write_is_server_error() {
    let e = handle_post_file(Err("denied".to_owned())).unwrap_err();
    assert_eq!(AppError::IO("denied".to_owned()), e);
    assert_eq!(
        b"HTTP/1.1 500 Internal Server Error\r\n\r\n".to_vec(),
        error_response(&e).to_vec()
    );
    let req = Request::try_new(b"POST /files/a HTTP/1.1\r\n\r\n").unwrap();
    assert!(matches!(request_router(&req, &None), Err(AppError::IO(_))));
}

#[test]
fn missing_file_is_not_found() {
    let req = Request::try_new(b"GET /files/missing HTTP/1.1\r\n\r\n").unwrap();
    assert!(matches!(
        request_router(&req, &None).unwrap(),
        Step::Reply(Response::NotFound)
    ));
    let resp = handle_get_file(&req, None);
    assert_eq!(b"HTTP/1.1 404 Not Found\r\n\r\n".to_vec(), resp.to_vec());
    let req = Request::try_new(b"GET /files HTTP/1.1\r\n\r\n").unwrap();
    assert!(matches!(
        request_router(&req, &Some("d".to_owned())).unwrap(),
        Step::Reply(Response::NotFound)
    ));
}

#[test]
fn gzip_is_negotiated_and_decompresses() {
    let input = b"GET /echo/abcabcabcabc HTTP/1.1\r\nAccept-Encoding: deflate, gzip\r\n\r\n";
    let out = reply(input, &None);
    let head_end = out.windows(4).position(|w| w == b"\r\n\r\n").unwrap() + 4;
    let head = String::from_utf8(out[..head_end].to_vec()).unwrap();
    assert!(head.contains("Content-Encoding: gzip\r\n"));
    let content = &out[head_end..];
    assert!(head.contains(&format!("Content-Length: {}\r\n", content.len())));
    let mut plain = Vec::new();
    flate2::read::GzDecoder::new(content).read_to_end(&mut plain).unwrap();
    assert_eq!(b"abcabcabcabc".to_vec(), plain);
}

#[test]
fn no_gzip_means_plain_body() {
    let input = b"GET /echo/abc HTTP/1.1\r\nAccept-Encoding: deflate, br\r\n\r\n";
    let out = reply(input, &None);
    assert_eq!(
        b"HTTP/1.1 200 OK\r\nContent-Type: text/plain\r\nContent-Length: 3\r\n\r\nabc".to_vec(),
        out
    );
    let input = b"GET /echo/abc HTTP/1.1\r\nAccept-Encoding: gzipped\r\n\r\n";
    assert!(!String::from_utf8_lossy(&reply(input, &None)).contains("Content-Encoding"));
}

#[test]
fn user_agent_is_echoed() {
    let out = reply(b"GET /user-agent HTTP/1.1\r\nUser-Agent: foobar/1.2.3\r\n\r\n", &None);
    assert_eq!(
        b"HTTP/1.1 200 OK\r\nContent-Type: text/plain\r\nContent-Length: 12\r\n\r\nfoobar/1.2.3".to_vec(),
        out
    );
    let out = reply(b"GET /user-agent HTTP/1.1\r\n\r\n", &None);
    assert_eq!(
        b"HTTP/1.1 200 OK\r\nContent-Type: text/plain\r\nContent-Length: 0\r\n\r\n".to_vec(),
        out
    );
}

#[test]
fn errors_map_to_status_lines() {
    let cases: [(AppError, &[u8]); 6] = [
        (AppError::Client(ClientError::BadRequest), b"HTTP/1.1 400 Bad Request\r\n\r\n"),
        (AppError::Client(ClientError::NotFound), b"HTTP/1.1 404 Not Found\r\n\r\n"),
        (AppError::Server(ServerError::NotImplemented), b"HTTP/1.1 501 Not Implemented\r\n\r\n"),
        (AppError::Server(ServerError::Internal), b"HTTP/1.1 500 Internal Server Error\r\n\r\n"),
        (AppError::Parse, b"HTTP/1.1 400 Bad Request\r\n\r\n"),
        (AppError::IO("x".to_owned()), b"HTTP/1.1 500 Internal Server Error\r\n\r\n"),
    ];
    for (e, expected) in cases {
        assert_eq!(expected.to_vec(), error_response(&e).to_vec());
    }
    assert_eq!(b"HTTP/1.1 201 Created\r\n\r\n".to_vec(), Response::Created.to_vec());
}

#[test]
fn framing_counts_multi_digit_lengths() {
    let out = frame_ok(&[b'x'; 1234], "text/plain", Some("gzip"));
    let mut expected = b"HTTP/1.1 200 OK\r\nContent-Type: text/plain\r\nContent-Length: 1234\r\nContent-Encoding: gzip\r\n\r\n".to_vec();
    expected.extend_from_slice(&[b'x'; 1234]);
    assert_eq!(expected, out);
}

#[test]
fn get_response_frames_statuses() {
    assert_eq!(
        b"HTTP/1.1 200 OK\r\nContent-Type: text/html\r\nContent-Length: 2\r\n\r\nhi".to_vec(),
        get_response(Status::Success, Some((b"hi".to_vec(), "text/html".to_owned())))
    );
    assert_eq!(b"HTTP/1.1 200 OK\r\n\r\n".to_vec(), get_response(Status::Success, None));
    assert_eq!(b"HTTP/1.1 404 Not Found\r\n\r\n".to_vec(), get_response(Status::NotFound, None));
    assert_eq!(b"HTTP/1.1 201 Created\r\n\r\n".to_vec(), get_response(Status::Created, None));
}
