use http_server::errors::{AppError, ClientError, ServerError, ThreadPoolError};
use http_server::request::{get_path_parts, HeaderField, Method, Request, Route};

#[test]
fn handles_http_request() {
    let req = b"GET /echo/abc HTTP/1.1\r\n\r\n";
    let expected = Request {
        method: Method::Get,
        route: Route::Echo,
        path: "/echo/abc".to_owned(),
        body: b"abc".to_vec(),
        headers: Vec::new(),
    };
    assert_eq!(expected, Request::try_new(&mut req.as_slice()).unwrap());
}

#[test]
fn handles_bad_request() {
    let req = b"/echo/abc\r\n\r\n";
    assert_eq!(
        AppError::Client(ClientError::BadRequest),
        Request::try_new(&mut req.as_slice()).unwrap_err()
    );
}

#[test]
fn method_without_path_is_bad_request() {
    let req = b"GET\r\nContent-Length: 3\r\n\r\nabc";
    assert_eq!(
        AppError::Client(ClientError::BadRequest),
        Request::try_new(req).unwrap_err()
    );
    let req = b"PUT\r\n\r\n";
    assert_eq!(
        AppError::Client(ClientError::BadRequest),
        Request::try_new(req).unwrap_err()
    );
    assert_eq!(
        AppError::Client(ClientError::BadRequest),
        Request::try_new(b"").unwrap_err()
    );
}

#[test]
fn known_but_unoffered_method_is_not_implemented() {
    for m in ["PUT", "PATCH", "OPTIONS", "HEAD", "DELETE", "CONNECT", "TRACE"] {
        let req = format!("{} / HTTP/1.1\r\n\r\n", m);
        assert_eq!(
            AppError::Server(ServerError::NotImplemented),
            Request::try_new(req.as_bytes()).unwrap_err()
        );
    }
}

#[test]
fn unknown_method_token_is_bad_request() {
    let req = b"FETCH / HTTP/1.1\r\n\r\n";
    assert_eq!(
        AppError::Client(ClientError::BadRequest),
        Request::try_new(req).unwrap_err()
    );
}

#[test]
fn routes_follow_first_segment() {
    let cases: [(&str, Route); 6] = [
        ("/", Route::Root),
        ("//", Route::Root),
        ("/echo/x", Route::Echo),
        ("/user-agent", Route::UserAgent),
        ("//files//a", Route::Files),
        ("/bogus", Route::Unknown),
    ];
    for (path, route) in cases {
        let req = format!("GET {} HTTP/1.1\r\n\r\n", path);
        let parsed = Request::try_new(req.as_bytes()).unwrap();
        assert_eq!(route, parsed.route);
        assert_eq!(path, parsed.path);
    }
}

#[test]
fn path_parts_drop_empty_segments() {
    let parts = get_path_parts(b"//files//a/");
    assert_eq!(vec![b"files".to_vec(), b"a".to_vec()], parts);
    assert!(get_path_parts(b"/").is_empty());
}

#[test]
fn headers_are_parsed_and_last_write_wins() {
    let req = b"GET /user-agent HTTP/1.1\r\nHost: localhost:4221\r\nUser-Agent: one\r\nAccept-Encoding: gzip, deflate\r\nUser-Agent:   two  \r\n\r\n";
    let parsed = Request::try_new(req).unwrap();
    assert_eq!(
        vec![
            ("Host".to_owned(), HeaderField::Single("localhost:4221".to_owned())),
            ("User-Agent".to_owned(), HeaderField::Single("two".to_owned())),
            (
                "Accept-Encoding".to_owned(),
                HeaderField::Multiple(vec!["gzip".to_owned(), "deflate".to_owned()])
            ),
        ],
        parsed.headers
    );
}

#[test]
fn header_without_colon_is_bad_request() {
    let req = b"GET / HTTP/1.1\r\nnonsense\r\n\r\n";
    assert_eq!(
        AppError::Client(ClientError::BadRequest),
        Request::try_new(req).unwrap_err()
    );
}

#[test]
fn body_follows_content_length() {
    let req = b"POST /files/a HTTP/1.1\r\nContent-Length: 5\r\n\r\nhello world";
    assert_eq!(b"hello".to_vec(), Request::try_new(req).unwrap().body);
    let req = b"POST /files/a HTTP/1.1\r\nContent-Length: +12\r\n\r\nshort";
    assert_eq!(b"short".to_vec(), Request::try_new(req).unwrap().body);
    let req = b"POST /files/a HTTP/1.1\r\n\r\nignored";
    assert!(Request::try_new(req).unwrap().body.is_empty());
}

#[test]
fn bad_content_length_is_parse_error() {
    for v in ["abc", "", "-1", "+", "18446744073709551616"] {
        let req = format!("POST /files/a HTTP/1.1\r\nContent-Length: {}\r\n\r\nx", v);
        assert_eq!(AppError::Parse, Request::try_new(req.as_bytes()).unwrap_err());
    }
    let req = b"POST /files/a HTTP/1.1\r\nContent-Length: 18446744073709551615\r\n\r\nx";
    assert_eq!(b"x".to_vec(), Request::try_new(req).unwrap().body);
}

#[test]
fn echo_body_comes_from_path_not_stream() {
    let req = b"GET /echo/grape HTTP/1.1\r\nContent-Length: 3\r\n\r\nxyz";
    assert_eq!(b"grape".to_vec(), Request::try_new(req).unwrap().body);
}

#[test]
fn invalid_utf8_path_is_io_error() {
    let req = b"GET /echo/\xff HTTP/1.1\r\n\r\n";
    assert!(matches!(Request::try_new(req).unwrap_err(), AppError::IO(_)));
}

#[test]
fn errors_convert_and_name_their_status() {
    assert_eq!(AppError::Client(ClientError::NotFound), AppError::from(ClientError::NotFound));
    assert_eq!(AppError::Server(ServerError::Internal), AppError::from(ServerError::Internal));
    assert_eq!(
        AppError::ThreadPool(ThreadPoolError::Spawn),
        AppError::from(ThreadPoolError::Spawn)
    );
    assert_eq!("404 Not Found", ClientError::NotFound.status_text());
    assert_eq!("400 Bad Request", ClientError::BadRequest.status_text());
    assert_eq!("500 Internal Server Error", ServerError::Internal.status_text());
    assert_eq!("501 Not Implemented", ServerError::NotImplemented.status_text());
}

#[test]
fn tokens_classify() {
    assert_eq!(Method::Get, Method::classify(b"GET"));
    assert_eq!(Method::Post, Method::classify(b"POST"));
    assert_eq!(Method::Unsupported(ServerError::NotImplemented), Method::classify(b"TRACE"));
    assert_eq!(Method::Unknown(ClientError::BadRequest), Method::classify(b"get"));
    assert_eq!(Route::Echo, Route::classify(b"echo"));
    assert_eq!(Route::UserAgent, Route::classify(b"user-agent"));
    assert_eq!(Route::Files, Route::classify(b"files"));
    assert_eq!(Route::Unknown, Route::classify(b"file"));
}
