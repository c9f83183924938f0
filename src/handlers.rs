use vstd::prelude::*;
use vstd::slice::slice_to_vec;

use crate::errors::{AppError, ClientError};
use crate::request::{
    find_header, get_path_parts, headers_model, lit, lookup, path_segments, texts,
    FieldModel, HeaderField, Request, RequestModel,
};
use crate::response::{text_opt, Response};
use crate::text::{byte_strings, bytes_eq};

verus! {

/// Whether the client accepts gzip: its Accept-Encoding list holds the entry "gzip".
pub open spec fn accepts_gzip(h: Seq<(Seq<u8>, FieldModel)>) -> bool {
    match lookup(h, lit("Accept-Encoding"@)) {
        Some(FieldModel::Multiple(v)) => v.contains(lit("gzip"@)),
        _ => false,
    }
}

/// The encoding negotiated for a response body.
pub open spec fn encoding_for(h: Seq<(Seq<u8>, FieldModel)>) -> Option<Seq<char>> {
    if accepts_gzip(h) {
        Some("gzip"@)
    } else {
        None
    }
}

/// The segments of a request's path.
pub open spec fn segments(req: RequestModel) -> Seq<Seq<u8>> {
    path_segments(req.path)
}

/// The User-Agent value, or nothing where the header is absent.
pub open spec fn user_agent_of(h: Seq<(Seq<u8>, FieldModel)>) -> Seq<u8> {
    match lookup(h, lit("User-Agent"@)) {
        Some(FieldModel::Single(v)) => v,
        _ => Seq::<u8>::empty(),
    }
}

/// `name` placed under directory `dir`, with one '/' between them.
pub open spec fn join(dir: Seq<u8>, name: Seq<u8>) -> Seq<u8> {
    if dir.len() == 0 || dir.last() == 47 {
        dir + name
    } else {
        dir + seq![47u8] + name
    }
}

/// The file that a file route names: the second path segment under the
/// base directory, where both are there.
pub open spec fn file_target(dir: Option<Seq<char>>, req: RequestModel) -> Option<Seq<u8>> {
    match dir {
        None => None,
        Some(d) => if segments(req).len() > 1 {
            Some(join(lit(d), segments(req)[1]))
        } else {
            None
        },
    }
}

/// `r` is a success that carries `body` of type `mime`, to be sent with `encoding`.
pub open spec fn carries(r: Response, body: Seq<u8>, mime: Seq<char>, encoding: Option<Seq<char>>) -> bool {
    match r {
        Response::Success(Some((b, m, e))) => b@ == body && m@ == mime && text_opt(e) == encoding,
        _ => false,
    }
}

/// The encoding to apply to a response body, from the request's headers.
pub fn get_encoding(headers: &Vec<(String, HeaderField)>) -> (r: Option<String>)
    ensures
        text_opt(r) == encoding_for(headers_model(headers@)),
{
    let found = find_header(headers, "Accept-Encoding".as_bytes());
    match found {
        Some(HeaderField::Multiple(v)) => {
            assert(lookup(headers_model(headers@), lit("Accept-Encoding"@)) == Some(
                FieldModel::Multiple(texts(v@)),
            ));
            let ghost entries = texts(v@);
            let mut i: usize = 0;
            while i < v.len()
                invariant
                    i <= v@.len(),
                    entries == texts(v@),
                    lookup(headers_model(headers@), lit("Accept-Encoding"@)) == Some(
                        FieldModel::Multiple(entries),
                    ),
                    forall|j: int| 0 <= j < i ==> entries[j] != lit("gzip"@),
                decreases v@.len() - i,
            {
                if bytes_eq(v[i].as_str().as_bytes(), "gzip".as_bytes()) {
                    assert(entries[i as int] == lit("gzip"@));
                    assert(entries.contains(lit("gzip"@)));
                    return Some("gzip".to_owned());
                }
                assert(entries[i as int] != lit("gzip"@));
                i = i + 1;
            }
            assert(!entries.contains(lit("gzip"@)));
            None
        },
        _ => None,
    }
}

fn request_segments(req: &Request) -> (r: Vec<Vec<u8>>)
    ensures
        byte_strings(r@) == segments(req@),
{
    get_path_parts(req.path.as_str().as_bytes())
}

/// The root route: success with no body.
pub fn handle_empty() -> (r: Response)
    ensures
        r matches Response::Success(None),
{
    Response::Success(None)
}

/// Echoes the second path segment back as plain text.
pub fn handle_echo(req: &Request) -> (r: Result<Response, AppError>)
    ensures
        segments(req@).len() < 2 ==> r == Err::<Response, AppError>(
            AppError::Client(ClientError::BadRequest),
        ),
        segments(req@).len() >= 2 ==> (r matches Ok(resp) && carries(
            resp,
            segments(req@)[1],
            "text/plain"@,
            encoding_for(req@.headers),
        )),
{
    let segs = request_segments(req);
    if segs.len() < 2 {
        return Err(AppError::Client(ClientError::BadRequest));
    }
    assert(segs@[1]@ == byte_strings(segs@)[1]);
    let body = slice_to_vec(segs[1].as_slice());
    let encoding = get_encoding(&req.headers);
    Ok(Response::Success(Some((body, "text/plain".to_owned(), encoding))))
}

/// Sends the User-Agent header back as plain text.
pub fn handle_user_agent(req: &Request) -> (r: Response)
    ensures
        carries(r, user_agent_of(req@.headers), "text/plain"@, encoding_for(req@.headers)),
{
    let body = match find_header(&req.headers, "User-Agent".as_bytes()) {
        Some(HeaderField::Single(v)) => slice_to_vec(v.as_str().as_bytes()),
        _ => Vec::new(),
    };
    let encoding = get_encoding(&req.headers);
    Response::Success(Some((body, "text/plain".to_owned(), encoding)))
}

/// Answers a file read, given what reading the file gave: its bytes, or
/// nothing where there was no file to read or the read failed.
pub fn handle_get_file(req: &Request, contents: Option<Vec<u8>>) -> (r: Response)
    ensures
        contents is None ==> r matches Response::NotFound,
        contents matches Some(b) ==> carries(
            r,
            b@,
            "application/octet-stream"@,
            encoding_for(req@.headers),
        ),
{
    match contents {
        None => handle_unknown(),
        Some(b) => {
            let encoding = get_encoding(&req.headers);
            Response::Success(Some((b, "application/octet-stream".to_owned(), encoding)))
        },
    }
}

/// Answers a file write, given how writing the file went.
pub fn handle_post_file(written: Result<(), String>) -> (r: Result<Response, AppError>)
    ensures
        written is Ok ==> r matches Ok(Response::Created),
        written matches Err(m) ==> r == Err::<Response, AppError>(AppError::IO(m)),
{
    match written {
        Ok(()) => Ok(Response::Created),
        Err(m) => Err(AppError::IO(m)),
    }
}

/// The fallback for every method and route that nothing else serves.
pub fn handle_unknown() -> (r: Response)
    ensures
        r matches Response::NotFound,
{
    Response::NotFound
}

/// The path of the file that a file route names, under the base directory.
pub fn file_path(dir: &Option<String>, req: &Request) -> (r: Option<Vec<u8>>)
    ensures
        match file_target(text_opt(*dir), req@) {
            None => r is None,
            Some(p) => r matches Some(q) && q@ == p,
        },
{
    match dir {
        None => None,
        Some(d) => {
            let segs = request_segments(req);
            if segs.len() < 2 {
                return None;
            }
            assert(segs@[1]@ == byte_strings(segs@)[1]);
            let mut out = slice_to_vec(d.as_str().as_bytes());
            if out.len() > 0 && out[out.len() - 1] != 47u8 {
                out.push(47u8);
            }
            crate::text::append_bytes(&mut out, segs[1].as_slice());
            Some(out)
        },
    }
}


/// A body sent to a client that accepts gzip goes out compressed, under a
/// Content-Encoding: gzip header; to any other client it goes out as it
/// is, with no such header.
pub proof fn negotiation(
    resp: Response,
    body: Seq<u8>,
    mime: Seq<char>,
    h: Seq<(Seq<u8>, FieldModel)>,
)
    requires
        carries(resp, body, mime, encoding_for(h)),
    ensures
        accepts_gzip(h) ==> crate::response::wire(resp) == crate::response::ok_frame(
            crate::response::gzip_of(body),
            mime,
            Some("gzip"@),
        ),
        !accepts_gzip(h) ==> crate::response::wire(resp) == crate::response::ok_frame(
            body,
            mime,
            None,
        ),
{
}


/// How many body bytes a request announces: none for an echo that carries
/// its value in the path, else the Content-Length where it reads as a number.
pub open spec fn wanted_len(req: RequestModel) -> u64 {
    if req.route == crate::request::Route::Echo && segments(req).len() > 1 {
        0
    } else {
        match lookup(req.headers, lit("Content-Length"@)) {
            Some(FieldModel::Single(v)) => match crate::scan::parse_u64(v) {
                Some(n) => n,
                None => 0,
            },
            _ => 0,
        }
    }
}

/// The number of body bytes that follow the headers of `req` on the wire.
pub fn body_wanted(req: &Request) -> (r: u64)
    ensures
        r == wanted_len(req@),
{
    if req.route == crate::request::Route::Echo {
        let segs = request_segments(req);
        if segs.len() > 1 {
            return 0;
        }
    }
    match find_header(&req.headers, "Content-Length".as_bytes()) {
        Some(HeaderField::Single(v)) => match crate::scan::read_u64(v.as_str().as_bytes()) {
            Some(n) => n,
            None => 0,
        },
        _ => 0,
    }
}

} // verus!
