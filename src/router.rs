use vstd::prelude::*;

use crate::errors::{AppError, ClientError, ServerError};
use crate::handlers::{
    accepts_gzip, carries, encoding_for, file_path, file_target, handle_echo, handle_empty, handle_unknown,
    handle_user_agent, segments, user_agent_of,
};
use crate::request::{lit, path_segments, route_of, seg_scan, Method, Request, RequestModel, Route};
use crate::response::{ok_frame, text_opt, wire, Response};
use vstd::slice::slice_to_vec;
use vstd::utf8::{is_ascii_chars, is_ascii_chars_encode_utf8};

verus! {

/// The handlers that a request can be given to.
#[derive(Debug, Clone, Copy, PartialEq, Eq, Structural)]
pub enum Handler {
    Empty,
    Echo,
    UserAgent,
    GetFile,
    PostFile,
    NotFound,
}

/// The routing table.
pub open spec fn route_table(m: Method, r: Route) -> Handler {
    match (m, r) {
        (Method::Get, Route::Root) => Handler::Empty,
        (Method::Get, Route::Echo) => Handler::Echo,
        (Method::Get, Route::UserAgent) => Handler::UserAgent,
        (Method::Get, Route::Files) => Handler::GetFile,
        (Method::Post, Route::Files) => Handler::PostFile,
        _ => Handler::NotFound,
    }
}

/// Picks the handler for a method and a route.
pub fn select_handler(m: Method, r: Route) -> (h: Handler)
    ensures
        h == route_table(m, r),
{
    match (m, r) {
        (Method::Get, Route::Root) => Handler::Empty,
        (Method::Get, Route::Echo) => Handler::Echo,
        (Method::Get, Route::UserAgent) => Handler::UserAgent,
        (Method::Get, Route::Files) => Handler::GetFile,
        (Method::Post, Route::Files) => Handler::PostFile,
        _ => Handler::NotFound,
    }
}

/// Every method and route is given exactly one handler, and the fallback
/// is chosen exactly for the pairs outside the table.
pub proof fn dispatch_is_total(m: Method, r: Route)
    ensures
        route_table(m, r) == Handler::NotFound <==> !((m == Method::Get && (r == Route::Root
            || r == Route::Echo || r == Route::UserAgent || r == Route::Files)) || (m
            == Method::Post && r == Route::Files)),
{
}

/// What the connection does next for a request.
pub enum Step {
    /// Send this response.
    Reply(Response),
    /// Read the file at this path, then answer with `handle_get_file`.
    ReadFile(Vec<u8>),
    /// Write these bytes to the file at this path, then answer with
    /// `handle_post_file`.
    WriteFile(Vec<u8>, Vec<u8>),
}

/// The file that a write stores, and what it stores: the request's body.
pub fn write_file(dir: &Option<String>, req: &Request) -> (r: Option<(Vec<u8>, Vec<u8>)>)
    ensures
        match file_target(text_opt(*dir), req@) {
            None => r is None,
            Some(p) => r matches Some(w) && w.0@ == p && w.1@ == req@.body,
        },
{
    match file_path(dir, req) {
        None => None,
        Some(p) => Some((p, slice_to_vec(req.body.as_slice()))),
    }
}

/// The failure when a write names no file: no base directory, or no name.
fn no_file() -> (r: AppError)
    ensures
        r is IO,
{
    AppError::IO("no file to write".to_owned())
}

/// Hands a request to its handler and says what the connection does next.
pub fn request_router(req: &Request, dir: &Option<String>) -> (r: Result<Step, AppError>)
    ensures
        match route_table(req@.method, req@.route) {
            Handler::Empty => r matches Ok(Step::Reply(Response::Success(None))),
            Handler::Echo => if segments(req@).len() < 2 {
                r == Err::<Step, AppError>(AppError::Client(ClientError::BadRequest))
            } else {
                r matches Ok(Step::Reply(resp)) && carries(
                    resp,
                    segments(req@)[1],
                    "text/plain"@,
                    encoding_for(req@.headers),
                )
            },
            Handler::UserAgent => r matches Ok(Step::Reply(resp)) && carries(
                resp,
                user_agent_of(req@.headers),
                "text/plain"@,
                encoding_for(req@.headers),
            ),
            Handler::GetFile => match file_target(text_opt(*dir), req@) {
                None => r matches Ok(Step::Reply(Response::NotFound)),
                Some(p) => r matches Ok(Step::ReadFile(q)) && q@ == p,
            },
            Handler::PostFile => match file_target(text_opt(*dir), req@) {
                None => r matches Err(e) && e is IO,
                Some(p) => r matches Ok(Step::WriteFile(q, b)) && q@ == p && b@ == req@.body,
            },
            Handler::NotFound => r matches Ok(Step::Reply(Response::NotFound)),
        },
{
    match select_handler(req.method, req.route) {
        Handler::Empty => Ok(Step::Reply(handle_empty())),
        Handler::Echo => match handle_echo(req) {
            Ok(resp) => Ok(Step::Reply(resp)),
            Err(e) => Err(e),
        },
        Handler::UserAgent => Ok(Step::Reply(handle_user_agent(req))),
        Handler::GetFile => match file_path(dir, req) {
            None => Ok(Step::Reply(handle_unknown())),
            Some(p) => Ok(Step::ReadFile(p)),
        },
        Handler::PostFile => match write_file(dir, req) {
            None => Err(no_file()),
            Some((p, b)) => Ok(Step::WriteFile(p, b)),
        },
        Handler::NotFound => Ok(Step::Reply(handle_unknown())),
    }
}

/// The response for a failure: client faults, and a number in the request
/// that could not be read, give 4xx; the rest gives 5xx.
pub open spec fn error_status(e: AppError) -> Response {
    match e {
        AppError::Client(ClientError::NotFound) => Response::NotFound,
        AppError::Client(k) => Response::ClientError(k),
        AppError::Server(k) => Response::ServerError(k),
        AppError::Parse => Response::ClientError(ClientError::BadRequest),
        _ => Response::ServerError(ServerError::Internal),
    }
}

/// Turns a failure into the response that reports it.
pub fn error_response(e: &AppError) -> (r: Response)
    ensures
        r == error_status(*e),
{
    match e {
        AppError::Client(ClientError::NotFound) => Response::NotFound,
        AppError::Client(k) => Response::ClientError(*k),
        AppError::Server(k) => Response::ServerError(*k),
        AppError::Parse => Response::ClientError(ClientError::BadRequest),
        _ => Response::ServerError(ServerError::Internal),
    }
}

/// A file written under a name is the file read under that name: a POST and
/// a GET whose second path segments agree name the same file.
pub proof fn file_round_trip(dir: Seq<char>, post: RequestModel, get: RequestModel)
    requires
        post.method == Method::Post,
        get.method == Method::Get,
        post.route == Route::Files,
        get.route == Route::Files,
        segments(post).len() > 1,
        segments(get).len() > 1,
        segments(post)[1] == segments(get)[1],
    ensures
        route_table(post.method, post.route) == Handler::PostFile,
        route_table(get.method, get.route) == Handler::GetFile,
        file_target(Some(dir), post) is Some,
        file_target(Some(dir), post) == file_target(Some(dir), get),
{
}

proof fn lemma_segment_tail(p: Seq<u8>, start: int, i: int)
    requires
        0 <= start <= i <= p.len(),
        start < p.len(),
        forall|k: int| start <= k < p.len() ==> p[k] != 47,
    ensures
        seg_scan(p, start, i) == seq![p.subrange(start, p.len() as int)],
    decreases p.len() - i,
{
    if i < p.len() {
        lemma_segment_tail(p, start, i + 1);
    }
}

/// A GET of "/echo/X", where X is not empty and holds no '/', goes to the
/// echo handler with X as the second segment; a response that carries that
/// segment, as the echo handler's does, sends X unchanged when no encoding
/// was negotiated.
pub proof fn echo_identity(x: Seq<u8>, req: RequestModel, resp: Response)
    requires
        x.len() > 0,
        forall|k: int| 0 <= k < x.len() ==> x[k] != 47,
        req.method == Method::Get,
        req.path == lit("/echo/"@) + x,
        req.route == route_of(path_segments(req.path)),
        carries(resp, segments(req)[1], "text/plain"@, encoding_for(req.headers)),
    ensures
        segments(req) == seq![lit("echo"@), x],
        route_table(req.method, req.route) == Handler::Echo,
        !accepts_gzip(req.headers) ==> wire(resp) == ok_frame(x, "text/plain"@, None),
{
    reveal_strlit("/echo/");
    reveal_strlit("echo");
    assert(is_ascii_chars("/echo/"@));
    assert(is_ascii_chars("echo"@));
    is_ascii_chars_encode_utf8("/echo/"@);
    is_ascii_chars_encode_utf8("echo"@);
    let prefix = lit("/echo/"@);
    assert(prefix =~= seq![47u8, 101u8, 99u8, 104u8, 111u8, 47u8]);
    assert(lit("echo"@) =~= seq![101u8, 99u8, 104u8, 111u8]);
    let p = req.path;
    assert(p[0] == 47 && p[1] == 101 && p[2] == 99 && p[3] == 104 && p[4] == 111 && p[5] == 47);
    assert forall|k: int| 6 <= k < p.len() implies p[k] != 47 by {
        assert(p[k] == x[k - 6]);
    }
    lemma_segment_tail(p, 6, 6);
    assert(seg_scan(p, 1, 4) == seg_scan(p, 1, 5));
    assert(seg_scan(p, 1, 3) == seg_scan(p, 1, 4));
    assert(seg_scan(p, 1, 2) == seg_scan(p, 1, 3));
    assert(seg_scan(p, 1, 1) == seg_scan(p, 1, 2));
    assert(seg_scan(p, 0, 0) == seq![] + seg_scan(p, 1, 1));
    assert(p.subrange(1, 5) =~= lit("echo"@));
    assert(p.subrange(6, p.len() as int) =~= x);
    assert(segments(req) =~= seq![lit("echo"@), x]);
}

} // verus!
