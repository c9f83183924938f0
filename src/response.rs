use vstd::prelude::*;

use crate::errors::{client_status_text, server_status_text, ClientError, ServerError};
use crate::request::lit;
use crate::text::{append_bytes, append_decimal, decimal};

verus! {

/// A response, before it is framed into bytes.
#[derive(Debug, PartialEq, Eq)]
pub enum Response {
    /// Success, with an optional body: its bytes, its media type, and the
    /// encoding to apply to it.
    Success(Option<(Vec<u8>, String, Option<String>)>),
    NotFound,
    Created,
    ClientError(ClientError),
    ServerError(ServerError),
}

/// The gzip stream for `b`, as flate2 writes it at the default level.
pub uninterp spec fn gzip_of(b: Seq<u8>) -> Seq<u8>;

/// Relies on flate2's `GzEncoder` with the default level and the default
/// header (no name, no time stamp): the stream is a function of the input.
/// It writes into memory; should it fail anyway, nothing is returned.
#[verifier::external_body]
fn gzip(b: &[u8]) -> (r: Option<Vec<u8>>)
    ensures
        r matches Some(z) ==> z@ == gzip_of(b@),
{
    let mut encoder = flate2::write::GzEncoder::new(Vec::new(), flate2::Compression::default());
    match std::io::Write::write_all(&mut encoder, b) {
        Ok(()) => encoder.finish().ok(),
        Err(_) => None,
    }
}

/// A status line with no headers and no body.
pub open spec fn bare_frame(status: Seq<char>) -> Seq<u8> {
    lit("HTTP/1.1 "@) + lit(status) + lit("\r\n\r\n"@)
}

/// A successful response that carries `content` (already encoded).
pub open spec fn ok_frame(content: Seq<u8>, mime: Seq<char>, encoding: Option<Seq<char>>) -> Seq<
    u8,
> {
    lit("HTTP/1.1 200 OK\r\nContent-Type: "@) + lit(mime) + lit("\r\nContent-Length: "@) + decimal(
        content.len(),
    ) + lit("\r\n"@) + match encoding {
        Some(e) => lit("Content-Encoding: "@) + lit(e) + lit("\r\n"@),
        None => Seq::<u8>::empty(),
    } + lit("\r\n"@) + content
}

pub open spec fn text_opt(e: Option<String>) -> Option<Seq<char>> {
    match e {
        Some(s) => Some(s@),
        None => None,
    }
}

/// The bytes of `r`, where a body to be encoded is compressed to `gzip_of`.
pub open spec fn wire(r: Response) -> Seq<u8> {
    match r {
        Response::Success(None) => lit("HTTP/1.1 200 OK\r\n\r\n"@),
        Response::Success(Some((body, mime, encoding))) => match encoding {
            None => ok_frame(body@, mime@, None),
            Some(e) => ok_frame(gzip_of(body@), mime@, Some(e@)),
        },
        Response::NotFound => bare_frame(client_status_text(ClientError::NotFound)),
        Response::Created => bare_frame("201 Created"@),
        Response::ClientError(e) => bare_frame(client_status_text(e)),
        Response::ServerError(e) => bare_frame(server_status_text(e)),
    }
}

/// Frames a successful response around `content`, which is sent as it is;
/// `encoding`, where given, is announced in a Content-Encoding header.
pub fn frame_ok(content: &[u8], mime: &str, encoding: Option<&str>) -> (r: Vec<u8>)
    ensures
        r@ == ok_frame(
            content@,
            mime@,
            match encoding {
                Some(e) => Some(e@),
                None => None,
            },
        ),
{
    let mut out: Vec<u8> = Vec::new();
    append_bytes(&mut out, "HTTP/1.1 200 OK\r\nContent-Type: ".as_bytes());
    append_bytes(&mut out, mime.as_bytes());
    append_bytes(&mut out, "\r\nContent-Length: ".as_bytes());
    append_decimal(&mut out, content.len());
    append_bytes(&mut out, "\r\n".as_bytes());
    let ghost before = out@;
    match encoding {
        Some(e) => {
            append_bytes(&mut out, "Content-Encoding: ".as_bytes());
            append_bytes(&mut out, e.as_bytes());
            append_bytes(&mut out, "\r\n".as_bytes());
            assert(out@ =~= before + (lit("Content-Encoding: "@) + lit(e@) + lit("\r\n"@)));
        },
        None => {
            assert(out@ =~= before + Seq::<u8>::empty());
        },
    }
    append_bytes(&mut out, "\r\n".as_bytes());
    append_bytes(&mut out, content);
    out
}

fn frame_bare(status: &str) -> (r: Vec<u8>)
    ensures
        r@ == bare_frame(status@),
{
    let mut out: Vec<u8> = Vec::new();
    append_bytes(&mut out, "HTTP/1.1 ".as_bytes());
    append_bytes(&mut out, status.as_bytes());
    append_bytes(&mut out, "\r\n\r\n".as_bytes());
    out
}

impl Response {
    /// The bytes to send for this response. A body whose compression fails
    /// is not sent uncompressed: a 500 status goes out instead.
    pub fn to_vec(&self) -> (r: Vec<u8>)
        ensures
            r@ == wire(*self) || (self matches Response::Success(Some((_, _, Some(_)))) && r@
                == bare_frame(server_status_text(ServerError::Internal))),
            self matches Response::Success(Some((_, _, None))) ==> r@ == wire(*self),
            !(self matches Response::Success(Some(_))) ==> r@ == wire(*self),
    {
        match self {
            Response::Success(None) => slice_bytes("HTTP/1.1 200 OK\r\n\r\n".as_bytes()),
            Response::Success(Some((body, mime, encoding))) => match encoding {
                None => frame_ok(body.as_slice(), mime.as_str(), None),
                Some(e) => match gzip(body.as_slice()) {
                    Some(z) => frame_ok(z.as_slice(), mime.as_str(), Some(e.as_str())),
                    None => frame_bare(ServerError::Internal.status_text()),
                },
            },
            Response::NotFound => frame_bare(ClientError::NotFound.status_text()),
            Response::Created => frame_bare("201 Created"),
            Response::ClientError(e) => frame_bare(e.status_text()),
            Response::ServerError(e) => frame_bare(e.status_text()),
        }
    }
}

fn slice_bytes(b: &[u8]) -> (r: Vec<u8>)
    ensures
        r@ == b@,
{
    let mut out: Vec<u8> = Vec::new();
    append_bytes(&mut out, b);
    out
}

} // verus!
