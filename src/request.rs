use vstd::prelude::*;
use vstd::slice::{slice_subrange, slice_to_vec};
use vstd::utf8::*;

use crate::errors::{AppError, ClientError, ServerError};
use crate::scan::{
    colon_at, find_colon, find_line_end, find_token_end, line_end, parse_u64, read_u64, skip_space,
    skip_spaces, split_comma_list, split_list, token_end, trim_back, trim_end,
};
use crate::text::{byte_strings, bytes_eq, text_of};

verus! {

/// The request method.
#[derive(Debug, Clone, Copy, PartialEq, Eq, Structural)]
pub enum Method {
    Get,
    Post,
    /// A token that is no HTTP method.
    Unknown(ClientError),
    /// An HTTP method that this server does not offer.
    Unsupported(ServerError),
}

/// The coarse category of a request, decided by the first path segment.
#[derive(Debug, Clone, Copy, PartialEq, Eq, Structural)]
pub enum Route {
    Root,
    Echo,
    UserAgent,
    Files,
    Unknown,
}

/// The bytes of a text.
pub open spec fn lit(s: Seq<char>) -> Seq<u8> {
    encode_utf8(s)
}

pub open spec fn method_of(t: Seq<u8>) -> Method {
    if t == lit("GET"@) {
        Method::Get
    } else if t == lit("POST"@) {
        Method::Post
    } else if t == lit("PUT"@) || t == lit("PATCH"@) || t == lit("OPTIONS"@) || t == lit("HEAD"@)
        || t == lit("DELETE"@) || t == lit("CONNECT"@) || t == lit("TRACE"@) {
        Method::Unsupported(ServerError::NotImplemented)
    } else {
        Method::Unknown(ClientError::BadRequest)
    }
}

pub open spec fn route_of_segment(t: Seq<u8>) -> Route {
    if t == lit("echo"@) {
        Route::Echo
    } else if t == lit("user-agent"@) {
        Route::UserAgent
    } else if t == lit("files"@) {
        Route::Files
    } else {
        Route::Unknown
    }
}

/// The route of a path, given its non-empty segments.
pub open spec fn route_of(segs: Seq<Seq<u8>>) -> Route {
    if segs.len() == 0 {
        Route::Root
    } else {
        route_of_segment(segs[0])
    }
}

impl Method {
    /// Classifies a method token.
    pub fn classify(t: &[u8]) -> (r: Method)
        ensures
            r == method_of(t@),
    {
        if bytes_eq(t, "GET".as_bytes()) {
            Method::Get
        } else if bytes_eq(t, "POST".as_bytes()) {
            Method::Post
        } else if bytes_eq(t, "PUT".as_bytes()) || bytes_eq(t, "PATCH".as_bytes()) || bytes_eq(
            t,
            "OPTIONS".as_bytes(),
        ) || bytes_eq(t, "HEAD".as_bytes()) || bytes_eq(t, "DELETE".as_bytes()) || bytes_eq(
            t,
            "CONNECT".as_bytes(),
        ) || bytes_eq(t, "TRACE".as_bytes()) {
            Method::Unsupported(ServerError::NotImplemented)
        } else {
            Method::Unknown(ClientError::BadRequest)
        }
    }
}

impl Route {
    /// Classifies the first segment of a path.
    pub fn classify(t: &[u8]) -> (r: Route)
        ensures
            r == route_of_segment(t@),
    {
        if bytes_eq(t, "echo".as_bytes()) {
            Route::Echo
        } else if bytes_eq(t, "user-agent".as_bytes()) {
            Route::UserAgent
        } else if bytes_eq(t, "files".as_bytes()) {
            Route::Files
        } else {
            Route::Unknown
        }
    }
}

/// The non-empty pieces of `p[start..]` between slashes, where the piece
/// under way began at `start` and the scan stands at `i`.
pub open spec fn seg_scan(p: Seq<u8>, start: int, i: int) -> Seq<Seq<u8>>
    decreases p.len() - i,
{
    if i >= p.len() {
        if start < i {
            seq![p.subrange(start, i)]
        } else {
            seq![]
        }
    } else if p[i] == 47 {
        (if start < i {
            seq![p.subrange(start, i)]
        } else {
            seq![]
        }) + seg_scan(p, i + 1, i + 1)
    } else {
        seg_scan(p, start, i + 1)
    }
}

/// The segments of a path: its pieces between slashes, empty ones left out.
pub open spec fn path_segments(p: Seq<u8>) -> Seq<Seq<u8>> {
    seg_scan(p, 0, 0)
}


/// Splits a path on '/' and keeps the non-empty segments.
pub fn get_path_parts(p: &[u8]) -> (r: Vec<Vec<u8>>)
    ensures
        byte_strings(r@) == path_segments(p@),
{
    let mut out: Vec<Vec<u8>> = Vec::new();
    let mut start: usize = 0;
    let mut i: usize = 0;
    while i < p.len()
        invariant
            start <= i <= p@.len(),
            byte_strings(out@) + seg_scan(p@, start as int, i as int) == path_segments(p@),
        decreases p@.len() - i,
    {
        if p[i] == 47u8 {
            if start < i {
                let piece = slice_to_vec(slice_subrange(p, start, i));
                assert(byte_strings(out@.push(piece)) == byte_strings(out@) + seq![piece@]);
                out.push(piece);
            }
            assert(byte_strings(out@) + seg_scan(p@, i + 1, i + 1) == path_segments(p@));
            i = i + 1;
            start = i;
        } else {
            i = i + 1;
        }
    }
    if start < i {
        let piece = slice_to_vec(slice_subrange(p, start, i));
        assert(byte_strings(out@.push(piece)) == byte_strings(out@) + seq![piece@]);
        out.push(piece);
    }
    out
}


/// A header's value. Only the negotiated encodings are kept as a list.
#[derive(Debug, PartialEq, Eq)]
pub enum HeaderField {
    Single(String),
    Multiple(Vec<String>),
}

/// A header's value as bytes.
pub enum FieldModel {
    Single(Seq<u8>),
    Multiple(Seq<Seq<u8>>),
}

pub open spec fn texts(v: Seq<String>) -> Seq<Seq<u8>> {
    v.map_values(|x: String| lit(x@))
}

impl View for HeaderField {
    type V = FieldModel;

    open spec fn view(&self) -> FieldModel {
        match self {
            HeaderField::Single(s) => FieldModel::Single(lit(s@)),
            HeaderField::Multiple(v) => FieldModel::Multiple(texts(v@)),
        }
    }
}

/// The header mapping as bytes, in the order in which keys first came.
pub open spec fn headers_model(h: Seq<(String, HeaderField)>) -> Seq<(Seq<u8>, FieldModel)> {
    h.map_values(|e: (String, HeaderField)| (lit(e.0@), e.1@))
}

/// The last position of key `k` in `h`, or -1.
pub open spec fn key_pos(h: Seq<(Seq<u8>, FieldModel)>, k: Seq<u8>) -> int
    decreases h.len(),
{
    if h.len() == 0 {
        -1
    } else if h.last().0 == k {
        h.len() - 1
    } else {
        key_pos(h.drop_last(), k)
    }
}

/// `h` with key `k` bound to `v`: in place where `k` stands, else at the end.
pub open spec fn upsert(h: Seq<(Seq<u8>, FieldModel)>, k: Seq<u8>, v: FieldModel) -> Seq<
    (Seq<u8>, FieldModel),
> {
    let i = key_pos(h, k);
    if i < 0 {
        h.push((k, v))
    } else {
        h.update(i, (k, v))
    }
}

/// The value bound to key `k` in `h`.
pub open spec fn lookup(h: Seq<(Seq<u8>, FieldModel)>, k: Seq<u8>) -> Option<FieldModel> {
    let i = key_pos(h, k);
    if i < 0 {
        None
    } else {
        Some(h[i].1)
    }
}

/// Every key of `h` stands in it once.
pub open spec fn unique_keys(h: Seq<(Seq<u8>, FieldModel)>) -> bool {
    forall|i: int, j: int| 0 <= i < j < h.len() ==> h[i].0 != h[j].0
}

pub proof fn lemma_key_pos(h: Seq<(Seq<u8>, FieldModel)>, k: Seq<u8>)
    ensures
        -1 <= key_pos(h, k) < h.len(),
        key_pos(h, k) >= 0 ==> h[key_pos(h, k)].0 == k,
        key_pos(h, k) < 0 ==> forall|i: int| 0 <= i < h.len() ==> h[i].0 != k,
    decreases h.len(),
{
    if h.len() > 0 {
        lemma_key_pos(h.drop_last(), k);
        if h.last().0 != k {
            assert forall|i: int| 0 <= i < h.len() && key_pos(h, k) < 0 implies h[i].0 != k by {
                if i < h.len() - 1 {
                    assert(h[i] == h.drop_last()[i]);
                }
            }
        }
    }
}

/// Binding a key keeps every key of the mapping unique.
pub proof fn lemma_upsert_unique(h: Seq<(Seq<u8>, FieldModel)>, k: Seq<u8>, v: FieldModel)
    requires
        unique_keys(h),
    ensures
        unique_keys(upsert(h, k, v)),
        lookup(upsert(h, k, v), k) == Some(v),
{
    lemma_key_pos(h, k);
    let u = upsert(h, k, v);
    lemma_key_pos(u, k);
    if key_pos(h, k) < 0 {
        assert(u.last().0 == k);
    } else {
        let p = key_pos(h, k);
        assert(u[p].0 == k);
        assert(unique_keys(u));
        let q = key_pos(u, k);
        assert(q >= 0);
        assert(u[q].0 == k);
        assert(q == p);
    }
}

fn upsert_header(h: &mut Vec<(String, HeaderField)>, key: String, value: HeaderField)
    ensures
        headers_model(final(h)@) == upsert(headers_model(old(h)@), lit(key@), value@),
{
    let ghost hm = headers_model(h@);
    let ghost k = lit(key@);
    let mut i: usize = h.len();
    assert(hm.subrange(0, i as int) == hm);
    while i > 0
        invariant
            i <= h@.len(),
            h@ == old(h)@,
            hm == headers_model(h@),
            k == lit(key@),
            key_pos(hm, k) == key_pos(hm.subrange(0, i as int), k),
        decreases i,
    {
        let same = bytes_eq(h[i - 1].0.as_str().as_bytes(), key.as_str().as_bytes());
        assert(hm.subrange(0, i as int).last() == hm[i - 1]);
        if same {
            h.set(i - 1, (key, value));
            assert(headers_model(h@) == hm.update(i - 1, (k, value@)));
            return ;
        }
        assert(hm.subrange(0, i as int).drop_last() == hm.subrange(0, i - 1));
        i = i - 1;
    }
    h.push((key, value));
    assert(headers_model(h@) == hm.push((k, value@)));
}

pub(crate) fn find_header<'a>(h: &'a Vec<(String, HeaderField)>, key: &[u8]) -> (r: Option<&'a HeaderField>)
    ensures
        match lookup(headers_model(h@), key@) {
            None => r is None,
            Some(f) => r matches Some(x) && x@ == f,
        },
{
    let ghost hm = headers_model(h@);
    let mut i: usize = h.len();
    assert(hm.subrange(0, i as int) == hm);
    while i > 0
        invariant
            i <= h@.len(),
            hm == headers_model(h@),
            key_pos(hm, key@) == key_pos(hm.subrange(0, i as int), key@),
        decreases i,
    {
        let same = bytes_eq(h[i - 1].0.as_str().as_bytes(), key);
        assert(hm.subrange(0, i as int).last() == hm[i - 1]);
        if same {
            return Some(&h[i - 1].1);
        }
        assert(hm.subrange(0, i as int).drop_last() == hm.subrange(0, i - 1));
        i = i - 1;
    }
    None
}


/// A request as read from a connection.
#[derive(Debug, PartialEq)]
pub struct Request {
    pub method: Method,
    pub route: Route,
    pub path: String,
    /// Header keys with their values; each key stands once.
    pub headers: Vec<(String, HeaderField)>,
    pub body: Vec<u8>,
}

/// A request with its text as bytes.
pub struct RequestModel {
    pub method: Method,
    pub route: Route,
    pub path: Seq<u8>,
    pub headers: Seq<(Seq<u8>, FieldModel)>,
    pub body: Seq<u8>,
}

impl View for Request {
    type V = RequestModel;

    open spec fn view(&self) -> RequestModel {
        RequestModel {
            method: self.method,
            route: self.route,
            path: lit(self.path@),
            headers: headers_model(self.headers@),
            body: self.body@,
        }
    }
}

/// The ways in which reading a request can fail.
pub enum Failure {
    BadRequest,
    NotImplemented,
    Io,
    Parse,
}

/// Whether error `e` is of kind `f`.
pub open spec fn reports(e: AppError, f: Failure) -> bool {
    match f {
        Failure::BadRequest => e == AppError::Client(ClientError::BadRequest),
        Failure::NotImplemented => e == AppError::Server(ServerError::NotImplemented),
        Failure::Io => e is IO,
        Failure::Parse => e is Parse,
    }
}

pub open spec fn all_text(v: Seq<Seq<u8>>) -> bool {
    forall|i: int| 0 <= i < v.len() ==> valid_utf8(#[trigger] v[i])
}

/// The header in `s[a..b]`, a line with its whitespace trimmed: the key is
/// what stands before the first colon, the value the trimmed rest.
pub open spec fn header_entry(s: Seq<u8>, a: int, b: int) -> Result<(Seq<u8>, FieldModel), Failure> {
    let c = colon_at(s, a, b);
    if c >= b {
        Err(Failure::BadRequest)
    } else {
        let key = s.subrange(a, c);
        let value = s.subrange(skip_space(s, c + 1, b), b);
        if !valid_utf8(key) {
            Err(Failure::Io)
        } else if key == lit("Accept-Encoding"@) {
            if all_text(split_list(value)) {
                Ok((key, FieldModel::Multiple(split_list(value))))
            } else {
                Err(Failure::Io)
            }
        } else if valid_utf8(value) {
            Ok((key, FieldModel::Single(value)))
        } else {
            Err(Failure::Io)
        }
    }
}

/// The headers from the line at `pos` on, bound into `h`, with the index
/// where the body starts: just past the first line that is blank once
/// trimmed, or the end of the input.
pub open spec fn header_scan(s: Seq<u8>, pos: int, h: Seq<(Seq<u8>, FieldModel)>) -> Result<
    (Seq<(Seq<u8>, FieldModel)>, int),
    Failure,
>
    decreases s.len() - pos,
{
    let le = line_end(s, pos);
    let a = skip_space(s, pos, le);
    let b = trim_back(s, a, le);
    if a >= b || le <= pos || le > s.len() {
        Ok((h, le))
    } else {
        match header_entry(s, a, b) {
            Err(f) => Err(f),
            Ok((k, v)) => header_scan(s, le, upsert(h, k, v)),
        }
    }
}

/// The body: the second path segment for an echo, else as many bytes after
/// the headers as Content-Length gives, or fewer where the input ends first.
pub open spec fn body_of(
    s: Seq<u8>,
    start: int,
    route: Route,
    segs: Seq<Seq<u8>>,
    headers: Seq<(Seq<u8>, FieldModel)>,
) -> Result<Seq<u8>, Failure> {
    if route == Route::Echo && segs.len() > 1 {
        Ok(segs[1])
    } else {
        match lookup(headers, lit("Content-Length"@)) {
            None => Ok(seq![]),
            Some(FieldModel::Multiple(_)) => Err(Failure::BadRequest),
            Some(FieldModel::Single(v)) => match parse_u64(v) {
                None => Err(Failure::Parse),
                Some(n) => Ok(
                    s.subrange(
                        start,
                        if start + n < s.len() {
                            start + n
                        } else {
                            s.len() as int
                        },
                    ),
                ),
            },
        }
    }
}

/// The start line of `s` read as method token and path: the bounds of its
/// first two whitespace-separated tokens.
pub open spec fn start_tokens(s: Seq<u8>) -> (int, int, int, int) {
    let l = line_end(s, 0);
    let method_start = skip_space(s, 0, l);
    let method_end = token_end(s, method_start, l);
    let path_start = skip_space(s, method_end, l);
    let path_end = token_end(s, path_start, l);
    (method_start, method_end, path_start, path_end)
}

/// What reading a request from the bytes `s` gives.
pub open spec fn parse_request(s: Seq<u8>) -> Result<RequestModel, Failure> {
    let (method_start, method_end, path_start, path_end) = start_tokens(s);
    if path_start >= path_end {
        Err(Failure::BadRequest)
    } else {
        match method_of(s.subrange(method_start, method_end)) {
            Method::Unsupported(_) => Err(Failure::NotImplemented),
            Method::Unknown(_) => Err(Failure::BadRequest),
            method => {
                let path = s.subrange(path_start, path_end);
                if !valid_utf8(path) {
                    Err(Failure::Io)
                } else {
                    let segs = path_segments(path);
                    let route = route_of(segs);
                    match header_scan(s, line_end(s, 0), seq![]) {
                        Err(f) => Err(f),
                        Ok((headers, start)) => match body_of(s, start, route, segs, headers) {
                            Err(f) => Err(f),
                            Ok(body) => Ok(
                                RequestModel { method, route, path, headers, body },
                            ),
                        },
                    }
                }
            },
        }
    }
}

fn invalid_text() -> (r: AppError)
    ensures
        r is IO,
{
    AppError::IO("stream did not contain valid UTF-8".to_owned())
}

fn texts_of(parts: &Vec<Vec<u8>>) -> (r: Option<Vec<String>>)
    ensures
        r is Some <==> all_text(byte_strings(parts@)),
        r matches Some(v) ==> texts(v@) == byte_strings(parts@),
{
    let ghost bs = byte_strings(parts@);
    let mut out: Vec<String> = Vec::new();
    let mut i: usize = 0;
    while i < parts.len()
        invariant
            i <= parts@.len(),
            bs == byte_strings(parts@),
            out@.len() == i,
            texts(out@) == bs.subrange(0, i as int),
            all_text(bs.subrange(0, i as int)),
        decreases parts@.len() - i,
    {
        match text_of(parts[i].as_slice()) {
            None => {
                assert(parts@[i as int]@ == bs[i as int]);
                assert(!valid_utf8(bs[i as int]));
                return None;
            },
            Some(t) => {
                assert(parts@[i as int]@ == bs[i as int]);
                proof {
                    decode_utf8_encode_utf8(bs[i as int]);
                }
                assert(lit(t@) == bs[i as int]);
                assert forall|j: int| 0 <= j < i implies #[trigger] texts(out@.push(t))[j]
                    == bs.subrange(0, i + 1)[j] by {
                    assert(out@.push(t)[j] == out@[j]);
                    assert(texts(out@)[j] == bs.subrange(0, i as int)[j]);
                }
                assert(texts(out@.push(t))[i as int] == lit(t@));
                assert(texts(out@.push(t)) =~= bs.subrange(0, i + 1));
                out.push(t);
            },
        }
        assert(all_text(bs.subrange(0, i + 1))) by {
            assert forall|j: int| 0 <= j < i + 1 implies valid_utf8(
                #[trigger] bs.subrange(0, i + 1)[j],
            ) by {
                if j < i {
                    assert(bs.subrange(0, i + 1)[j] == bs.subrange(0, i as int)[j]);
                }
            }
        }
        i = i + 1;
    }
    assert(bs.subrange(0, i as int) == bs);
    Some(out)
}

fn read_header(s: &[u8], a: usize, b: usize) -> (r: Result<(String, HeaderField), AppError>)
    requires
        a < b <= s@.len(),
    ensures
        match header_entry(s@, a as int, b as int) {
            Ok((k, v)) => r matches Ok(x) && lit(x.0@) == k && x.1@ == v,
            Err(f) => r matches Err(e) && reports(e, f),
        },
{
    let c = find_colon(s, a, b);
    if c >= b {
        return Err(AppError::Client(ClientError::BadRequest));
    }
    let key_bytes = slice_subrange(s, a, c);
    let v0 = skip_spaces(s, c + 1, b);
    let value_bytes = slice_subrange(s, v0, b);
    let key = match text_of(key_bytes) {
        Some(k) => {
            proof {
                decode_utf8_encode_utf8(key_bytes@);
            }
            k
        },
        None => {
            return Err(invalid_text());
        },
    };
    if bytes_eq(key_bytes, "Accept-Encoding".as_bytes()) {
        let parts = split_comma_list(value_bytes);
        match texts_of(&parts) {
            Some(v) => Ok((key, HeaderField::Multiple(v))),
            None => Err(invalid_text()),
        }
    } else {
        match text_of(value_bytes) {
            Some(v) => {
                proof {
                    decode_utf8_encode_utf8(value_bytes@);
                }
                Ok((key, HeaderField::Single(v)))
            },
            None => Err(invalid_text()),
        }
    }
}

/// Reads header lines from index `l` on, up to the first blank line.
fn read_headers(s: &[u8], l: usize) -> (r: Result<(Vec<(String, HeaderField)>, usize), AppError>)
    requires
        l <= s@.len(),
    ensures
        match header_scan(s@, l as int, seq![]) {
            Ok((h, start)) => r matches Ok(x) && headers_model(x.0@) == h && x.1 == start && start
                <= s@.len(),
            Err(f) => r matches Err(e) && reports(e, f),
        },
{
    let mut headers: Vec<(String, HeaderField)> = Vec::new();
    assert(headers_model(headers@) =~= Seq::<(Seq<u8>, FieldModel)>::empty());
    let mut pos: usize = l;
    loop
        invariant
            l <= pos <= s@.len(),
            header_scan(s@, pos as int, headers_model(headers@)) == header_scan(
                s@,
                l as int,
                seq![],
            ),
        decreases s@.len() - pos,
    {
        let le = find_line_end(s, pos);
        let a = skip_spaces(s, pos, le);
        let b = trim_end(s, a, le);
        if a >= b {
            return Ok((headers, le));
        }
        let (key, value) = match read_header(s, a, b) {
            Ok(e) => e,
            Err(e) => {
                return Err(e);
            },
        };
        upsert_header(&mut headers, key, value);
        pos = le;
    }
}

impl Request {
    /// Reads a request from the bytes of a connection: start line, headers,
    /// then the body.
    pub fn try_new(s: &[u8]) -> (r: Result<Request, AppError>)
        ensures
            match parse_request(s@) {
                Ok(m) => r matches Ok(q) && q@ == m,
                Err(f) => r matches Err(e) && reports(e, f),
            },
            r matches Ok(q) ==> unique_keys(q@.headers) && lists_only_encodings(q@.headers),
    {
        proof {
            parsed_headers_are_well_formed(s@);
        }
        let l = find_line_end(s, 0);
        let method_start = skip_spaces(s, 0, l);
        let method_end = find_token_end(s, method_start, l);
        let path_start = skip_spaces(s, method_end, l);
        let path_end = find_token_end(s, path_start, l);
        if path_start >= path_end {
            return Err(AppError::Client(ClientError::BadRequest));
        }
        let method = match Method::classify(slice_subrange(s, method_start, method_end)) {
            Method::Unsupported(e) => {
                return Err(AppError::Server(e));
            },
            Method::Unknown(e) => {
                return Err(AppError::Client(e));
            },
            m => m,
        };
        let path_bytes = slice_subrange(s, path_start, path_end);
        let path = match text_of(path_bytes) {
            Some(t) => {
                proof {
                    decode_utf8_encode_utf8(path_bytes@);
                }
                t
            },
            None => {
                return Err(invalid_text());
            },
        };
        let segs = get_path_parts(path_bytes);
        let route = if segs.len() == 0 {
            Route::Root
        } else {
            Route::classify(segs[0].as_slice())
        };
        assert(byte_strings(segs@).len() == segs@.len());
        assert(segs.len() > 0 ==> segs@[0]@ == byte_strings(segs@)[0]);
        assert(segs.len() > 1 ==> segs@[1]@ == byte_strings(segs@)[1]);
        let (headers, start) = match read_headers(s, l) {
            Ok(hs) => hs,
            Err(e) => {
                return Err(e);
            },
        };
        let body: Vec<u8> = if route == Route::Echo && segs.len() > 1 {
            slice_to_vec(segs[1].as_slice())
        } else {
            match find_header(&headers, "Content-Length".as_bytes()) {
                None => Vec::new(),
                Some(HeaderField::Multiple(_)) => {
                    return Err(AppError::Client(ClientError::BadRequest));
                },
                Some(HeaderField::Single(v)) => match read_u64(v.as_str().as_bytes()) {
                    None => {
                        return Err(AppError::Parse);
                    },
                    Some(n) => {
                        let end = if n < (s.len() - start) as u64 {
                            start + n as usize
                        } else {
                            s.len()
                        };
                        slice_to_vec(slice_subrange(s, start, end))
                    },
                },
            }
        };
        Ok(Request { method, route, path, headers, body })
    }
}


proof fn lemma_line_prefix(s: Seq<u8>, l: int, i: int)
    requires
        0 <= i <= l <= s.len(),
        i < l ==> line_end(s, i) == l,
    ensures
        line_end(s.subrange(0, l), i) == l,
    decreases l - i,
{
    let f = s.subrange(0, l);
    if i < l {
        assert(f[i] == s[i]);
        if s[i] != 10 {
            lemma_line_prefix(s, l, i + 1);
        }
    }
}

proof fn lemma_scan_prefix(s: Seq<u8>, l: int, i: int, e: int)
    requires
        0 <= i,
        e <= l <= s.len(),
    ensures
        skip_space(s.subrange(0, l), i, e) == skip_space(s, i, e),
        token_end(s.subrange(0, l), i, e) == token_end(s, i, e),
        skip_space(s, i, e) >= i,
        token_end(s, i, e) >= i,
    decreases e - i,
{
    if i < e {
        assert(s.subrange(0, l)[i] == s[i]);
        lemma_scan_prefix(s, l, i + 1, e);
    }
}

/// A start line without a path fails as a bad request, whatever follows it.
/// The first line alone fails the same way, so neither headers nor body
/// need be read to reject the request.
pub proof fn start_line_without_path(s: Seq<u8>)
    requires
        start_tokens(s).2 >= start_tokens(s).3,
    ensures
        parse_request(s) == Err::<RequestModel, Failure>(Failure::BadRequest),
        parse_request(s.subrange(0, line_end(s, 0))) == Err::<RequestModel, Failure>(
            Failure::BadRequest,
        ),
{
    let l = line_end(s, 0);
    lemma_line_end_bound(s, 0);
    lemma_line_prefix(s, l, 0);
    let (method_start, method_end, path_start, path_end) = start_tokens(s);
    lemma_scan_prefix(s, l, 0, l);
    lemma_scan_prefix(s, l, method_start, l);
    lemma_scan_prefix(s, l, method_end, l);
    lemma_scan_prefix(s, l, path_start, l);
}

proof fn lemma_line_end_bound(s: Seq<u8>, i: int)
    requires
        0 <= i,
    ensures
        i <= s.len() ==> i <= line_end(s, i) <= s.len(),
    decreases s.len() - i,
{
    if i < s.len() && s[i] != 10 {
        lemma_line_end_bound(s, i + 1);
    }
}


/// Only the Accept-Encoding header holds a list.
pub open spec fn lists_only_encodings(h: Seq<(Seq<u8>, FieldModel)>) -> bool {
    forall|i: int|
        0 <= i < h.len() && (#[trigger] h[i]).1 is Multiple ==> h[i].0 == lit("Accept-Encoding"@)
}

proof fn lemma_upsert_lists(h: Seq<(Seq<u8>, FieldModel)>, k: Seq<u8>, v: FieldModel)
    requires
        lists_only_encodings(h),
        v is Multiple ==> k == lit("Accept-Encoding"@),
    ensures
        lists_only_encodings(upsert(h, k, v)),
{
    lemma_key_pos(h, k);
    let u = upsert(h, k, v);
    assert forall|i: int| 0 <= i < u.len() && (#[trigger] u[i]).1 is Multiple implies u[i].0 == lit(
        "Accept-Encoding"@,
    ) by {
        if i < h.len() && i != key_pos(h, k) {
            assert(u[i] == h[i]);
        }
    }
}

proof fn lemma_scan_invariants(s: Seq<u8>, pos: int, h: Seq<(Seq<u8>, FieldModel)>)
    requires
        unique_keys(h),
        lists_only_encodings(h),
    ensures
        header_scan(s, pos, h) matches Ok((h2, _)) ==> unique_keys(h2) && lists_only_encodings(
            h2,
        ),
    decreases s.len() - pos,
{
    let le = line_end(s, pos);
    let a = skip_space(s, pos, le);
    let b = trim_back(s, a, le);
    if !(a >= b || le <= pos || le > s.len()) {
        match header_entry(s, a, b) {
            Ok((k, v)) => {
                lemma_upsert_unique(h, k, v);
                lemma_upsert_lists(h, k, v);
                lemma_scan_invariants(s, le, upsert(h, k, v));
            },
            Err(_) => {},
        }
    }
}

/// The headers of every request read have unique keys, and only
/// Accept-Encoding holds a list.
pub proof fn parsed_headers_are_well_formed(s: Seq<u8>)
    ensures
        parse_request(s) matches Ok(m) ==> unique_keys(m.headers) && lists_only_encodings(
            m.headers,
        ),
{
    lemma_scan_invariants(s, line_end(s, 0), seq![]);
}

} // verus!
