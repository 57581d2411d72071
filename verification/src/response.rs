//! The answer to one request: status, headers and what the body is made of.

use vstd::prelude::*;
use vstd::string::*;
use crate::text::{decimal, decimal_string, opt_text, pairs_text};

verus! {

/// One of the bundled files of the web interface.
#[derive(Clone, Copy, Debug, PartialEq, Eq, Structural)]
pub enum Asset {
    IndexJs,
    IndexCss,
    Favicon,
}

/// What the body of a response is made of.
#[derive(Clone, Debug, PartialEq, Eq)]
pub enum Body {
    /// No body.
    Empty,
    /// The given text.
    Text(String),
    /// A bundled file.
    Asset(Asset),
    /// `length` bytes of the file that the request names, from offset
    /// `start` on.
    File { start: u64, length: u64 },
    /// The archive of the directory that the request names.
    Zip,
}

pub enum BodyView {
    Empty,
    Text(Seq<char>),
    Asset(Asset),
    File { start: u64, length: u64 },
    Zip,
}

impl View for Body {
    type V = BodyView;

    open spec fn view(&self) -> BodyView {
        match self {
            Body::Empty => BodyView::Empty,
            Body::Text(s) => BodyView::Text(s@),
            Body::Asset(a) => BodyView::Asset(*a),
            Body::File { start, length } => BodyView::File { start: *start, length: *length },
            Body::Zip => BodyView::Zip,
        }
    }
}

/// The headers that a response can carry. Names are lower-case on the wire.
#[derive(Clone, Debug, PartialEq, Eq)]
pub struct Headers {
    pub content_type: Option<String>,
    pub content_length: Option<u64>,
    pub content_range: Option<String>,
    pub content_disposition: Option<String>,
    pub etag: Option<String>,
    pub last_modified: Option<String>,
    /// `accept-ranges: bytes`
    pub accept_ranges: bool,
    /// `cache-control: max-age=2592000, public`
    pub cache_control: bool,
    pub www_authenticate: Option<String>,
    /// `allow` and `dav`, as every WebDAV answer carries them.
    pub webdav: bool,
    pub lock_token: Option<String>,
    /// The five `access-control-*` headers that open the server to other
    /// origins.
    pub cors: bool,
}

pub struct HeadersView {
    pub content_type: Option<Seq<char>>,
    pub content_length: Option<u64>,
    pub content_range: Option<Seq<char>>,
    pub content_disposition: Option<Seq<char>>,
    pub etag: Option<Seq<char>>,
    pub last_modified: Option<Seq<char>>,
    pub accept_ranges: bool,
    pub cache_control: bool,
    pub www_authenticate: Option<Seq<char>>,
    pub webdav: bool,
    pub lock_token: Option<Seq<char>>,
    pub cors: bool,
}

impl View for Headers {
    type V = HeadersView;

    open spec fn view(&self) -> HeadersView {
        HeadersView {
            content_type: opt_text(self.content_type),
            content_length: self.content_length,
            content_range: opt_text(self.content_range),
            content_disposition: opt_text(self.content_disposition),
            etag: opt_text(self.etag),
            last_modified: opt_text(self.last_modified),
            accept_ranges: self.accept_ranges,
            cache_control: self.cache_control,
            www_authenticate: opt_text(self.www_authenticate),
            webdav: self.webdav,
            lock_token: opt_text(self.lock_token),
            cors: self.cors,
        }
    }
}

/// No header at all.
pub open spec fn no_headers() -> HeadersView {
    HeadersView {
        content_type: None,
        content_length: None,
        content_range: None,
        content_disposition: None,
        etag: None,
        last_modified: None,
        accept_ranges: false,
        cache_control: false,
        www_authenticate: None,
        webdav: false,
        lock_token: None,
        cors: false,
    }
}

impl Headers {
    /// No header at all.
    pub fn new() -> (r: Self)
        ensures
            r@ == no_headers(),
    {
        Headers {
            content_type: None,
            content_length: None,
            content_range: None,
            content_disposition: None,
            etag: None,
            last_modified: None,
            accept_ranges: false,
            cache_control: false,
            www_authenticate: None,
            webdav: false,
            lock_token: None,
            cors: false,
        }
    }
}

/// A response: status code, headers, body.
#[derive(Clone, Debug, PartialEq, Eq)]
pub struct Response {
    pub status: u16,
    pub headers: Headers,
    pub body: Body,
}

pub struct ResponseView {
    pub status: u16,
    pub headers: HeadersView,
    pub body: BodyView,
}

impl View for Response {
    type V = ResponseView;

    open spec fn view(&self) -> ResponseView {
        ResponseView { status: self.status, headers: self.headers@, body: self.body@ }
    }
}

/// The response that every request starts from: 200, no header, no body.
pub open spec fn fresh() -> ResponseView {
    ResponseView { status: 200, headers: no_headers(), body: BodyView::Empty }
}

/// `res` turned into a refusal: 403 with the body `Forbidden`.
pub open spec fn forbidden(res: ResponseView) -> ResponseView {
    ResponseView { status: 403, body: BodyView::Text("Forbidden"@), ..res }
}

/// `res` turned into 404 with the body `Not Found`.
pub open spec fn not_found(res: ResponseView) -> ResponseView {
    ResponseView { status: 404, body: BodyView::Text("Not Found"@), ..res }
}

/// `res` with another status.
pub open spec fn with_status(res: ResponseView, status: u16) -> ResponseView {
    ResponseView { status, ..res }
}

/// `res` with the WebDAV headers.
pub open spec fn with_webdav(res: ResponseView) -> ResponseView {
    ResponseView { headers: HeadersView { webdav: true, ..res.headers }, ..res }
}

/// `res` with the cross-origin headers.
pub open spec fn with_cors(res: ResponseView) -> ResponseView {
    ResponseView { headers: HeadersView { cors: true, ..res.headers }, ..res }
}

/// The body of a multistatus answer around `content`.
pub open spec fn multistatus_body(content: Seq<char>) -> Seq<char> {
    "<?xml version=\"1.0\" encoding=\"utf-8\" ?>\n<D:multistatus xmlns:D=\"DAV:\">\n"@ + content
        + "\n</D:multistatus>"@
}

/// `res` turned into a multistatus answer: 207, XML content type, and the
/// multistatus element around `content`.
pub open spec fn multistatus(res: ResponseView, content: Seq<char>) -> ResponseView {
    ResponseView {
        status: 207,
        headers: HeadersView {
            content_type: Some("application/xml; charset=utf-8"@),
            ..res.headers
        },
        body: BodyView::Text(multistatus_body(content)),
    }
}

impl Response {
    /// The response that every request starts from.
    pub fn new() -> (r: Self)
        ensures
            r@ == fresh(),
    {
        Response { status: 200, headers: Headers::new(), body: Body::Empty }
    }
}

/// Turns `res` into a refusal.
pub fn status_forbid(res: &mut Response)
    ensures
        final(res)@ == forbidden(old(res)@),
{
    res.status = 403;
    res.body = Body::Text("Forbidden".to_owned());
}

/// Turns `res` into a 404.
pub fn status_not_found(res: &mut Response)
    ensures
        final(res)@ == not_found(old(res)@),
{
    res.status = 404;
    res.body = Body::Text("Not Found".to_owned());
}

/// Sets the status of `res` to 204.
pub fn status_no_content(res: &mut Response)
    ensures
        final(res)@ == with_status(old(res)@, 204),
{
    res.status = 204;
}

/// Adds the WebDAV headers to `res`.
pub fn set_webdav_headers(res: &mut Response)
    ensures
        final(res)@ == with_webdav(old(res)@),
{
    res.headers.webdav = true;
}

/// Adds the cross-origin headers to `res`.
pub fn add_cors(res: &mut Response)
    ensures
        final(res)@ == with_cors(old(res)@),
{
    res.headers.cors = true;
}

/// Turns `res` into a multistatus answer around `content`.
pub fn res_multistatus(res: &mut Response, content: &str)
    ensures
        final(res)@ == multistatus(old(res)@, content@),
{
    res.status = 207;
    res.headers.content_type = Some("application/xml; charset=utf-8".to_owned());
    let mut body = "<?xml version=\"1.0\" encoding=\"utf-8\" ?>\n<D:multistatus xmlns:D=\"DAV:\">\n".to_owned();
    body.append(content);
    body.append("\n</D:multistatus>");
    res.body = Body::Text(body);
}

/// The header line of a value that may be there.
pub open spec fn opt_line(name: Seq<char>, value: Option<Seq<char>>) -> Seq<(Seq<char>, Seq<char>)> {
    match value {
        Some(v) => seq![(name, v)],
        None => Seq::empty(),
    }
}

/// The header line of a fixed value that is sent or not.
pub open spec fn flag_line(flag: bool, name: Seq<char>, value: Seq<char>) -> Seq<
    (Seq<char>, Seq<char>),
> {
    if flag {
        seq![(name, value)]
    } else {
        Seq::empty()
    }
}

/// The two header lines that every WebDAV answer carries.
pub open spec fn webdav_lines() -> Seq<(Seq<char>, Seq<char>)> {
    seq![("allow"@, "GET,HEAD,PUT,OPTIONS,DELETE,PROPFIND,COPY,MOVE"@), ("dav"@, "1,2"@)]
}

/// The five header lines that open the server to other origins.
pub open spec fn cors_lines() -> Seq<(Seq<char>, Seq<char>)> {
    seq![
        ("access-control-allow-origin"@, "*"@),
        ("access-control-allow-credentials"@, "true"@),
        ("access-control-allow-methods"@, "*"@),
        ("access-control-allow-headers"@, "Authorization,*"@),
        ("access-control-expose-headers"@, "Authorization,*"@),
    ]
}

/// The headers as lines of name and value, names in lower case.
pub open spec fn header_lines(h: HeadersView) -> Seq<(Seq<char>, Seq<char>)> {
    opt_line("content-type"@, h.content_type) + opt_line(
        "content-length"@,
        match h.content_length {
            Some(n) => Some(decimal(n as nat)),
            None => None,
        },
    ) + opt_line("content-range"@, h.content_range) + opt_line(
        "content-disposition"@,
        h.content_disposition,
    ) + opt_line("etag"@, h.etag) + opt_line("last-modified"@, h.last_modified) + flag_line(
        h.accept_ranges,
        "accept-ranges"@,
        "bytes"@,
    ) + flag_line(h.cache_control, "cache-control"@, "max-age=2592000, public"@) + opt_line(
        "www-authenticate"@,
        h.www_authenticate,
    ) + (if h.webdav {
        webdav_lines()
    } else {
        Seq::empty()
    }) + opt_line("lock-token"@, h.lock_token) + (if h.cors {
        cors_lines()
    } else {
        Seq::empty()
    })
}

fn push_line(out: &mut Vec<(String, String)>, name: &str, value: &str)
    ensures
        pairs_text(final(out)@) == pairs_text(old(out)@) + seq![(name@, value@)],
{
    out.push((name.to_owned(), value.to_owned()));
    assert(pairs_text(out@) =~= pairs_text(old(out)@) + seq![(name@, value@)]);
}

fn push_opt_line(out: &mut Vec<(String, String)>, name: &str, value: &Option<String>)
    ensures
        pairs_text(final(out)@) == pairs_text(old(out)@) + opt_line(name@, opt_text(*value)),
{
    match value {
        Some(v) => {
            push_line(out, name, v.as_str());
        },
        None => {
            assert(pairs_text(out@) + Seq::empty() =~= pairs_text(out@));
        },
    }
}

fn push_flag_line(out: &mut Vec<(String, String)>, flag: bool, name: &str, value: &str)
    ensures
        pairs_text(final(out)@) == pairs_text(old(out)@) + flag_line(flag, name@, value@),
{
    if flag {
        push_line(out, name, value);
    } else {
        assert(pairs_text(out@) + Seq::empty() =~= pairs_text(out@));
    }
}

impl Headers {
    /// The headers as lines of name and value, in a fixed order.
    pub fn to_pairs(&self) -> (r: Vec<(String, String)>)
        ensures
            pairs_text(r@) == header_lines(self@),
    {
        let mut out: Vec<(String, String)> = Vec::new();
        assert(pairs_text(out@) =~= Seq::empty());
        push_opt_line(&mut out, "content-type", &self.content_type);
        let length = match self.content_length {
            Some(n) => Some(decimal_string(n)),
            None => None,
        };
        push_opt_line(&mut out, "content-length", &length);
        push_opt_line(&mut out, "content-range", &self.content_range);
        push_opt_line(&mut out, "content-disposition", &self.content_disposition);
        push_opt_line(&mut out, "etag", &self.etag);
        push_opt_line(&mut out, "last-modified", &self.last_modified);
        push_flag_line(&mut out, self.accept_ranges, "accept-ranges", "bytes");
        push_flag_line(&mut out, self.cache_control, "cache-control", "max-age=2592000, public");
        push_opt_line(&mut out, "www-authenticate", &self.www_authenticate);
        let ghost before_dav = pairs_text(out@);
        if self.webdav {
            push_line(&mut out, "allow", "GET,HEAD,PUT,OPTIONS,DELETE,PROPFIND,COPY,MOVE");
            push_line(&mut out, "dav", "1,2");
            assert(pairs_text(out@) =~= before_dav + webdav_lines());
        } else {
            assert(before_dav + Seq::empty() =~= before_dav);
        }
        push_opt_line(&mut out, "lock-token", &self.lock_token);
        let ghost before_cors = pairs_text(out@);
        if self.cors {
            push_line(&mut out, "access-control-allow-origin", "*");
            push_line(&mut out, "access-control-allow-credentials", "true");
            push_line(&mut out, "access-control-allow-methods", "*");
            push_line(&mut out, "access-control-allow-headers", "Authorization,*");
            push_line(&mut out, "access-control-expose-headers", "Authorization,*");
            assert(pairs_text(out@) =~= before_cors + cors_lines());
        } else {
            assert(before_cors + Seq::empty() =~= before_cors);
        }
        out
    }
}

/// Whether an outcome is the one wanted: the same failure, or an answer
/// with the same status, headers and body.
pub open spec fn agrees<E>(r: Result<Response, E>, want: Result<ResponseView, E>) -> bool {
    match want {
        Ok(v) => r matches Ok(res) && res@ == v,
        Err(e) => r matches Err(f) && f == e,
    }
}

} // verus!
