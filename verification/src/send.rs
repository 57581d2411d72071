//! Sending a file: conditional requests, ranges and the headers that
//! describe the file.

use vstd::prelude::*;
use crate::cache::{
    cache_headers, content_range_of, content_range_text, etag_text, extract_cache_headers,
    http_date, is_plain_etag, last_modified_value, parse_range, parsed_range, resolve_range,
    span_of, unsatisfied_range_of, unsatisfied_range_text, verdicts_of, Conditions, FileMeta,
    RangeValue, Span, Verdicts,
};
use crate::content::{
    charset_guess, content_type_of, disposition_text, get_content_type, is_field_value,
    looks_textual, mime_of_path, set_content_disposition, valid_header_value, Failure,
};
use crate::path::{file_name, try_get_file_name};
use crate::response::{
    agrees, fresh, no_headers, Body, BodyView, HeadersView, Response, ResponseView,
};
use crate::text::{
    opt_str, opt_text, chars_of, decimal, is_digit, lemma_decimal_digits, lemma_first_index,
    lemma_parse_decimal, starts_with,
};

verus! {

/// The validators of a file as its response carries them.
#[derive(Clone, Debug, PartialEq, Eq)]
pub struct Validators {
    /// The `ETag` value.
    pub etag: String,
    /// The `Last-Modified` value.
    pub last_modified: String,
}

/// Whether the verdicts of the conditional headers say that the client has
/// the file already: `If-None-Match` decides where it gives a verdict,
/// `If-Modified-Since` where it does not.
pub open spec fn is_cached(v: Verdicts) -> bool {
    match v.none_match {
        Some(passes) => !passes,
        None => match v.modified_since {
            Some(modified) => !modified,
            None => false,
        },
    }
}

/// Whether a `Range` header asks for bytes.
pub open spec fn asks_for_bytes(range: Option<Seq<char>>) -> bool {
    range matches Some(h) && "bytes="@.is_prefix_of(h)
}

/// The range of a request that is honoured. For a file with validators the
/// header has to ask for bytes, and `If-Range` must not have found the file
/// changed.
pub open spec fn honoured_range(validated: bool, v: Verdicts, range: Option<Seq<char>>) -> Option<
    RangeValue,
> {
    let used = if validated {
        asks_for_bytes(range) && v.range_modified != Some(true)
    } else {
        true
    };
    match range {
        Some(h) => if used {
            parsed_range(h)
        } else {
            None
        },
        None => None,
    }
}

/// The answer that says that the client's copy is current.
pub open spec fn not_modified() -> ResponseView {
    ResponseView { status: 304, ..fresh() }
}

/// The answer to a request for a file of `size` bytes at `path`.
pub open spec fn file_response(
    path: Seq<char>,
    size: u64,
    validators: Option<(Seq<char>, Seq<char>)>,
    v: Verdicts,
    range: Option<Seq<char>>,
    content_type: Seq<char>,
    head_only: bool,
) -> Result<ResponseView, Failure> {
    if validators is Some && is_cached(v) {
        Ok(not_modified())
    } else if !is_field_value(content_type) {
        Err(Failure::HeaderValue)
    } else if file_name(path) is None {
        Err(Failure::NoFileName)
    } else if !is_field_value(disposition_text(true, file_name(path)->0)) {
        Err(Failure::HeaderValue)
    } else {
        let described = HeadersView {
            etag: match validators {
                Some(pair) => Some(pair.0),
                None => None,
            },
            last_modified: match validators {
                Some(pair) => Some(pair.1),
                None => None,
            },
            content_type: Some(content_type),
            content_disposition: Some(disposition_text(true, file_name(path)->0)),
            accept_ranges: true,
            ..no_headers()
        };
        match span_of(honoured_range(validators is Some, v, range), size) {
            Span::Part { start, end } => Ok(
                ResponseView {
                    status: 206,
                    headers: HeadersView {
                        content_range: Some(content_range_text(start, end, size)),
                        content_length: Some((end - start + 1) as u64),
                        ..described
                    },
                    body: if head_only {
                        BodyView::Empty
                    } else {
                        BodyView::File { start, length: (end - start + 1) as u64 }
                    },
                },
            ),
            Span::Unsatisfiable => Ok(
                ResponseView {
                    status: 416,
                    headers: HeadersView {
                        content_range: Some(unsatisfied_range_text(size)),
                        ..described
                    },
                    body: BodyView::Empty,
                },
            ),
            Span::Whole => Ok(
                ResponseView {
                    status: 200,
                    headers: HeadersView { content_length: Some(size), ..described },
                    body: if head_only {
                        BodyView::Empty
                    } else {
                        BodyView::File { start: 0, length: size }
                    },
                },
            ),
        }
    }
}

/// The validators as texts.
pub open spec fn validator_texts(validators: Option<Validators>) -> Option<(Seq<char>, Seq<char>)> {
    match validators {
        Some(v) => Some((v.etag@, v.last_modified@)),
        None => None,
    }
}

fn range_to_use(validated: bool, v: Verdicts, range: Option<&str>) -> (r: Option<RangeValue>)
    ensures
        r == honoured_range(validated, v, opt_str(range)),
{
    match range {
        Some(h) => {
            let used = if validated {
                let chars = chars_of(h);
                let unit = chars_of("bytes=");
                let fresh = match v.range_modified {
                    Some(modified) => !modified,
                    None => true,
                };
                starts_with(chars.as_slice(), unit.as_slice()) && fresh
            } else {
                true
            };
            if used {
                parse_range(h)
            } else {
                None
            }
        },
        None => None,
    }
}

/// Answers a request for the file of `size` bytes at `path`, given its
/// validators, the verdicts of the conditional headers on them, the `Range`
/// header and the content type.
pub fn send_file(
    path: &str,
    size: u64,
    validators: Option<Validators>,
    verdicts: Verdicts,
    range: Option<&str>,
    content_type: &str,
    head_only: bool,
) -> (r: Result<Response, Failure>)
    ensures
        agrees(
            r,
            file_response(
                path@,
                size,
                validator_texts(validators),
                verdicts,
                opt_str(range),
                content_type@,
                head_only,
            ),
        ),
{
    let mut res = Response::new();
    let validated = validators.is_some();
    if validated {
        let cached = match verdicts.none_match {
            Some(passes) => !passes,
            None => match verdicts.modified_since {
                Some(modified) => !modified,
                None => false,
            },
        };
        if cached {
            res.status = 304;
            return Ok(res);
        }
    }
    match validators {
        Some(v) => {
            res.headers.last_modified = Some(v.last_modified);
            res.headers.etag = Some(v.etag);
        },
        None => {},
    }
    let wanted = range_to_use(validated, verdicts, range);
    if !valid_header_value(content_type) {
        return Err(Failure::HeaderValue);
    }
    res.headers.content_type = Some(content_type.to_owned());
    let filename = match try_get_file_name(path) {
        Some(n) => n,
        None => {
            return Err(Failure::NoFileName);
        },
    };
    match set_content_disposition(&mut res, true, filename.as_str()) {
        Ok(()) => {},
        Err(e) => {
            return Err(e);
        },
    }
    res.headers.accept_ranges = true;
    match resolve_range(wanted, size) {
        Span::Part { start, end } => {
            let part_size = end - start + 1;
            res.status = 206;
            res.headers.content_range = Some(content_range_of(start, end, size));
            res.headers.content_length = Some(part_size);
            if !head_only {
                res.body = Body::File { start, length: part_size };
            }
        },
        Span::Unsatisfiable => {
            res.status = 416;
            res.headers.content_range = Some(unsatisfied_range_of(size));
        },
        Span::Whole => {
            res.headers.content_length = Some(size);
            if !head_only {
                res.body = Body::File { start: 0, length: size };
            }
        },
    }
    Ok(res)
}

/// The validators of a file, with the date written out.
pub open spec fn validators_of(meta: FileMeta) -> Option<(Seq<char>, Seq<char>)> {
    match cache_headers(meta) {
        Some(c) => Some((c.0, http_date(c.1 as int))),
        None => None,
    }
}

/// The verdicts of a request's conditional headers on a file.
pub open spec fn verdicts_on(meta: FileMeta, cond: Conditions) -> Verdicts {
    match cache_headers(meta) {
        Some(c) => verdicts_of(cond, c.0, c.1 as int),
        None => Verdicts { none_match: None, modified_since: None, range_modified: None },
    }
}

/// The entity tag of a file is a plain one.
pub proof fn lemma_etag_is_plain(mtime_ms: u64, size: u64)
    ensures
        is_plain_etag(etag_text(mtime_ms, size)),
{
    let a = decimal(mtime_ms as nat);
    let b = decimal(size as nat);
    lemma_decimal_digits(mtime_ms as nat);
    lemma_decimal_digits(size as nat);
    let s = etag_text(mtime_ms, size);
    assert(s.len() == a.len() + b.len() + 3);
    assert forall|i: int| 0 < i < s.len() - 1 implies is_digit(#[trigger] s[i]) || s[i] == '-' by {
        if i < 1 + a.len() {
            assert(s[i] == a[i - 1]);
        } else if i == 1 + a.len() {
            assert(s[i] == '-');
        } else {
            assert(s[i] == b[i - 2 - a.len()]);
        }
    }
}

/// Answers a request for the file at `path`, given what the file system
/// tells about it, the conditional headers of the request and the first
/// bytes of the file. A request that repeats the file's entity tag in
/// `If-None-Match` is told that its copy is current.
pub fn handle_send_file(
    path: &str,
    meta: &FileMeta,
    cond: &Conditions,
    head: &[u8],
    head_only: bool,
) -> (r: Result<Response, Failure>)
    ensures
        agrees(
            r,
            file_response(
                path@,
                meta.size,
                validators_of(*meta),
                verdicts_on(*meta, *cond),
                opt_text(cond.range),
                content_type_of(
                    mime_of_path(path@),
                    looks_textual(head@),
                    charset_guess(head@, head@.len() < 1024),
                ),
                head_only,
            ),
        ),
        (cache_headers(*meta) matches Some(c) && cond.if_none_match matches Some(h) && h@ == c.0)
            ==> (r matches Ok(res) && res@ == not_modified()),
{
    let (validators, verdicts) = match extract_cache_headers(meta) {
        Some((etag, secs)) => {
            let verdicts = Verdicts::evaluate(cond, etag.as_str(), secs);
            proof {
                match meta.modified {
                    Some(crate::cache::FileTime::Since { secs: s, nanos }) => {
                        lemma_etag_is_plain(
                            crate::cache::timestamp(
                                crate::cache::FileTime::Since { secs: s, nanos },
                            ),
                            meta.size,
                        );
                    },
                    _ => {},
                }
            }
            (Some(Validators { etag, last_modified: last_modified_value(secs) }), verdicts)
        },
        None => (None, Verdicts::none()),
    };
    let content_type = get_content_type(path, head);
    let range: Option<&str> = match &cond.range {
        Some(h) => Some(h.as_str()),
        None => None,
    };
    send_file(path, meta.size, validators, verdicts, range, content_type.as_str(), head_only)
}

/// The bytes of a file that a body made of a part of it carries.
pub open spec fn served_bytes(content: Seq<u8>, body: BodyView) -> Seq<u8> {
    match body {
        BodyView::File { start, length } => content.subrange(start as int, start + length),
        _ => Seq::<u8>::empty(),
    }
}

/// The `Range` header that asks for the bytes from `start` to `end`.
pub open spec fn range_header_text(start: u64, end: u64) -> Seq<char> {
    "bytes="@ + decimal(start as nat) + seq!['-'] + decimal(end as nat)
}

/// A header that asks for the bytes from `start` to `end` is read as that
/// range.
pub proof fn lemma_range_header_parses(start: u64, end: u64)
    ensures
        parsed_range(range_header_text(start, end)) == Some(
            RangeValue { start, end: Some(end) },
        ),
        asks_for_bytes(Some(range_header_text(start, end))),
{
    reveal_strlit("bytes=");
    reveal_strlit("bytes");
    let a = decimal(start as nat);
    let b = decimal(end as nat);
    lemma_decimal_digits(start as nat);
    lemma_decimal_digits(end as nat);
    lemma_parse_decimal(start);
    lemma_parse_decimal(end);
    let h = range_header_text(start, end);
    assert(h.len() == 6 + a.len() + 1 + b.len());
    assert("bytes="@.is_prefix_of(h)) by {
        assert(h.subrange(0, 6) =~= "bytes="@);
    }
    lemma_first_index(h, '=', 5);
    assert(h.take(5) =~= "bytes"@);
    let set = h.skip(6);
    assert(set =~= a + seq!['-'] + b);
    assert forall|i: int| 0 <= i < set.len() implies set[i] != ',' by {
        if i < a.len() {
            assert(set[i] == a[i]);
        } else if i > a.len() {
            assert(set[i] == b[i - a.len() - 1]);
        }
    }
    lemma_first_index(set, ',', set.len() as int);
    let first = set.take(set.len() as int);
    assert(first =~= set);
    assert forall|i: int| 0 <= i < a.len() implies first[i] != '-' by {
        assert(first[i] == a[i]);
    }
    lemma_first_index(first, '-', a.len() as int);
    assert(first.take(a.len() as int) =~= a);
    assert(first.skip(a.len() as int + 1) =~= b);
}

/// A ranged request for the bytes from `start` to `end` of a file, both
/// inside it, is answered with exactly those bytes and with a
/// `Content-Range` that names them, unless the client's copy is current or
/// `If-Range` found the file changed.
pub proof fn lemma_range_round_trip(
    path: Seq<char>,
    content: Seq<u8>,
    validators: Option<(Seq<char>, Seq<char>)>,
    v: Verdicts,
    content_type: Seq<char>,
    start: u64,
    end: u64,
)
    requires
        start <= end < content.len() <= u64::MAX,
        !(validators is Some && is_cached(v)),
        v.range_modified != Some(true),
        file_response(
            path,
            content.len() as u64,
            validators,
            v,
            Some(range_header_text(start, end)),
            content_type,
            false,
        ) is Ok,
    ensures
        ({
            let res = file_response(
                path,
                content.len() as u64,
                validators,
                v,
                Some(range_header_text(start, end)),
                content_type,
                false,
            )->Ok_0;
            &&& res.status == 206
            &&& res.headers.content_range == Some(
                content_range_text(start, end, content.len() as u64),
            )
            &&& res.headers.content_length == Some((end - start + 1) as u64)
            &&& served_bytes(content, res.body) == content.subrange(start as int, end + 1)
        }),
{
    lemma_range_header_parses(start, end);
}

/// `res` turned into the answer that a range could not be met: 416, the
/// size of the file in `Content-Range`, no length and no body.
pub open spec fn unsatisfied(res: ResponseView, size: u64) -> ResponseView {
    ResponseView {
        status: 416,
        headers: HeadersView {
            content_range: Some(unsatisfied_range_text(size)),
            content_length: None,
            ..res.headers
        },
        body: BodyView::Empty,
    }
}

/// Turns the answer to a ranged request into the answer that the range
/// could not be met; for a file of `size` bytes that could not be read from
/// the start of the range.
pub fn range_not_satisfiable(res: &mut Response, size: u64)
    ensures
        final(res)@ == unsatisfied(old(res)@, size),
{
    res.status = 416;
    res.headers.content_range = Some(unsatisfied_range_of(size));
    res.headers.content_length = None;
    res.body = Body::Empty;
}

} // verus!
