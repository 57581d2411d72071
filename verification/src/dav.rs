//! The WebDAV answers: property listings, the fixed answer to a property
//! update, and locks that hold nothing.

use vstd::prelude::*;
use vstd::string::*;
use chrono::TimeZone;
use crate::access::{AccessPaths, AccessPerm};
use crate::content::{is_field_char, is_field_value, valid_header_value, Failure};
use crate::listing::{
    items_view, listed, pathitem_of, EntryStat, PathItem, PathItemView, StatEntry,
};
use crate::response::{
    agrees, forbidden, fresh, multistatus, no_headers, not_found, res_multistatus, status_forbid,
    status_not_found, with_status, Body, BodyView, HeadersView, Response, ResponseView,
};
use crate::server::Server;
use crate::sort::size_or_zero;
use crate::text::{
    lemma_decimal_digits, opt_str, chars_of, decimal, decimal_string, last_segment, parse_u64, parsed_u64, signed_decimal,
    signed_decimal_string,
};
use crate::uri::{encode_uri, uri_encoded};

verus! {

/// The last millisecond whose date RFC 2822 can write: the end of the year
/// 9999.
pub const MAX_DATE_MILLIS: u64 = 253402300799999;

/// The date, in UTC, of a millisecond since 1970 as RFC 2822 writes it.
pub uninterp spec fn rfc2822_date(millis: int) -> Seq<char>;

/// `chrono::Utc.timestamp_millis_opt(millis)` and, on the date that it
/// gives, `to_rfc2822()`.
#[verifier::external_body]
fn format_rfc2822(millis: u64) -> (r: String)
    requires
        millis <= MAX_DATE_MILLIS,
    ensures
        r@ == rfc2822_date(millis as int),
{
    match chrono::Utc.timestamp_millis_opt(millis as i64) {
        chrono::LocalResult::Single(v) => v.to_rfc2822(),
        _ => String::new(),
    }
}

/// A character as it stands in XML character data.
pub open spec fn escaped_char(c: char) -> Seq<char> {
    if c == '<' {
        "&lt;"@
    } else if c == '>' {
        "&gt;"@
    } else if c == '&' {
        "&amp;"@
    } else {
        seq![c]
    }
}

/// A text as it stands in XML character data: `<`, `>` and `&` are written
/// as entities.
pub open spec fn pcdata_escaped(s: Seq<char>) -> Seq<char>
    decreases s.len(),
{
    if s.len() == 0 {
        Seq::<char>::empty()
    } else {
        pcdata_escaped(s.drop_last()) + escaped_char(s.last())
    }
}

/// `xml::escape::escape_str_pcdata`: every `<`, `>` and `&` is replaced by
/// its entity, every other character stays.
#[verifier::external_body]
fn escape_pcdata(s: &str) -> (r: String)
    ensures
        r@ == pcdata_escaped(s@),
{
    xml::escape::escape_str_pcdata(s).into_owned()
}

/// Whether a character is a hexadecimal digit in lower case.
pub open spec fn is_lower_hex(c: char) -> bool {
    ('0' <= c && c <= '9') || ('a' <= c && c <= 'f')
}

/// Whether a text has the form of a UUID: 36 characters, hyphens at the
/// positions 8, 13, 18 and 23, hexadecimal digits in lower case elsewhere.
pub open spec fn is_hyphenated_uuid(s: Seq<char>) -> bool {
    &&& s.len() == 36
    &&& forall|i: int|
        0 <= i < 36 ==> if i == 8 || i == 13 || i == 18 || i == 23 {
            #[trigger] s[i] == '-'
        } else {
            is_lower_hex(s[i])
        }
}

/// `uuid::Uuid::new_v4()`, written out: a random UUID in its hyphenated
/// form.
#[verifier::external_body]
fn new_uuid() -> (r: String)
    ensures
        is_hyphenated_uuid(r@),
{
    uuid::Uuid::new_v4().to_string()
}

/// `chrono::Utc::now().timestamp()`: the seconds since 1970 at the moment
/// of the call.
#[verifier::external_body]
fn unix_now() -> (r: i64) {
    chrono::Utc::now().timestamp()
}

/// The link of an entry: the encoded prefix and name, with a slash at the
/// end for a directory.
pub open spec fn dav_href(prefix: Seq<char>, item: PathItemView) -> Seq<char> {
    let href = uri_encoded(prefix + item.name);
    if item.is_dir() && !(href.len() > 0 && href.last() == '/') {
        href.push('/')
    } else {
        href
    }
}

/// The date of an entry in a property listing; empty for a time beyond the
/// year 9999.
pub open spec fn dav_date(mtime: u64) -> Seq<char> {
    if mtime <= MAX_DATE_MILLIS {
        rfc2822_date(mtime as int)
    } else {
        Seq::<char>::empty()
    }
}

/// The `response` element of a directory.
pub open spec fn dir_response(href: Seq<char>, displayname: Seq<char>, date: Seq<char>) -> Seq<
    char,
> {
    "<D:response>\n<D:href>"@ + href + "</D:href>\n<D:propstat>\n<D:prop>\n<D:displayname>"@
        + displayname + "</D:displayname>\n<D:getlastmodified>"@ + date
        + "</D:getlastmodified>\n<D:resourcetype><D:collection/></D:resourcetype>\n</D:prop>\n<D:status>HTTP/1.1 200 OK</D:status>\n</D:propstat>\n</D:response>"@
}

/// The `response` element of a file of `size` bytes.
pub open spec fn file_response_element(
    href: Seq<char>,
    displayname: Seq<char>,
    size: u64,
    date: Seq<char>,
) -> Seq<char> {
    "<D:response>\n<D:href>"@ + href + "</D:href>\n<D:propstat>\n<D:prop>\n<D:displayname>"@
        + displayname + "</D:displayname>\n<D:getcontentlength>"@ + decimal(size as nat)
        + "</D:getcontentlength>\n<D:getlastmodified>"@ + date
        + "</D:getlastmodified>\n<D:resourcetype></D:resourcetype>\n</D:prop>\n<D:status>HTTP/1.1 200 OK</D:status>\n</D:propstat>\n</D:response>"@
}

/// The `response` element of an entry, below the link prefix `prefix`.
pub open spec fn dav_xml(item: PathItemView, prefix: Seq<char>) -> Seq<char> {
    if item.is_dir() {
        dir_response(
            dav_href(prefix, item),
            pcdata_escaped(last_segment(item.name, '/')),
            dav_date(item.mtime),
        )
    } else {
        file_response_element(
            dav_href(prefix, item),
            pcdata_escaped(last_segment(item.name, '/')),
            size_or_zero(item.size),
            dav_date(item.mtime),
        )
    }
}

/// The `response` elements of a list of entries, one after the other.
pub open spec fn dav_xml_of_all(items: Seq<PathItemView>, prefix: Seq<char>) -> Seq<char>
    decreases items.len(),
{
    if items.len() == 0 {
        Seq::<char>::empty()
    } else {
        dav_xml_of_all(items.drop_last(), prefix) + dav_xml(items.last(), prefix)
    }
}

/// The `response` element of a directory.
pub fn dir_response_of(href: &str, displayname: &str, date: &str) -> (r: String)
    ensures
        r@ == dir_response(href@, displayname@, date@),
{
    let mut out = "<D:response>\n<D:href>".to_owned();
    out.append(href);
    out.append("</D:href>\n<D:propstat>\n<D:prop>\n<D:displayname>");
    out.append(displayname);
    out.append("</D:displayname>\n<D:getlastmodified>");
    out.append(date);
    out.append(
        "</D:getlastmodified>\n<D:resourcetype><D:collection/></D:resourcetype>\n</D:prop>\n<D:status>HTTP/1.1 200 OK</D:status>\n</D:propstat>\n</D:response>",
    );
    out
}

/// The `response` element of a file.
pub fn file_response_of(href: &str, displayname: &str, size: u64, date: &str) -> (r: String)
    ensures
        r@ == file_response_element(href@, displayname@, size, date@),
{
    let mut out = "<D:response>\n<D:href>".to_owned();
    out.append(href);
    out.append("</D:href>\n<D:propstat>\n<D:prop>\n<D:displayname>");
    out.append(displayname);
    out.append("</D:displayname>\n<D:getcontentlength>");
    out.append(decimal_string(size).as_str());
    out.append("</D:getcontentlength>\n<D:getlastmodified>");
    out.append(date);
    out.append(
        "</D:getlastmodified>\n<D:resourcetype></D:resourcetype>\n</D:prop>\n<D:status>HTTP/1.1 200 OK</D:status>\n</D:propstat>\n</D:response>",
    );
    out
}

impl PathItem {
    /// The link of the entry below the link prefix `prefix`.
    pub fn dav_href_of(&self, prefix: &str) -> (r: String)
        ensures
            r@ == dav_href(prefix@, self@),
    {
        let mut full = prefix.to_owned();
        full.append(self.name.as_str());
        let mut href = encode_uri(full.as_str());
        let chars = chars_of(href.as_str());
        if self.is_dir() && !(chars.len() > 0 && chars[chars.len() - 1] == '/') {
            href.append("/");
            proof {
                reveal_strlit("/");
                assert(href@ =~= chars@.push('/'));
            }
        }
        href
    }

    /// The `response` element of the entry, below the link prefix
    /// `prefix`.
    pub fn to_dav_xml(&self, prefix: &str) -> (r: String)
        ensures
            r@ == dav_xml(self@, prefix@),
    {
        let mtime = if self.mtime <= MAX_DATE_MILLIS {
            format_rfc2822(self.mtime)
        } else {
            String::new()
        };
        let href = self.dav_href_of(prefix);
        let displayname = escape_pcdata(self.base_name());
        if self.is_dir() {
            dir_response_of(href.as_str(), displayname.as_str(), mtime.as_str())
        } else {
            let size = match self.size {
                Some(s) => s,
                None => 0,
            };
            file_response_of(href.as_str(), displayname.as_str(), size, mtime.as_str())
        }
    }
}

/// The depth that a `Depth` header asks for: 1 without a header, else the
/// number in it, which is 0 or 1. Anything else asks for nothing that can
/// be answered.
pub open spec fn depth_of(header: Option<Seq<char>>) -> Option<u64> {
    match header {
        None => Some(1),
        Some(h) => match parsed_u64(h) {
            Some(d) => if d <= 1 {
                Some(d)
            } else {
                None
            },
            None => None,
        },
    }
}

/// The depth that a `Depth` header asks for.
pub fn propfind_depth(header: Option<&str>) -> (r: Option<u64>)
    ensures
        r == depth_of(opt_str(header)),
{
    match header {
        None => Some(1),
        Some(h) => {
            let chars = chars_of(h);
            match parse_u64(chars.as_slice()) {
                Some(d) => if d <= 1 {
                    Some(d)
                } else {
                    None
                },
                None => None,
            }
        },
    }
}

/// The permission by which a directory is listed for a property query: a
/// caller who may only list is taken as one who may read.
pub open spec fn propfind_perm(perm: AccessPerm) -> AccessPerm {
    if perm.is_indexonly() {
        AccessPerm::ReadOnly
    } else {
        perm
    }
}

/// The access by which a directory is listed for a property query: a
/// caller who may only list is taken as one who may read.
pub fn propfind_access(access: AccessPaths) -> (r: AccessPaths)
    ensures
        r.perm == propfind_perm(access.perm),
        access.perm.is_indexonly() ==> r.children@.len() == 0 && r.leaves@.len() == 0,
        !access.perm.is_indexonly() ==> r == access,
{
    if access.perm().indexonly() {
        AccessPaths::new(AccessPerm::ReadOnly)
    } else {
        access
    }
}

/// The `response` elements of a listing, one after the other.
pub fn all_dav_xml(paths: &Vec<PathItem>, prefix: &str) -> (r: String)
    ensures
        r@ == dav_xml_of_all(items_view(paths@), prefix@),
{
    let mut out = String::new();
    let mut i: usize = 0;
    let ghost all = items_view(paths@);
    assert(all.take(0) =~= Seq::<PathItemView>::empty());
    while i < paths.len()
        invariant
            i <= paths.len(),
            all == items_view(paths@),
            out@ == dav_xml_of_all(all.take(i as int), prefix@),
        decreases paths.len() - i,
    {
        proof {
            let t = all.take(i + 1);
            assert(t.drop_last() =~= all.take(i as int));
            assert(t.last() == paths@[i as int]@);
        }
        let xml = paths[i].to_dav_xml(prefix);
        out.append(xml.as_str());
        i += 1;
    }
    assert(all.take(all.len() as int) =~= all);
    out
}

/// The entries of a property listing of a directory: the directory itself,
/// where it makes an entry, and then, unless the depth is 0, its listing.
pub open spec fn propfind_items(
    own: Option<PathItemView>,
    depth: u64,
    children: Seq<PathItemView>,
) -> Seq<PathItemView> {
    let first = match own {
        Some(item) => seq![item],
        None => Seq::<PathItemView>::empty(),
    };
    if depth != 0 {
        first + children
    } else {
        first
    }
}

/// The fixed `response` element that answers a property update of
/// `req_path`: no property can be set.
pub open spec fn proppatch_element(req_path: Seq<char>) -> Seq<char> {
    "<D:response>\n<D:href>"@ + req_path
        + "</D:href>\n<D:propstat>\n<D:prop>\n</D:prop>\n<D:status>HTTP/1.1 403 Forbidden</D:status>\n</D:propstat>\n</D:response>"@
}

/// The body of the answer to a lock request on `req_path` with the token
/// `token`.
pub open spec fn lock_body(token: Seq<char>, req_path: Seq<char>) -> Seq<char> {
    "<?xml version=\"1.0\" encoding=\"utf-8\"?>\n<D:prop xmlns:D=\"DAV:\"><D:lockdiscovery><D:activelock>\n<D:locktoken><D:href>"@
        + token + "</D:href></D:locktoken>\n<D:lockroot><D:href>"@ + req_path
        + "</D:href></D:lockroot>\n</D:activelock></D:lockdiscovery></D:prop>"@
}

/// The header that names the token of a lock.
pub open spec fn lock_token_header(token: Seq<char>) -> Seq<char> {
    "<"@ + token + ">"@
}

/// The answer to a lock request on `req_path` with the token `token`.
pub open spec fn lock_reply(token: Seq<char>, req_path: Seq<char>) -> Result<ResponseView, Failure> {
    if is_field_value(lock_token_header(token)) {
        Ok(
            ResponseView {
                status: 200,
                headers: HeadersView {
                    content_type: Some("application/xml; charset=utf-8"@),
                    lock_token: Some(lock_token_header(token)),
                    ..no_headers()
                },
                body: BodyView::Text(lock_body(token, req_path)),
            },
        )
    } else {
        Err(Failure::HeaderValue)
    }
}

/// Whether a text is a token of the kind that a lock gets: for a caller
/// with credentials `opaquelocktoken:` and a UUID, for any other a number
/// of seconds.
pub open spec fn is_lock_token(token: Seq<char>, auth: bool) -> bool {
    if auth {
        "opaquelocktoken:"@.is_prefix_of(token) && is_hyphenated_uuid(
            token.skip("opaquelocktoken:"@.len() as int),
        )
    } else {
        exists|now: i64| token == #[trigger] signed_decimal(now as int)
    }
}

/// The answer to a lock request on `req_path` with the token `token`.
pub fn lock_response(token: &str, req_path: &str) -> (r: Result<Response, Failure>)
    ensures
        agrees(r, lock_reply(token@, req_path@)),
{
    let mut res = Response::new();
    res.headers.content_type = Some("application/xml; charset=utf-8".to_owned());
    let mut header = "<".to_owned();
    header.append(token);
    header.append(">");
    if !valid_header_value(header.as_str()) {
        return Err(Failure::HeaderValue);
    }
    res.headers.lock_token = Some(header);
    let mut body = "<?xml version=\"1.0\" encoding=\"utf-8\"?>\n<D:prop xmlns:D=\"DAV:\"><D:lockdiscovery><D:activelock>\n<D:locktoken><D:href>".to_owned();
    body.append(token);
    body.append("</D:href></D:locktoken>\n<D:lockroot><D:href>");
    body.append(req_path);
    body.append("</D:href></D:lockroot>\n</D:activelock></D:lockdiscovery></D:prop>");
    res.body = Body::Text(body);
    Ok(res)
}

/// A fresh token for a lock.
pub fn new_lock_token(auth: bool) -> (r: String)
    ensures
        is_lock_token(r@, auth),
{
    if auth {
        let uuid = new_uuid();
        let mut token = "opaquelocktoken:".to_owned();
        token.append(uuid.as_str());
        proof {
            assert(token@.subrange(0, "opaquelocktoken:"@.len() as int) =~= "opaquelocktoken:"@);
            assert(token@.skip("opaquelocktoken:"@.len() as int) =~= uuid@);
        }
        token
    } else {
        let now = unix_now();
        signed_decimal_string(now)
    }
}

/// The header that names a token of the kind that a lock gets is a valid
/// header value.
pub proof fn lemma_lock_token_is_field_value(token: Seq<char>, auth: bool)
    requires
        is_lock_token(token, auth),
    ensures
        is_field_value(lock_token_header(token)),
{
    reveal_strlit("<");
    reveal_strlit(">");
    reveal_strlit("opaquelocktoken:");
    let header = lock_token_header(token);
    assert(header.len() == token.len() + 2);
    assert forall|i: int| 0 <= i < header.len() implies is_field_char(#[trigger] header[i]) by {
        if 0 < i < header.len() - 1 {
            assert(header[i] == token[i - 1]);
            if auth {
                let scheme = "opaquelocktoken:"@;
                if i - 1 < scheme.len() {
                    assert(token[i - 1] == token.subrange(0, scheme.len() as int)[i - 1]);
                } else {
                    assert(token[i - 1] == token.skip(scheme.len() as int)[i - 1 - scheme.len()]);
                }
            } else {
                let now = choose|now: i64| token == #[trigger] signed_decimal(now as int);
                if now < 0 {
                    lemma_decimal_digits((-(now as int)) as nat);
                    if i - 1 > 0 {
                        assert(token[i - 1] == decimal((-(now as int)) as nat)[i - 2]);
                    }
                } else {
                    lemma_decimal_digits(now as nat);
                }
            }
        }
    }
}

/// Answers a lock request on `req_path`. No lock is kept: the answer only
/// carries a fresh token.
pub fn handle_lock(req_path: &str, auth: bool) -> (r: Result<Response, Failure>)
    ensures
        r is Ok,
        exists|token: Seq<char>|
            is_lock_token(token, auth) && #[trigger] agrees(r, lock_reply(token, req_path@)),
{
    let token = new_lock_token(auth);
    proof {
        lemma_lock_token_is_field_value(token@, auth);
    }
    lock_response(token.as_str(), req_path)
}

/// Answers a property update on `req_path`: always the same refusal, in a
/// multistatus.
pub fn handle_proppatch(req_path: &str) -> (r: Response)
    ensures
        r@ == multistatus(fresh(), proppatch_element(req_path@)),
{
    let mut output = "<D:response>\n<D:href>".to_owned();
    output.append(req_path);
    output.append(
        "</D:href>\n<D:propstat>\n<D:prop>\n</D:prop>\n<D:status>HTTP/1.1 403 Forbidden</D:status>\n</D:propstat>\n</D:response>",
    );
    let mut res = Response::new();
    res_multistatus(&mut res, output.as_str());
    res
}

/// The entry that a file makes in a listing, if it makes one.
pub open spec fn own_item(r: Result<Option<PathItemView>, Failure>) -> Option<PathItemView> {
    match r {
        Ok(Some(item)) => Some(item),
        _ => None,
    }
}

impl Server {
    /// Answers a property query on the directory at `path`. `depth` is the
    /// `Depth` header, `own` what the file system tells about the
    /// directory, and `entries` what was found in it, or nothing when it
    /// could not be read. A depth that is neither 0 nor 1 is a bad request;
    /// a directory that cannot be read is refused unless the depth is 0.
    pub fn handle_propfind_dir(
        &self,
        path: &str,
        depth: Option<&str>,
        own: &EntryStat,
        entries: Option<&Vec<StatEntry>>,
    ) -> (r: Result<Response, Failure>)
        ensures
            match depth_of(opt_str(depth)) {
                None => r matches Ok(res) && res@ == with_status(fresh(), 400),
                Some(d) => match pathitem_of(self.args(), path@, self.args().path@, *own) {
                    Err(e) => r matches Err(f) && f == e,
                    Ok(first) => if d != 0 && entries is None {
                        r matches Ok(res) && res@ == forbidden(fresh())
                    } else {
                        r matches Ok(res) && res@ == multistatus(
                            fresh(),
                            dav_xml_of_all(
                                propfind_items(
                                    first,
                                    d,
                                    if d != 0 {
                                        listed(self.args(), self.args().path@, entries->0@)
                                    } else {
                                        Seq::<PathItemView>::empty()
                                    },
                                ),
                                self.args().uri_prefix@,
                            ),
                        )
                    },
                },
            },
    {
        let mut res = Response::new();
        let d = match propfind_depth(depth) {
            Some(v) => v,
            None => {
                res.status = 400;
                return Ok(res);
            },
        };
        let root = self.config().path.as_str();
        let mut paths: Vec<PathItem> = Vec::new();
        assert(items_view(paths@) =~= Seq::<PathItemView>::empty());
        match self.to_pathitem(path, root, own) {
            Ok(Some(item)) => {
                paths.push(item);
                assert(items_view(paths@) =~= seq![item@]);
            },
            Ok(None) => {},
            Err(e) => {
                return Err(e);
            },
        }
        if d != 0 {
            match entries {
                Some(found) => {
                    let mut children = self.list_dir(root, found);
                    let ghost first = items_view(paths@);
                    let ghost rest = items_view(children@);
                    paths.append(&mut children);
                    assert(items_view(paths@) =~= first + rest);
                },
                None => {
                    status_forbid(&mut res);
                    return Ok(res);
                },
            }
        }
        let output = all_dav_xml(&paths, self.config().uri_prefix.as_str());
        res_multistatus(&mut res, output.as_str());
        Ok(res)
    }

    /// Answers a property query on the file at `path`: its entry in a
    /// multistatus, or 404 when it makes none.
    pub fn handle_propfind_file(&self, path: &str, own: &EntryStat) -> (r: Result<Response, Failure>)
        ensures
            match pathitem_of(self.args(), path@, self.args().path@, *own) {
                Err(e) => r matches Err(f) && f == e,
                Ok(Some(item)) => r matches Ok(res) && res@ == multistatus(
                    fresh(),
                    dav_xml(item, self.args().uri_prefix@),
                ),
                Ok(None) => r matches Ok(res) && res@ == not_found(fresh()),
            },
    {
        let mut res = Response::new();
        match self.to_pathitem(path, self.config().path.as_str(), own) {
            Ok(Some(item)) => {
                let xml = item.to_dav_xml(self.config().uri_prefix.as_str());
                res_multistatus(&mut res, xml.as_str());
            },
            Ok(None) => {
                status_not_found(&mut res);
            },
            Err(e) => {
                return Err(e);
            },
        }
        Ok(res)
    }
}

} // verus!
