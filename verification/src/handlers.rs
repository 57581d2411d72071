//! What each kind of work comes to once the file system has been asked.

use vstd::prelude::*;
use vstd::string::*;
use crate::access::Guard;
use crate::config::Args;
use crate::content::{
    disposition_text, is_field_value, set_content_disposition, valid_header_value, Failure,
};
use crate::dav::{handle_lock, handle_proppatch, is_lock_token, lock_reply, proppatch_element};
use crate::listing::{items_view, pathitem_of, PathItem, PathItemView, StatEntry};
use crate::path::{
    file_name, is_up, join, joined, lemma_name_joins, relative_to, strip_root, try_get_file_name,
};
use crate::request::{Query, Request};
use crate::response::{
    agrees, add_cors, forbidden, fresh, multistatus, no_headers, not_found, set_webdav_headers,
    status_forbid, status_no_content, status_not_found, with_cors, with_status, with_webdav, Asset,
    Body, BodyView, HeadersView, Response, ResponseView,
};
use crate::server::{resolved, Action, Server};
use crate::text::{
    opt_str, opt_text, chars_of, lowercased, slice_chars, starts_with, str_eq, string_of,
    to_lowercase,
};

verus! {

/// The path of a URI, if the text is one, as `hyper::Uri` reads it.
pub uninterp spec fn uri_path(uri: Seq<char>) -> Option<Seq<char>>;

/// `str::parse::<hyper::Uri>` and, where that succeeds, `path()` on the
/// result.
#[verifier::external_body]
fn parse_uri_path(uri: &str) -> (r: Option<String>)
    ensures
        r is Some <==> uri_path(uri@) is Some,
        r matches Some(p) ==> p@ == uri_path(uri@)->0,
{
    match uri.parse::<hyper::Uri>() {
        Ok(u) => Some(u.path().to_string()),
        Err(_) => None,
    }
}

/// What serving an asset comes to.
#[derive(Clone, Debug, PartialEq, Eq)]
pub enum AssetOutcome {
    /// The answer.
    Ready(Response),
    /// The file to send, from the directory that replaces the bundle; the
    /// answer to it is then marked as cacheable.
    File(String),
}

/// `res` marked as cacheable for a long time.
pub open spec fn with_cache_control(res: ResponseView) -> ResponseView {
    ResponseView { headers: HeadersView { cache_control: true, ..res.headers }, ..res }
}

/// The answer that carries a bundled asset.
pub open spec fn bundled(asset: Asset, content_type: Seq<char>) -> ResponseView {
    ResponseView {
        status: 200,
        headers: HeadersView {
            content_type: Some(content_type),
            cache_control: true,
            ..no_headers()
        },
        body: BodyView::Asset(asset),
    }
}

/// The answer to a request for the bundled asset `name`.
pub open spec fn bundled_asset(name: Seq<char>) -> ResponseView {
    if name == "index.js"@ {
        bundled(Asset::IndexJs, "application/javascript"@)
    } else if name == "index.css"@ {
        bundled(Asset::IndexCss, "text/css"@)
    } else if name == "favicon.ico"@ {
        bundled(Asset::Favicon, "image/x-icon"@)
    } else {
        with_cache_control(not_found(fresh()))
    }
}

/// Marks `res` as cacheable for a long time.
pub fn set_cache_control(res: &mut Response)
    ensures
        final(res)@ == with_cache_control(old(res)@),
{
    res.headers.cache_control = true;
}

/// The answer that tells of a failure: 500 and nothing else.
pub open spec fn internal_error() -> ResponseView {
    with_status(fresh(), 500)
}

/// What is written to the log for a request.
#[derive(Clone, Debug, PartialEq, Eq)]
pub struct LogEntry {
    pub status: u16,
    pub error: Option<String>,
}

/// The `Content-Disposition`, type and body of an archive of the directory
/// at `path`.
pub open spec fn zip_response(path: Seq<char>, head_only: bool) -> Result<ResponseView, Failure> {
    match file_name(path) {
        None => Err(Failure::NoFileName),
        Some(name) => if !is_field_value(disposition_text(false, name + ".zip"@)) {
            Err(Failure::HeaderValue)
        } else {
            Ok(
                ResponseView {
                    status: 200,
                    headers: HeadersView {
                        content_disposition: Some(disposition_text(false, name + ".zip"@)),
                        content_type: Some("application/zip"@),
                        ..no_headers()
                    },
                    body: if head_only {
                        BodyView::Empty
                    } else {
                        BodyView::Zip
                    },
                },
            )
        },
    }
}

/// Answers a request for the archive of the directory at `path`.
pub fn handle_zip_dir(path: &str, head_only: bool) -> (r: Result<Response, Failure>)
    ensures
        agrees(r, zip_response(path@, head_only)),
{
    let mut res = Response::new();
    let filename = match try_get_file_name(path) {
        Some(n) => n,
        None => {
            return Err(Failure::NoFileName);
        },
    };
    let mut archive = filename;
    archive.append(".zip");
    match set_content_disposition(&mut res, false, archive.as_str()) {
        Ok(()) => {},
        Err(e) => {
            return Err(e);
        },
    }
    res.headers.content_type = Some("application/zip".to_owned());
    if !head_only {
        res.body = Body::Zip;
    }
    Ok(res)
}

/// The name of a file in the archive of `dir`: its path below `dir`.
pub fn zip_entry_name(zip_path: &str, dir: &str) -> (r: Option<String>)
    ensures
        r is Some <==> relative_to(zip_path@, dir@) is Some,
        r matches Some(n) ==> n@ == relative_to(zip_path@, dir@)->0,
{
    strip_root(zip_path, dir)
}

/// The text to search names for: the value of `q` in lower case, or
/// nothing when it is empty. It is a failure when the query has no `q`.
pub fn search_query(query: &Query) -> (r: Result<Option<String>, Failure>)
    ensures
        match query@.q {
            None => r matches Err(f) && f == Failure::InvalidQuery,
            Some(q) => if lowercased(q).len() == 0 {
                r matches Ok(None)
            } else {
                r matches Ok(Some(s)) && s@ == lowercased(q)
            },
        },
{
    match &query.q {
        None => Err(Failure::InvalidQuery),
        Some(q) => {
            let search = to_lowercase(q.as_str());
            if search.as_str().unicode_len() == 0 {
                Ok(None)
            } else {
                Ok(Some(search))
            }
        },
    }
}

/// The entry of a listing of `base` that a found path makes, if it makes
/// one.
pub open spec fn found_item(args: Args, base: Seq<char>, entry: StatEntry) -> Option<PathItemView> {
    match entry.stat {
        None => None,
        Some(stat) => match pathitem_of(args, entry.path@, base, stat) {
            Ok(Some(item)) => Some(item),
            _ => None,
        },
    }
}

/// The entries of a listing of `base` that found paths make, in their
/// order.
pub open spec fn found_items(args: Args, base: Seq<char>, entries: Seq<StatEntry>) -> Seq<
    PathItemView,
>
    decreases entries.len(),
{
    if entries.len() == 0 {
        Seq::<PathItemView>::empty()
    } else {
        let front = found_items(args, base, entries.drop_last());
        match found_item(args, base, entries.last()) {
            Some(item) => front.push(item),
            None => front,
        }
    }
}

/// What sending `index.html` for a directory comes to.
#[derive(Clone, Copy, Debug, PartialEq, Eq, Structural)]
pub enum IndexChoice {
    /// Send the `index.html` of the directory.
    SendIndex,
    /// List the directory.
    List,
    /// 404.
    NotFound,
}

/// The answer to a request whose destination is bad.
pub open spec fn bad_request() -> ResponseView {
    with_status(fresh(), 400)
}

/// The path in the file system that a destination names, or the answer
/// that refuses it: a bad request when the destination is missing or names
/// nothing below the served directory, a refusal when the guard denies it.
pub open spec fn destination(args: Args, dest_path: Option<Seq<char>>, guard: Guard) -> Result<
    Seq<char>,
    ResponseView,
> {
    match dest_path {
        None => Err(bad_request()),
        Some(p) => match resolved(args.path_prefix@, p) {
            None => Err(bad_request()),
            Some(rel) => if guard.access is None {
                Err(forbidden(fresh()))
            } else {
                match joined(args.path@, rel) {
                    None => Err(bad_request()),
                    Some(dest) => Ok(dest),
                }
            },
        },
    }
}

/// Whether an outcome is the one wanted.
pub open spec fn dest_agrees(r: Result<String, Response>, want: Result<Seq<char>, ResponseView>) -> bool {
    match want {
        Ok(p) => r matches Ok(s) && s@ == p,
        Err(v) => r matches Err(res) && res@ == v,
    }
}

/// The path of the URI in a `Destination` header.
pub open spec fn destination_path(header: Option<Seq<char>>) -> Option<Seq<char>> {
    match header {
        Some(h) => uri_path(h),
        None => None,
    }
}

/// The answer to a caller without credentials.
pub open spec fn challenge_reply(challenge: Option<Seq<char>>) -> Result<ResponseView, Failure> {
    match challenge {
        None => Err(Failure::Challenge),
        Some(c) => if is_field_value(c) {
            Ok(
                ResponseView {
                    status: 401,
                    headers: HeadersView {
                        webdav: true,
                        www_authenticate: Some(c),
                        ..no_headers()
                    },
                    body: BodyView::Empty,
                },
            )
        } else {
            Err(Failure::HeaderValue)
        },
    }
}

/// The answer that says that a directory is there already.
pub open spec fn already_exists() -> ResponseView {
    ResponseView { status: 405, body: BodyView::Text("Already exists"@), ..fresh() }
}

/// What a request comes to in the end, where nothing failed: the answer
/// and, unless the request is for an asset, an entry for the log.
pub open spec fn call_result(
    args: Args,
    assets_prefix: Seq<char>,
    req_path: Seq<char>,
    res: ResponseView,
) -> (ResponseView, Option<u16>) {
    (
        if args.enable_cors {
            with_cors(res)
        } else {
            res
        },
        if assets_prefix.is_prefix_of(req_path) {
            None
        } else {
            Some(res.status)
        },
    )
}

impl Server {
    /// The name of the asset that a request path names: what stands behind
    /// the asset prefix.
    pub open spec fn asset_name(&self, req_path: Seq<char>) -> Option<Seq<char>> {
        if self.assets_prefix().is_prefix_of(req_path) {
            Some(req_path.skip(self.assets_prefix().len() as int))
        } else {
            None
        }
    }

    /// What a request for an asset comes to: nothing when the path names no
    /// asset; the file to send when a directory replaces the bundle, or 404
    /// for a name that cannot lie in that directory; otherwise the bundled
    /// asset of that name, or 404. Every answer is marked as cacheable.
    pub fn handle_assets(&self, req_path: &str) -> (r: Option<AssetOutcome>)
        ensures
            match self.asset_name(req_path@) {
                None => r is None,
                Some(name) => match self.args().assets_path {
                    Some(dir) => match joined(dir@, name) {
                        Some(p) => r matches Some(AssetOutcome::File(f)) && f@ == p,
                        None => r matches Some(AssetOutcome::Ready(res)) && res@
                            == with_cache_control(not_found(fresh())),
                    },
                    None => r matches Some(AssetOutcome::Ready(res)) && res@ == bundled_asset(name),
                },
            },
    {
        let path = chars_of(req_path);
        let prefix = chars_of(self.assets_prefix_text());
        if !starts_with(path.as_slice(), prefix.as_slice()) {
            return None;
        }
        let rest = slice_chars(path.as_slice(), prefix.len(), path.len());
        assert(rest@ =~= req_path@.skip(self.assets_prefix().len() as int));
        let name = string_of(rest.as_slice());
        let mut res = Response::new();
        match &self.config().assets_path {
            Some(dir) => {
                match join(dir.as_str(), name.as_str()) {
                    Some(p) => {
                        return Some(AssetOutcome::File(p));
                    },
                    None => {
                        status_not_found(&mut res);
                    },
                }
            },
            None => {
                if str_eq(name.as_str(), "index.js") {
                    res.body = Body::Asset(Asset::IndexJs);
                    res.headers.content_type = Some("application/javascript".to_owned());
                } else if str_eq(name.as_str(), "index.css") {
                    res.body = Body::Asset(Asset::IndexCss);
                    res.headers.content_type = Some("text/css".to_owned());
                } else if str_eq(name.as_str(), "favicon.ico") {
                    res.body = Body::Asset(Asset::Favicon);
                    res.headers.content_type = Some("image/x-icon".to_owned());
                } else {
                    status_not_found(&mut res);
                }
            },
        }
        set_cache_control(&mut res);
        Some(AssetOutcome::Ready(res))
    }

    /// The path of `index.html` in the directory at `dir`.
    pub fn index_path(&self, dir: &str) -> (r: Option<String>)
        ensures
            r is Some <==> joined(dir@, "index.html"@) is Some,
            r matches Some(p) ==> p@ == joined(dir@, "index.html"@)->0,
    {
        join(dir, "index.html")
    }

    /// What a request for a directory that is shown by its `index.html`
    /// comes to: the file is sent when it is there; else the directory is
    /// listed where the server falls back to listings, and 404 is the
    /// answer where it does not.
    pub fn handle_render_index(&self, index_is_file: bool) -> (r: IndexChoice)
        ensures
            r == if index_is_file {
                IndexChoice::SendIndex
            } else if self.args().render_try_index {
                IndexChoice::List
            } else {
                IndexChoice::NotFound
            },
    {
        if index_is_file {
            IndexChoice::SendIndex
        } else if self.config().render_try_index {
            IndexChoice::List
        } else {
            IndexChoice::NotFound
        }
    }

    /// The file that answers a request for a path of a single-page
    /// application that names nothing: `index.html` of the served
    /// directory, unless the path has an extension.
    pub fn handle_render_spa(&self, path: &str) -> (r: Option<String>)
        ensures
            r is Some <==> !crate::path::has_extension(path@),
            r matches Some(p) ==> Some(p@) == joined(self.args().path@, "index.html"@),
    {
        if crate::path::path_has_extension(path) {
            None
        } else {
            proof {
                reveal_strlit("index.html");
                assert(!is_up("index.html"@)) by {
                    assert("index.html"@.len() == 10);
                }
                lemma_name_joins(self.args().path@, "index.html"@);
            }
            join(self.config().path.as_str(), "index.html")
        }
    }

    /// The entries of a listing of `base` that the found paths of a search
    /// make: each path that can be read, in the given order.
    pub fn search_results(&self, base: &str, found: &Vec<StatEntry>) -> (r: Vec<PathItem>)
        ensures
            items_view(r@) == found_items(self.args(), base@, found@),
    {
        let mut paths: Vec<PathItem> = Vec::new();
        let mut i: usize = 0;
        assert(items_view(paths@) =~= Seq::<PathItemView>::empty());
        assert(found@.take(0) =~= Seq::<StatEntry>::empty());
        while i < found.len()
            invariant
                i <= found.len(),
                items_view(paths@) == found_items(self.args(), base@, found@.take(i as int)),
            decreases found.len() - i,
        {
            proof {
                let t = found@.take(i + 1);
                assert(t.drop_last() =~= found@.take(i as int));
                assert(t.last() == found@[i as int]);
            }
            let ghost before = items_view(paths@);
            match &found[i].stat {
                Some(stat) => {
                    match self.to_pathitem(found[i].path.as_str(), base, stat) {
                        Ok(Some(item)) => {
                            paths.push(item);
                            assert(items_view(paths@) =~= before.push(item@));
                        },
                        _ => {},
                    }
                },
                None => {},
            }
            i += 1;
        }
        assert(found@.take(found@.len() as int) =~= found@);
        paths
    }

    /// Answers an upload: 201 when the file could be made, a refusal when
    /// it could not.
    pub fn handle_upload(&self, created: bool) -> (r: Response)
        ensures
            r@ == if created {
                with_status(fresh(), 201)
            } else {
                forbidden(fresh())
            },
    {
        let mut res = Response::new();
        if created {
            res.status = 201;
        } else {
            status_forbid(&mut res);
        }
        res
    }

    /// Answers a removal that was carried out: 204.
    pub fn handle_delete(&self) -> (r: Response)
        ensures
            r@ == with_status(fresh(), 204),
    {
        let mut res = Response::new();
        status_no_content(&mut res);
        res
    }

    /// Answers the making of a directory that was carried out: 201.
    pub fn handle_mkcol(&self) -> (r: Response)
        ensures
            r@ == with_status(fresh(), 201),
    {
        let mut res = Response::new();
        res.status = 201;
        res
    }

    fn extract_destination_header(&self, header: Option<&str>) -> (r: Option<String>)
        ensures
            r is Some <==> destination_path(opt_str(header)) is Some,
            r matches Some(p) ==> p@ == destination_path(opt_str(header))->0,
    {
        match header {
            Some(h) => parse_uri_path(h),
            None => None,
        }
    }

    /// The internal path that a `Destination` header names: the guard is
    /// to be asked about it before the destination is taken.
    pub fn destination_relative(&self, header: Option<&str>) -> (r: Option<String>)
        ensures
            match destination_path(opt_str(header)) {
                Some(p) => {
                    &&& r is Some <==> resolved(self.args().path_prefix@, p) is Some
                    &&& r matches Some(rel) ==> Some(rel@) == resolved(self.args().path_prefix@, p)
                },
                None => r is None,
            },
    {
        match self.extract_destination_header(header) {
            Some(p) => self.resolve_path(p.as_str()),
            None => None,
        }
    }

    /// The path in the file system that the path of a destination names,
    /// given the guard's answer for it.
    pub fn resolve_dest(&self, dest_path: Option<&str>, guard: &Guard) -> (r: Result<String, Response>)
        ensures
            dest_agrees(r, destination(self.args(), opt_str(dest_path), *guard)),
    {
        let mut res = Response::new();
        let dest_path = match dest_path {
            Some(p) => p,
            None => {
                res.status = 400;
                return Err(res);
            },
        };
        let relative_path = match self.resolve_path(dest_path) {
            Some(v) => v,
            None => {
                res.status = 400;
                return Err(res);
            },
        };
        if guard.access.is_none() {
            status_forbid(&mut res);
            return Err(res);
        }
        match self.join_path(relative_path.as_str()) {
            Some(dest) => Ok(dest),
            None => {
                res.status = 400;
                Err(res)
            },
        }
    }

    /// The path in the file system that a `Destination` header names, given
    /// the guard's answer for it, or the answer that refuses it.
    pub fn extract_dest(&self, header: Option<&str>, guard: &Guard) -> (r: Result<String, Response>)
        ensures
            dest_agrees(
                r,
                destination(self.args(), destination_path(opt_str(header)), *guard),
            ),
    {
        let dest_path = self.extract_destination_header(header);
        let dest: Option<&str> = match &dest_path {
            Some(p) => Some(p.as_str()),
            None => None,
        };
        self.resolve_dest(dest, guard)
    }

    /// Decides on a copy: where to, or the answer that refuses it. A
    /// source that is itself a directory is refused.
    pub fn handle_copy(&self, header: Option<&str>, guard: &Guard, source_is_dir: bool) -> (r:
        Result<String, Response>)
        ensures
            dest_agrees(
                r,
                match destination(self.args(), destination_path(opt_str(header)), *guard) {
                    Ok(dest) => if source_is_dir {
                        Err(forbidden(fresh()))
                    } else {
                        Ok(dest)
                    },
                    Err(res) => Err(res),
                },
            ),
    {
        let dest = match self.extract_dest(header, guard) {
            Ok(d) => d,
            Err(res) => {
                return Err(res);
            },
        };
        if source_is_dir {
            let mut res = Response::new();
            status_forbid(&mut res);
            return Err(res);
        }
        Ok(dest)
    }

    /// Decides on a move: where to, or the answer that refuses it. A
    /// source that is itself a directory is refused.
    pub fn handle_move(&self, header: Option<&str>, guard: &Guard, source_is_dir: bool) -> (r:
        Result<String, Response>)
        ensures
            dest_agrees(
                r,
                match destination(self.args(), destination_path(opt_str(header)), *guard) {
                    Ok(dest) => if source_is_dir {
                        Err(forbidden(fresh()))
                    } else {
                        Ok(dest)
                    },
                    Err(res) => Err(res),
                },
            ),
    {
        self.handle_copy(header, guard, source_is_dir)
    }

    /// The answer to a caller without credentials: 401 with the challenge
    /// and the WebDAV headers.
    pub fn auth_reject(&self, challenge: &Option<String>) -> (r: Result<Response, Failure>)
        ensures
            agrees(r, challenge_reply(opt_text(*challenge))),
    {
        let value = match challenge {
            Some(c) => c,
            None => {
                return Err(Failure::Challenge);
            },
        };
        let mut res = Response::new();
        set_webdav_headers(&mut res);
        if !valid_header_value(value.as_str()) {
            return Err(Failure::HeaderValue);
        }
        res.headers.www_authenticate = Some(value.clone());
        res.status = 401;
        Ok(res)
    }

    /// The answer that an action stands for, where it is a complete
    /// answer; nothing for an action that is work on the file system.
    pub fn answer(&self, action: Action, req: &Request, guard: &Guard) -> (r: Option<
        Result<Response, Failure>,
    >)
        ensures
            match action {
                Action::Unauthorized => r matches Some(a) && agrees(
                    a,
                    challenge_reply(opt_text(guard.challenge)),
                ),
                Action::Forbidden => r matches Some(Ok(res)) && res@ == forbidden(fresh()),
                Action::NotFound => r matches Some(Ok(res)) && res@ == not_found(fresh()),
                Action::MethodNotAllowed => r matches Some(Ok(res)) && res@ == with_status(
                    fresh(),
                    405,
                ),
                Action::AlreadyExists => r matches Some(Ok(res)) && res@ == already_exists(),
                Action::Options => r matches Some(Ok(res)) && res@ == with_webdav(fresh()),
                Action::Done => r matches Some(Ok(res)) && res@ == fresh(),
                Action::Proppatch => r matches Some(Ok(res)) && res@ == multistatus(
                    fresh(),
                    proppatch_element(req.path@),
                ),
                Action::Lock => r matches Some(a) && a is Ok && exists|token: Seq<char>|
                    is_lock_token(token, req.authorization) && #[trigger] agrees(
                        a,
                        lock_reply(token, req.path@),
                    ),
                _ => r is None,
            },
    {
        let mut res = Response::new();
        match action {
            Action::Unauthorized => Some(self.auth_reject(&guard.challenge)),
            Action::Forbidden => {
                status_forbid(&mut res);
                Some(Ok(res))
            },
            Action::NotFound => {
                status_not_found(&mut res);
                Some(Ok(res))
            },
            Action::MethodNotAllowed => {
                res.status = 405;
                Some(Ok(res))
            },
            Action::AlreadyExists => {
                res.status = 405;
                res.body = Body::Text("Already exists".to_owned());
                Some(Ok(res))
            },
            Action::Options => {
                set_webdav_headers(&mut res);
                Some(Ok(res))
            },
            Action::Done => Some(Ok(res)),
            Action::Proppatch => Some(Ok(handle_proppatch(req.path.as_str()))),
            Action::Lock => Some(handle_lock(req.path.as_str(), req.authorization)),
            _ => None,
        }
    }

    /// Ends a request: what was made of it becomes the answer, a failure
    /// becomes 500. Every request but one for an asset that was answered
    /// gets an entry in the log, a failure with its reason. Where the
    /// server is open to other origins, the answer says so.
    pub fn call(&self, req_path: &str, outcome: Result<Response, String>) -> (r: (
        Response,
        Option<LogEntry>,
    ))
        ensures
            match outcome {
                Ok(res) => {
                    &&& r.0@ == call_result(self.args(), self.assets_prefix(), req_path@, res@).0
                    &&& match call_result(self.args(), self.assets_prefix(), req_path@, res@).1 {
                        Some(status) => r.1 matches Some(entry) && entry.status == status
                            && entry.error is None,
                        None => r.1 is None,
                    }
                },
                Err(message) => {
                    &&& r.0@ == (if self.args().enable_cors {
                        with_cors(internal_error())
                    } else {
                        internal_error()
                    })
                    &&& r.1 matches Some(entry) && entry.status == 500 && opt_text(
                        entry.error,
                    ) == Some(message@)
                },
            },
    {
        let (mut res, log) = match outcome {
            Ok(res) => {
                let path = chars_of(req_path);
                let prefix = chars_of(self.assets_prefix_text());
                let log = if starts_with(path.as_slice(), prefix.as_slice()) {
                    None
                } else {
                    Some(LogEntry { status: res.status, error: None })
                };
                (res, log)
            },
            Err(message) => {
                let mut res = Response::new();
                res.status = 500;
                (res, Some(LogEntry { status: 500, error: Some(message) }))
            },
        };
        if self.config().enable_cors {
            add_cors(&mut res);
        }
        (res, log)
    }
}

} // verus!
