//! Listings as the server sends them: plain lines, a record for the page,
//! and the page itself.

use vstd::prelude::*;
use vstd::string::*;
use vstd::utf8::encode_utf8;
use crate::config::Args;
use crate::content::{inspect_is_text, looks_textual, Failure};
use crate::listing::{items_view, listed, PathItem, PathItemView, StatEntry};
use crate::path::{relative_to, strip_root};
use crate::request::{Query, QueryView};
use crate::response::{
    forbidden, fresh, no_headers, status_forbid, Body, BodyView, HeadersView, Response,
    ResponseView,
};
use crate::server::Server;
use crate::sort::{arrange, arranged};
use crate::text::{chars_of, opt_text, replace_all, replaced, string_of};

verus! {

/// Largest size, in bytes, of a file that the editor page offers to edit.
pub const TEXT_MAX_SIZE: u64 = 4194304;

/// What a page shows.
#[derive(Clone, Copy, Debug, PartialEq, Eq, Structural)]
pub enum DataKind {
    Index,
    Edit,
}

/// The record behind the page of a listing.
#[derive(Clone, Debug, PartialEq, Eq)]
pub struct IndexData {
    pub href: String,
    pub kind: DataKind,
    pub uri_prefix: String,
    pub allow_upload: bool,
    pub allow_delete: bool,
    pub allow_search: bool,
    pub allow_archive: bool,
    pub dir_exists: bool,
    pub auth: bool,
    pub user: Option<String>,
    pub paths: Vec<PathItem>,
}

pub struct IndexDataView {
    pub href: Seq<char>,
    pub kind: DataKind,
    pub uri_prefix: Seq<char>,
    pub allow_upload: bool,
    pub allow_delete: bool,
    pub allow_search: bool,
    pub allow_archive: bool,
    pub dir_exists: bool,
    pub auth: bool,
    pub user: Option<Seq<char>>,
    pub paths: Seq<PathItemView>,
}

impl View for IndexData {
    type V = IndexDataView;

    open spec fn view(&self) -> IndexDataView {
        IndexDataView {
            href: self.href@,
            kind: self.kind,
            uri_prefix: self.uri_prefix@,
            allow_upload: self.allow_upload,
            allow_delete: self.allow_delete,
            allow_search: self.allow_search,
            allow_archive: self.allow_archive,
            dir_exists: self.dir_exists,
            auth: self.auth,
            user: opt_text(self.user),
            paths: items_view(self.paths@),
        }
    }
}

/// The record behind the page that edits a file.
#[derive(Clone, Debug, PartialEq, Eq)]
pub struct EditData {
    pub href: String,
    pub kind: DataKind,
    pub uri_prefix: String,
    pub allow_upload: bool,
    pub allow_delete: bool,
    pub auth: bool,
    pub user: Option<String>,
    pub editable: bool,
}

pub struct EditDataView {
    pub href: Seq<char>,
    pub kind: DataKind,
    pub uri_prefix: Seq<char>,
    pub allow_upload: bool,
    pub allow_delete: bool,
    pub auth: bool,
    pub user: Option<Seq<char>>,
    pub editable: bool,
}

impl View for EditData {
    type V = EditDataView;

    open spec fn view(&self) -> EditDataView {
        EditDataView {
            href: self.href@,
            kind: self.kind,
            uri_prefix: self.uri_prefix@,
            allow_upload: self.allow_upload,
            allow_delete: self.allow_delete,
            auth: self.auth,
            user: opt_text(self.user),
            editable: self.editable,
        }
    }
}

/// A listing as plain lines: one name a line, a slash behind the name of a
/// directory.
pub open spec fn simple_lines(items: Seq<PathItemView>) -> Seq<char>
    decreases items.len(),
{
    if items.len() == 0 {
        Seq::<char>::empty()
    } else {
        simple_lines(items.drop_last()) + items.last().name + (if items.last().is_dir() {
            "/\n"@
        } else {
            "\n"@
        })
    }
}

/// The link of a path of the served tree: a slash and what is left of the
/// path below the served directory.
pub open spec fn href_of(root: Seq<char>, path: Seq<char>) -> Option<Seq<char>> {
    match relative_to(path, root) {
        Some(rel) => Some(seq!['/'] + rel),
        None => None,
    }
}

/// An answer that carries a text: its type, its length in bytes and, unless
/// only the headers are asked for, the text.
pub open spec fn text_response(content_type: Seq<char>, text: Seq<char>, with_body: bool) -> ResponseView {
    ResponseView {
        status: 200,
        headers: HeadersView {
            content_type: Some(content_type),
            content_length: Some(encode_utf8(text).len() as u64),
            ..no_headers()
        },
        body: if with_body {
            BodyView::Text(text)
        } else {
            BodyView::Empty
        },
    }
}

/// The page with the asset prefix and the serialized record put in where
/// its two markers stand.
pub open spec fn page_text(html: Seq<char>, assets_prefix: Seq<char>, data: Seq<char>) -> Seq<
    char,
> {
    replaced(replaced(html, "__ASSERTS_PREFIX__"@, assets_prefix), "__INDEX_DATA__"@, data)
}

/// The record behind the page of a listing of `path`.
pub open spec fn index_data_of(
    args: Args,
    path: Seq<char>,
    paths: Seq<PathItemView>,
    exist: bool,
    user: Option<Seq<char>>,
) -> Option<IndexDataView> {
    match href_of(args.path@, path) {
        None => None,
        Some(href) => Some(
            IndexDataView {
                href,
                kind: DataKind::Index,
                uri_prefix: args.uri_prefix@,
                allow_upload: args.allow_upload,
                allow_delete: args.allow_delete,
                allow_search: args.allow_search,
                allow_archive: args.allow_archive,
                dir_exists: exist,
                auth: args.auth,
                user,
                paths,
            },
        ),
    }
}

/// What sending a listing comes to.
#[derive(Clone, Debug, PartialEq, Eq)]
pub enum IndexOutcome {
    /// The answer.
    Ready(Response),
    /// The record to serialize; the serialized text then makes the answer.
    Page(IndexData),
}

/// Whether the outcome of sending a listing is the one wanted: for a query
/// with `simple` the lines of the arranged listing, else the record with
/// the arranged listing, and a failure when the path is not below the
/// served directory.
pub open spec fn index_outcome_ok(
    r: Result<IndexOutcome, Failure>,
    args: Args,
    path: Seq<char>,
    paths: Seq<PathItemView>,
    exist: bool,
    query: QueryView,
    user: Option<Seq<char>>,
) -> bool {
    let shown = arranged(query, paths);
    if query.simple {
        r matches Ok(IndexOutcome::Ready(res)) && res@ == text_response(
            "text/html; charset=utf-8"@,
            simple_lines(shown),
            true,
        )
    } else {
        match index_data_of(args, path, shown, exist, user) {
            Some(data) => r matches Ok(IndexOutcome::Page(d)) && d@ == data,
            None => r matches Err(f) && f == Failure::OutsideRoot,
        }
    }
}

/// The length in bytes of a text, as a header carries it.
pub fn byte_length(text: &str) -> (r: u64)
    ensures
        r == encode_utf8(text@).len(),
{
    text.as_bytes().len() as u64
}

/// A listing as plain lines.
pub fn simple_listing(paths: &Vec<PathItem>) -> (r: String)
    ensures
        r@ == simple_lines(items_view(paths@)),
{
    let mut out = String::new();
    let mut i: usize = 0;
    let ghost all = items_view(paths@);
    assert(all.take(0) =~= Seq::<PathItemView>::empty());
    while i < paths.len()
        invariant
            i <= paths.len(),
            all == items_view(paths@),
            out@ == simple_lines(all.take(i as int)),
        decreases paths.len() - i,
    {
        proof {
            let t = all.take(i + 1);
            assert(t.drop_last() =~= all.take(i as int));
            assert(t.last() == paths@[i as int]@);
        }
        out.append(paths[i].name.as_str());
        if paths[i].is_dir() {
            out.append("/\n");
        } else {
            out.append("\n");
        }
        i += 1;
    }
    assert(all.take(all.len() as int) =~= all);
    out
}

/// An answer that carries a text.
pub fn respond_text(content_type: &str, text: String, with_body: bool) -> (r: Response)
    ensures
        r@ == text_response(content_type@, text@, with_body),
{
    let mut res = Response::new();
    res.headers.content_type = Some(content_type.to_owned());
    res.headers.content_length = Some(byte_length(text.as_str()));
    if with_body {
        res.body = Body::Text(text);
    }
    res
}

impl Server {
    /// The link of a path of the served tree.
    pub fn href(&self, path: &str) -> (r: Option<String>)
        ensures
            r is Some <==> href_of(self.args().path@, path@) is Some,
            r matches Some(h) ==> h@ == href_of(self.args().path@, path@)->0,
    {
        match strip_root(path, self.config().path.as_str()) {
            Some(rel) => {
                let mut out = "/".to_owned();
                out.append(rel.as_str());
                proof {
                    reveal_strlit("/");
                    assert("/"@ =~= seq!['/']);
                }
                Some(out)
            },
            None => None,
        }
    }

    /// Sends the listing `paths` of the directory at `path`: arranged as
    /// the query asks, as plain lines for a query with `simple`, else as
    /// the record behind the page.
    pub fn send_index(
        &self,
        path: &str,
        paths: Vec<PathItem>,
        exist: bool,
        query: &Query,
        user: Option<String>,
    ) -> (r: Result<IndexOutcome, Failure>)
        ensures
            index_outcome_ok(
                r,
                self.args(),
                path@,
                items_view(paths@),
                exist,
                query@,
                opt_text(user),
            ),
    {
        let paths = arrange(paths, query);
        if query.simple {
            let output = simple_listing(&paths);
            return Ok(IndexOutcome::Ready(respond_text("text/html; charset=utf-8", output, true)));
        }
        let href = match self.href(path) {
            Some(h) => h,
            None => {
                return Err(Failure::OutsideRoot);
            },
        };
        let args = self.config();
        Ok(
            IndexOutcome::Page(
                IndexData {
                    href,
                    kind: DataKind::Index,
                    uri_prefix: args.uri_prefix.clone(),
                    allow_upload: args.allow_upload,
                    allow_delete: args.allow_delete,
                    allow_search: args.allow_search,
                    allow_archive: args.allow_archive,
                    dir_exists: exist,
                    auth: args.auth,
                    user,
                    paths,
                },
            ),
        )
    }

    /// The page with the asset prefix and a serialized record put in.
    pub fn page(&self, serialized: &str) -> (r: String)
        ensures
            r@ == page_text(self.html(), self.assets_prefix(), serialized@),
    {
        let html = chars_of(self.page_source());
        let prefix = chars_of(self.assets_prefix_text());
        let data = chars_of(serialized);
        let first_marker = chars_of("__ASSERTS_PREFIX__");
        let second_marker = chars_of("__INDEX_DATA__");
        proof {
            reveal_strlit("__ASSERTS_PREFIX__");
            reveal_strlit("__INDEX_DATA__");
        }
        let with_prefix = replace_all(html.as_slice(), first_marker.as_slice(), prefix.as_slice());
        let full = replace_all(with_prefix.as_slice(), second_marker.as_slice(), data.as_slice());
        string_of(full.as_slice())
    }

    /// The answer that carries a serialized record of a listing: the record
    /// itself for a query with `json`, else the page around it.
    pub fn render_index(&self, query: &Query, serialized: &str, head_only: bool) -> (r: Response)
        ensures
            r@ == (if query.json {
                text_response("application/json"@, serialized@, !head_only)
            } else {
                text_response(
                    "text/html; charset=utf-8"@,
                    page_text(self.html(), self.assets_prefix(), serialized@),
                    !head_only,
                )
            }),
    {
        if query.json {
            respond_text("application/json", serialized.to_owned(), !head_only)
        } else {
            respond_text("text/html; charset=utf-8", self.page(serialized), !head_only)
        }
    }

    /// Lists the directory at `path`. `entries` are the entries found in
    /// it, or nothing when the directory could not be read, which is
    /// answered with a refusal. A directory that is not there has an empty
    /// listing.
    pub fn handle_ls_dir(
        &self,
        path: &str,
        exist: bool,
        entries: Option<&Vec<StatEntry>>,
        query: &Query,
        user: Option<String>,
    ) -> (r: Result<IndexOutcome, Failure>)
        ensures
            exist && entries is None ==> (r matches Ok(IndexOutcome::Ready(res)) && res@
                == forbidden(fresh())),
            !(exist && entries is None) ==> index_outcome_ok(
                r,
                self.args(),
                path@,
                if exist {
                    listed(self.args(), path@, entries->0@)
                } else {
                    Seq::<PathItemView>::empty()
                },
                exist,
                query@,
                opt_text(user),
            ),
    {
        let mut paths: Vec<PathItem> = Vec::new();
        assert(items_view(paths@) =~= Seq::<PathItemView>::empty());
        if exist {
            match entries {
                Some(found) => {
                    paths = self.list_dir(path, found);
                },
                None => {
                    let mut res = Response::new();
                    status_forbid(&mut res);
                    return Ok(IndexOutcome::Ready(res));
                },
            }
        }
        self.send_index(path, paths, exist, query, user)
    }

    /// The record behind the page that edits the file of `size` bytes at
    /// `path`, whose first bytes are `head`. The file can be edited when it
    /// is no larger than 4 MiB and its head looks like text.
    pub fn handle_edit_file(&self, path: &str, size: u64, head: &[u8], user: Option<String>) -> (r:
        Result<EditData, Failure>)
        ensures
            match href_of(self.args().path@, path@) {
                Some(href) => r matches Ok(d) && d@ == (EditDataView {
                    href,
                    kind: DataKind::Edit,
                    uri_prefix: self.args().uri_prefix@,
                    allow_upload: self.args().allow_upload,
                    allow_delete: self.args().allow_delete,
                    auth: self.args().auth,
                    user: opt_text(user),
                    editable: size <= TEXT_MAX_SIZE && looks_textual(head@),
                }),
                None => r matches Err(f) && f == Failure::OutsideRoot,
            },
    {
        let href = match self.href(path) {
            Some(h) => h,
            None => {
                return Err(Failure::OutsideRoot);
            },
        };
        let editable = size <= TEXT_MAX_SIZE && inspect_is_text(head);
        let args = self.config();
        Ok(
            EditData {
                href,
                kind: DataKind::Edit,
                uri_prefix: args.uri_prefix.clone(),
                allow_upload: args.allow_upload,
                allow_delete: args.allow_delete,
                auth: args.auth,
                user,
                editable,
            },
        )
    }

    /// The answer that carries the page around a serialized record of a
    /// file to edit.
    pub fn render_edit(&self, serialized: &str, head_only: bool) -> (r: Response)
        ensures
            r@ == text_response(
                "text/html; charset=utf-8"@,
                page_text(self.html(), self.assets_prefix(), serialized@),
                !head_only,
            ),
    {
        respond_text("text/html; charset=utf-8", self.page(serialized), !head_only)
    }
}

} // verus!
