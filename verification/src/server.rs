//! The server record and the dispatcher: for one request, what is to be
//! done.

use vstd::prelude::*;
use vstd::string::*;
use crate::access::Guard;
use crate::config::Args;
use crate::hidden::{hidden_path, hides_path};
use crate::path::{
    descends_from, file_name, get_file_name, has_extension, join, joined, lemma_joined_descends,
    lemma_joined_lies_below, lies_below, path_descends_from, path_has_extension,
};
use crate::request::{Method, QueryView, Request, Target, TargetKind};
use crate::text::{
    chars_of, slice_chars, starts_with, str_eq, string_of, trim, trim_matches,
};
use crate::uri::{decode_uri, encode_uri, uri_decoded, uri_encoded};

verus! {

/// What is to be done for a request. The first group are complete answers;
/// the second group is work on the file system, whose outcome decides the
/// answer.
#[derive(Clone, Copy, Debug, PartialEq, Eq, Structural)]
pub enum Action {
    /// 401 with a challenge.
    Unauthorized,
    /// 403.
    Forbidden,
    /// 404.
    NotFound,
    /// 405.
    MethodNotAllowed,
    /// 405 with the body `Already exists`.
    AlreadyExists,
    /// 200 with the WebDAV headers.
    Options,
    /// 200 and nothing else.
    Done,
    /// The fixed multistatus answer to a property update.
    Proppatch,
    /// The answer to a lock request.
    Lock,
    /// Serve the bundled or replaced asset that the path names.
    Asset,
    /// Send the file at the target path.
    SendFile,
    /// Send the single file that the server serves.
    SendServedFile,
    /// Send `index.html` of the served directory.
    SendSpaIndex,
    /// Stream the target directory as an archive.
    Zip,
    /// Search the target directory.
    Search,
    /// Send `index.html` of the target directory if there is one.
    RenderIndex,
    /// List the target directory; `exist` tells whether it is there.
    List { exist: bool },
    /// Send the editor page for the target file.
    Edit,
    /// Store the request body at the target path.
    Upload,
    /// Remove the target.
    Delete { is_dir: bool },
    /// Answer a property query on the target directory.
    PropfindDir,
    /// Answer a property query on the target file.
    PropfindFile,
    /// Create the target directory.
    Mkcol,
    /// Copy the target file to the destination.
    Copy,
    /// Move the target file to the destination.
    Move,
}

/// The internal path that a request path names under `path_prefix`: slashes
/// at the ends are dropped and the rest is decoded. Where the prefix, its
/// own slashes aside, is not empty, the path has to begin with it, and to
/// end there or go on with a slash; the prefix is taken off and slashes at
/// the ends are dropped again. There is none when the path cannot be
/// decoded or does not lie under the prefix.
pub open spec fn resolved(path_prefix: Seq<char>, uri_path: Seq<char>) -> Option<Seq<char>> {
    match uri_decoded(trim(uri_path, '/')) {
        None => None,
        Some(p) => {
            let prefix = trim(path_prefix, '/');
            if prefix.len() == 0 {
                Some(p)
            } else if prefix.is_prefix_of(p) && (p.len() == prefix.len() || p[prefix.len() as int]
                == '/') {
                Some(trim(p.skip(prefix.len() as int), '/'))
            } else {
                None
            }
        },
    }
}

/// The prefix of the paths under which the bundled assets are served.
pub open spec fn assets_prefix_of(uri_prefix: Seq<char>) -> Seq<char> {
    uri_prefix + "__dufs_v0.1.0_"@
}

/// The three request paths that name the served file when the server
/// serves a single file: the link prefix, the link prefix without its last
/// slash, and the encoded prefix followed by the file's name.
pub open spec fn single_file_paths(args: Args) -> Seq<Seq<char>> {
    seq![
        args.uri_prefix@,
        args.uri_prefix@.drop_last(),
        uri_encoded(
            args.uri_prefix@ + (match file_name(args.path@) {
                Some(n) => n,
                None => Seq::<char>::empty(),
            }),
        ),
    ]
}

/// What a GET or HEAD request is answered with. A caller who may only list
/// directories is refused every file.
pub open spec fn on_get(
    args: Args,
    query: QueryView,
    kind: TargetKind,
    index_only: bool,
    ends_with_slash: bool,
    has_ext: bool,
) -> Action {
    match kind {
        TargetKind::Dir => if query.zip && args.allow_archive {
            Action::Zip
        } else if query.q is Some && args.allow_search {
            Action::Search
        } else if args.render_try_index || args.render_index || args.render_spa {
            Action::RenderIndex
        } else {
            Action::List { exist: true }
        },
        TargetKind::File => if index_only {
            Action::Forbidden
        } else if query.edit {
            Action::Edit
        } else {
            Action::SendFile
        },
        _ => if args.render_spa && !has_ext {
            Action::SendSpaIndex
        } else if args.allow_upload && ends_with_slash {
            Action::List { exist: false }
        } else {
            Action::NotFound
        },
    }
}

/// What a request is answered with once its target is known.
pub open spec fn select(
    args: Args,
    method: Method,
    query: QueryView,
    kind: TargetKind,
    size: u64,
    index_only: bool,
    ends_with_slash: bool,
    has_ext: bool,
) -> Action {
    match method {
        Method::Get | Method::Head => on_get(
            args,
            query,
            kind,
            index_only,
            ends_with_slash,
            has_ext,
        ),
        Method::Options => Action::Options,
        Method::Put => if !args.allow_upload || (!args.allow_delete && kind == TargetKind::File
            && size > 0) {
            Action::Forbidden
        } else {
            Action::Upload
        },
        Method::Delete => if kind == TargetKind::Missing {
            Action::NotFound
        } else if !args.allow_delete {
            Action::Forbidden
        } else {
            Action::Delete { is_dir: kind == TargetKind::Dir }
        },
        Method::Propfind => match kind {
            TargetKind::Dir => Action::PropfindDir,
            TargetKind::File => Action::PropfindFile,
            _ => Action::NotFound,
        },
        Method::Proppatch => if kind == TargetKind::File {
            Action::Proppatch
        } else {
            Action::NotFound
        },
        Method::Mkcol => if !args.allow_upload {
            Action::Forbidden
        } else if kind != TargetKind::Missing {
            Action::AlreadyExists
        } else {
            Action::Mkcol
        },
        Method::Copy => if !args.allow_upload {
            Action::Forbidden
        } else if kind == TargetKind::Missing {
            Action::NotFound
        } else if kind == TargetKind::Dir {
            Action::Forbidden
        } else {
            Action::Copy
        },
        Method::Move => if !args.allow_upload || !args.allow_delete {
            Action::Forbidden
        } else if kind == TargetKind::Missing {
            Action::NotFound
        } else if kind == TargetKind::Dir {
            Action::Forbidden
        } else {
            Action::Move
        },
        Method::Lock => if kind == TargetKind::File {
            Action::Lock
        } else {
            Action::NotFound
        },
        Method::Unlock => if kind == TargetKind::Missing {
            Action::NotFound
        } else {
            Action::Done
        },
        Method::Writeable => Action::Done,
        Method::Other => Action::MethodNotAllowed,
    }
}

/// Whether a resolved path, if there is one, is the root or lies below it.
pub open spec fn contained(canonical: Option<String>, root: Seq<char>) -> bool {
    match canonical {
        Some(c) => descends_from(c@, root),
        None => false,
    }
}

/// A running server: its configuration, the page that it renders into, and
/// what it derives from the configuration once.
pub struct Server {
    args: Args,
    assets_prefix: String,
    html: String,
    single_file_req_paths: Vec<String>,
}

impl Server {
    #[verifier::type_invariant]
    pub closed spec fn wf(&self) -> bool {
        &&& self.args.well_formed()
        &&& self.assets_prefix@ == assets_prefix_of(self.args.uri_prefix@)
        &&& self.single_file_req_paths.deep_view() == if self.args.path_is_file {
            single_file_paths(self.args)
        } else {
            Seq::<Seq<char>>::empty()
        }
    }

    /// The configuration.
    pub closed spec fn args(&self) -> Args {
        self.args
    }

    /// The page that listings are rendered into.
    pub closed spec fn html(&self) -> Seq<char> {
        self.html@
    }

    /// The prefix of the asset paths.
    pub closed spec fn assets_prefix(&self) -> Seq<char> {
        self.assets_prefix@
    }

    /// A server for `args` that renders into the page `html`. There is none
    /// for a configuration that is not well formed.
    pub fn init(args: Args, html: String) -> (r: Option<Server>)
        ensures
            r is Some <==> args.well_formed(),
            r matches Some(s) ==> s.wf() && s.args() == args && s.html() == html@
                && s.assets_prefix() == assets_prefix_of(args.uri_prefix@),
    {
        let prefix = chars_of(args.uri_prefix.as_str());
        if args.path.as_str().unicode_len() == 0 || prefix.len() == 0 || prefix[0] != '/'
            || prefix[prefix.len() - 1] != '/' {
            return None;
        }
        let mut assets_prefix = args.uri_prefix.clone();
        assets_prefix.append("__dufs_v0.1.0_");
        let mut single_file_req_paths: Vec<String> = Vec::new();
        if args.path_is_file {
            let short = slice_chars(prefix.as_slice(), 0, prefix.len() - 1);
            assert(short@ =~= args.uri_prefix@.drop_last());
            let mut full = args.uri_prefix.clone();
            let name = get_file_name(args.path.as_str());
            full.append(name.as_str());
            single_file_req_paths.push(args.uri_prefix.clone());
            single_file_req_paths.push(string_of(short.as_slice()));
            single_file_req_paths.push(encode_uri(full.as_str()));
            assert(single_file_req_paths.deep_view() =~= single_file_paths(args));
        } else {
            assert(single_file_req_paths.deep_view() =~= Seq::<Seq<char>>::empty());
        }
        Some(Server { args, assets_prefix, html, single_file_req_paths })
    }

    /// The page that listings are rendered into.
    pub fn page_source(&self) -> (r: &str)
        ensures
            r@ == self.html(),
    {
        self.html.as_str()
    }

    /// The prefix of the asset paths.
    pub fn assets_prefix_text(&self) -> (r: &str)
        ensures
            r@ == self.assets_prefix(),
    {
        self.assets_prefix.as_str()
    }

    /// The configuration.
    pub fn config(&self) -> (r: &Args)
        ensures
            *r == self.args(),
    {
        &self.args
    }

    /// The internal path that a request path names.
    pub fn resolve_path(&self, path: &str) -> (r: Option<String>)
        ensures
            r is Some <==> resolved(self.args().path_prefix@, path@) is Some,
            r matches Some(p) ==> p@ == resolved(self.args().path_prefix@, path@)->0,
    {
        let raw = chars_of(path);
        let trimmed = string_of(trim_matches(raw.as_slice(), '/').as_slice());
        let decoded = match decode_uri(trimmed.as_str()) {
            Some(d) => d,
            None => {
                return None;
            },
        };
        let whole = chars_of(self.args.path_prefix.as_str());
        let prefix = trim_matches(whole.as_slice(), '/');
        if prefix.len() == 0 {
            return Some(decoded);
        }
        let p = chars_of(decoded.as_str());
        if !starts_with(p.as_slice(), prefix.as_slice()) {
            return None;
        }
        if p.len() != prefix.len() && p[prefix.len()] != '/' {
            return None;
        }
        let rest = slice_chars(p.as_slice(), prefix.len(), p.len());
        assert(rest@ =~= p@.skip(prefix@.len() as int));
        Some(string_of(trim_matches(rest.as_slice(), '/').as_slice()))
    }

    /// The path in the file system that an internal path names: the path
    /// below the served directory. An internal path that begins with `/`,
    /// or that climbs above its start by way of `..`, names none. What is
    /// named, its detours taken out, is the served directory or lies below
    /// it.
    pub fn join_path(&self, path: &str) -> (r: Option<String>)
        ensures
            r is Some <==> joined(self.args().path@, path@) is Some,
            r matches Some(p) ==> p@ == joined(self.args().path@, path@)->0 && descends_from(
                p@,
                self.args().path@,
            ) && lies_below(p@, self.args().path@),
    {
        let r = join(self.args.path.as_str(), path);
        proof {
            if r is Some {
                lemma_joined_descends(self.args.path@, path@);
                lemma_joined_lies_below(self.args.path@, path@);
            }
        }
        r
    }

    /// Whether a path, given with every link on the way resolved, is the
    /// served directory or lies below it. `None` stands for a path that
    /// could not be resolved.
    pub fn is_root_contained(&self, canonical: &Option<String>) -> (r: bool)
        ensures
            r == contained(*canonical, self.args().path@),
    {
        match canonical {
            Some(c) => path_descends_from(c.as_str(), self.args.path.as_str()),
            None => false,
        }
    }

    /// Whether a request is for one of the assets: a GET whose path begins
    /// with the asset prefix.
    pub open spec fn is_asset_request(&self, req: &Request) -> bool {
        req.method == Method::Get && self.assets_prefix().is_prefix_of(req.path@)
    }

    /// Whether a request path names the served file of a single-file
    /// server.
    pub open spec fn names_served_file(&self, path: Seq<char>) -> bool {
        single_file_paths(self.args()).contains(path)
    }

    /// What is to be done for a request, given the guard's answer for its
    /// path and what the file system holds there. A path with a hidden name
    /// on its way names nothing, and a caller who may only list directories
    /// is refused every file.
    pub open spec fn dispatch(&self, req: &Request, guard: &Guard, target: &Target) -> Action {
        if self.is_asset_request(req) {
            Action::Asset
        } else {
            match resolved(self.args().path_prefix@, req.path@) {
                None => Action::Forbidden,
                Some(rel) => if guard.access is None {
                    if guard.user is None {
                        Action::Unauthorized
                    } else {
                        Action::Forbidden
                    }
                } else if req.method == Method::Writeable {
                    Action::Done
                } else if self.args().path_is_file {
                    if !self.names_served_file(req.path@) {
                        Action::NotFound
                    } else if guard.access->0.perm.is_indexonly() {
                        Action::Forbidden
                    } else {
                        Action::SendServedFile
                    }
                } else {
                    match joined(self.args().path@, rel) {
                        None => Action::Forbidden,
                        Some(path) => if hidden_path(
                            self.args().hidden@,
                            self.args().posix_hidden,
                            rel,
                            target.kind == TargetKind::Dir,
                        ) {
                            Action::NotFound
                        } else if !self.args().allow_symlink && target.kind
                            != TargetKind::Missing && !contained(
                            target.canonical,
                            self.args().path@,
                        ) {
                            Action::NotFound
                        } else {
                            select(
                                self.args(),
                                req.method,
                                req.query@,
                                target.kind,
                                target.size,
                                guard.access->0.perm.is_indexonly(),
                                req.path@.len() > 0 && req.path@.last() == '/',
                                has_extension(path),
                            )
                        },
                    }
                },
            }
        }
    }

    fn names_served(&self, path: &str) -> (r: bool)
        requires
            self.args().path_is_file,
        ensures
            r == self.names_served_file(path@),
    {
        proof {
            use_type_invariant(self);
        }
        let ghost want = single_file_paths(self.args);
        let mut i: usize = 0;
        while i < self.single_file_req_paths.len()
            invariant
                i <= self.single_file_req_paths.len(),
                self.single_file_req_paths.deep_view() == want,
                want == single_file_paths(self.args()),
                forall|k: int| 0 <= k < i ==> want[k] != path@,
            decreases self.single_file_req_paths.len() - i,
        {
            assert(self.single_file_req_paths.deep_view()[i as int]
                == self.single_file_req_paths@[i as int]@);
            if str_eq(self.single_file_req_paths[i].as_str(), path) {
                assert(want[i as int] == path@);
                assert(want.contains(path@));
                return true;
            }
            i += 1;
        }
        false
    }

    /// Decides what is to be done for a request. `guard` is the guard's
    /// answer for the internal path of the request, and `target` what the
    /// file system holds at its path; neither is read when the request path
    /// resolves to nothing.
    pub fn handle(&self, req: &Request, guard: &Guard, target: &Target) -> (r: Action)
        ensures
            r == self.dispatch(req, guard, target),
    {
        proof {
            use_type_invariant(self);
        }
        let req_path = chars_of(req.path.as_str());
        if matches!(req.method, Method::Get) {
            let prefix = chars_of(self.assets_prefix.as_str());
            if starts_with(req_path.as_slice(), prefix.as_slice()) {
                return Action::Asset;
            }
        }
        let relative_path = match self.resolve_path(req.path.as_str()) {
            Some(v) => v,
            None => {
                return Action::Forbidden;
            },
        };
        let index_only = match &guard.access {
            Some(access) => access.perm.indexonly(),
            None => {
                if guard.user.is_none() {
                    return Action::Unauthorized;
                }
                return Action::Forbidden;
            },
        };
        if matches!(req.method, Method::Writeable) {
            return Action::Done;
        }
        if self.args.path_is_file {
            if !self.names_served(req.path.as_str()) {
                return Action::NotFound;
            }
            if index_only {
                return Action::Forbidden;
            }
            return Action::SendServedFile;
        }
        let path = match self.join_path(relative_path.as_str()) {
            Some(v) => v,
            None => {
                return Action::Forbidden;
            },
        };
        let is_dir = matches!(target.kind, TargetKind::Dir);
        if hides_path(
            self.args.hidden.as_slice(),
            self.args.posix_hidden,
            relative_path.as_str(),
            is_dir,
        ) {
            return Action::NotFound;
        }
        let is_miss = matches!(target.kind, TargetKind::Missing);
        if !self.args.allow_symlink && !is_miss && !self.is_root_contained(&target.canonical) {
            return Action::NotFound;
        }
        let ends_with_slash = req_path.len() > 0 && req_path[req_path.len() - 1] == '/';
        let has_ext = path_has_extension(path.as_str());
        select_action(
            &self.args,
            req.method,
            req,
            target.kind,
            target.size,
            index_only,
            ends_with_slash,
            has_ext,
        )
    }
}

fn get_action(
    args: &Args,
    req: &Request,
    kind: TargetKind,
    index_only: bool,
    ends_with_slash: bool,
    has_ext: bool,
) -> (r: Action)
    ensures
        r == on_get(*args, req.query@, kind, index_only, ends_with_slash, has_ext),
{
    match kind {
        TargetKind::Dir => {
            if req.query.zip && args.allow_archive {
                Action::Zip
            } else if req.query.q.is_some() && args.allow_search {
                Action::Search
            } else if args.render_try_index || args.render_index || args.render_spa {
                Action::RenderIndex
            } else {
                Action::List { exist: true }
            }
        },
        TargetKind::File => {
            if index_only {
                Action::Forbidden
            } else if req.query.edit {
                Action::Edit
            } else {
                Action::SendFile
            }
        },
        _ => {
            if args.render_spa && !has_ext {
                Action::SendSpaIndex
            } else if args.allow_upload && ends_with_slash {
                Action::List { exist: false }
            } else {
                Action::NotFound
            }
        },
    }
}

fn select_action(
    args: &Args,
    method: Method,
    req: &Request,
    kind: TargetKind,
    size: u64,
    index_only: bool,
    ends_with_slash: bool,
    has_ext: bool,
) -> (r: Action)
    ensures
        r == select(*args, method, req.query@, kind, size, index_only, ends_with_slash, has_ext),
{
    let is_miss = matches!(kind, TargetKind::Missing);
    let is_dir = matches!(kind, TargetKind::Dir);
    let is_file = matches!(kind, TargetKind::File);
    match method {
        Method::Get | Method::Head => get_action(
            args,
            req,
            kind,
            index_only,
            ends_with_slash,
            has_ext,
        ),
        Method::Options => Action::Options,
        Method::Put => {
            if !args.allow_upload || (!args.allow_delete && is_file && size > 0) {
                Action::Forbidden
            } else {
                Action::Upload
            }
        },
        Method::Delete => {
            if is_miss {
                Action::NotFound
            } else if !args.allow_delete {
                Action::Forbidden
            } else {
                Action::Delete { is_dir }
            }
        },
        Method::Propfind => {
            if is_dir {
                Action::PropfindDir
            } else if is_file {
                Action::PropfindFile
            } else {
                Action::NotFound
            }
        },
        Method::Proppatch => {
            if is_file {
                Action::Proppatch
            } else {
                Action::NotFound
            }
        },
        Method::Mkcol => {
            if !args.allow_upload {
                Action::Forbidden
            } else if !is_miss {
                Action::AlreadyExists
            } else {
                Action::Mkcol
            }
        },
        Method::Copy => {
            if !args.allow_upload {
                Action::Forbidden
            } else if is_miss {
                Action::NotFound
            } else if is_dir {
                Action::Forbidden
            } else {
                Action::Copy
            }
        },
        Method::Move => {
            if !args.allow_upload || !args.allow_delete {
                Action::Forbidden
            } else if is_miss {
                Action::NotFound
            } else if is_dir {
                Action::Forbidden
            } else {
                Action::Move
            }
        },
        Method::Lock => {
            if is_file {
                Action::Lock
            } else {
                Action::NotFound
            }
        },
        Method::Unlock => {
            if is_miss {
                Action::NotFound
            } else {
                Action::Done
            }
        },
        Method::Writeable => Action::Done,
        Method::Other => Action::MethodNotAllowed,
    }
}

} // verus!
