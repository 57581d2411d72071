use dufs::access::{AccessPaths, AccessPerm, Guard};
use dufs::config::Args;
use dufs::content::Failure;
use dufs::handlers::{AssetOutcome, IndexChoice};
use dufs::request::{Method, Query, Request, Target, TargetKind};
use dufs::response::{Asset, Body, Headers, Response};
use dufs::server::{Action, Server};

fn args() -> Args {
    Args {
        path: "/srv/data".to_string(),
        path_is_file: false,
        path_prefix: "/".to_string(),
        uri_prefix: "/".to_string(),
        hidden: vec![],
        posix_hidden: false,
        auth: false,
        allow_upload: false,
        allow_delete: false,
        allow_search: false,
        allow_symlink: false,
        allow_archive: false,
        enable_cors: false,
        render_index: false,
        render_spa: false,
        render_try_index: false,
        assets_path: None,
    }
}

fn server(args: Args) -> Server {
    Server::init(args, "<p>__ASSERTS_PREFIX__</p><script>__INDEX_DATA__</script>".to_string())
        .unwrap()
}

fn request(method: Method, path: &str, raw_query: &str) -> Request {
    Request {
        method,
        path: path.to_string(),
        query: Query::parse(raw_query),
        authorization: false,
    }
}

fn granted() -> Guard {
    Guard { user: None, access: Some(AccessPaths::new(AccessPerm::ReadWrite)), challenge: None }
}

fn target(kind: TargetKind, size: u64, canonical: &str) -> Target {
    Target { kind, size, canonical: Some(canonical.to_string()) }
}

fn dir() -> Target {
    target(TargetKind::Dir, 0, "/srv/data/d")
}

fn file(size: u64) -> Target {
    target(TargetKind::File, size, "/srv/data/a.txt")
}

fn missing() -> Target {
    Target { kind: TargetKind::Missing, size: 0, canonical: None }
}

fn decide(args: Args, method: Method, path: &str, raw_query: &str, t: &Target) -> Action {
    server(args).handle(&request(method, path, raw_query), &granted(), t)
}

#[test]
fn init_refuses_a_prefix_without_slashes() {
    let mut a = args();
    a.uri_prefix = "app/".to_string();
    assert!(Server::init(a, String::new()).is_none());
    let mut b = args();
    b.uri_prefix = "/app".to_string();
    assert!(Server::init(b, String::new()).is_none());
    let mut c = args();
    c.uri_prefix = String::new();
    assert!(Server::init(c, String::new()).is_none());
    let mut d = args();
    d.path = String::new();
    assert!(Server::init(d, String::new()).is_none());
}

#[test]
fn init_derives_the_asset_prefix() {
    let mut a = args();
    a.uri_prefix = "/app/".to_string();
    a.path_prefix = "/app".to_string();
    let s = server(a);
    assert_eq!(s.assets_prefix_text(), "/app/__dufs_v0.1.0_");
    assert_eq!(s.config().uri_prefix, "/app/");
}

#[test]
fn asset_requests_take_the_fast_path() {
    let s = server(args());
    let req = request(Method::Get, "/__dufs_v0.1.0_index.js", "");
    let nobody = Guard { user: None, access: None, challenge: None };
    assert_eq!(s.handle(&req, &nobody, &missing()), Action::Asset);
    let head = request(Method::Head, "/__dufs_v0.1.0_index.js", "");
    assert_eq!(s.handle(&head, &nobody, &missing()), Action::Unauthorized);
}

#[test]
fn bundled_assets_are_cacheable() {
    let s = server(args());
    let mut headers = Headers::new();
    headers.cache_control = true;
    headers.content_type = Some("application/javascript".to_string());
    assert_eq!(
        s.handle_assets("/__dufs_v0.1.0_index.js"),
        Some(AssetOutcome::Ready(Response {
            status: 200,
            headers: headers.clone(),
            body: Body::Asset(Asset::IndexJs)
        }))
    );
    headers.content_type = Some("text/css".to_string());
    assert_eq!(
        s.handle_assets("/__dufs_v0.1.0_index.css"),
        Some(AssetOutcome::Ready(Response {
            status: 200,
            headers: headers.clone(),
            body: Body::Asset(Asset::IndexCss)
        }))
    );
    headers.content_type = Some("image/x-icon".to_string());
    assert_eq!(
        s.handle_assets("/__dufs_v0.1.0_favicon.ico"),
        Some(AssetOutcome::Ready(Response {
            status: 200,
            headers: headers.clone(),
            body: Body::Asset(Asset::Favicon)
        }))
    );
    headers.content_type = None;
    assert_eq!(
        s.handle_assets("/__dufs_v0.1.0_other.js"),
        Some(AssetOutcome::Ready(Response {
            status: 404,
            headers,
            body: Body::Text("Not Found".to_string())
        }))
    );
    assert_eq!(s.handle_assets("/index.js"), None);
}

#[test]
fn replaced_assets_come_from_their_directory() {
    let mut a = args();
    a.assets_path = Some("/opt/assets".to_string());
    let s = server(a);
    assert_eq!(
        s.handle_assets("/__dufs_v0.1.0_index.js"),
        Some(AssetOutcome::File("/opt/assets/index.js".to_string()))
    );
    match s.handle_assets("/__dufs_v0.1.0_/etc/passwd") {
        Some(AssetOutcome::Ready(res)) => {
            assert_eq!(res.status, 404);
            assert!(res.headers.cache_control);
        }
        other => panic!("unexpected outcome: {:?}", other),
    }
}

#[test]
fn a_path_that_does_not_resolve_is_forbidden() {
    assert_eq!(decide(args(), Method::Get, "/%zz", "", &missing()), Action::Forbidden);
    assert_eq!(decide(args(), Method::Get, "/%ff", "", &missing()), Action::Forbidden);
    let mut a = args();
    a.path_prefix = "/app".to_string();
    a.uri_prefix = "/app/".to_string();
    assert_eq!(decide(a, Method::Get, "/other/x", "", &missing()), Action::Forbidden);
}

#[test]
fn a_path_that_would_leave_the_root_is_forbidden() {
    assert_eq!(decide(args(), Method::Get, "/%2Fetc/passwd", "", &file(3)), Action::Forbidden);
    assert_eq!(decide(args(), Method::Get, "/../etc/passwd", "", &file(3)), Action::Forbidden);
    assert_eq!(decide(args(), Method::Get, "/%2e%2e/etc/passwd", "", &file(3)), Action::Forbidden);
    assert_eq!(decide(args(), Method::Get, "/a/../../etc/passwd", "", &file(3)), Action::Forbidden);
    assert_eq!(decide(args(), Method::Put, "/a/b/../../../x", "", &missing()), Action::Forbidden);
    assert_eq!(decide(args(), Method::Get, "/a/../a.txt", "", &file(3)), Action::SendFile);
}

#[test]
fn a_path_under_another_prefix_is_forbidden() {
    let mut a = args();
    a.path_prefix = "/app".to_string();
    a.uri_prefix = "/app/".to_string();
    assert_eq!(decide(a.clone(), Method::Get, "/application/x", "", &file(3)), Action::Forbidden);
    assert_eq!(decide(a.clone(), Method::Get, "/app/x", "", &file(3)), Action::SendFile);
    assert_eq!(decide(a, Method::Get, "/app", "", &dir()), Action::List { exist: true });
}

#[test]
fn a_hidden_target_is_not_found() {
    let mut a = args();
    a.posix_hidden = true;
    a.hidden = vec!["*.bak".to_string(), "cache/".to_string()];
    a.allow_upload = true;
    a.allow_delete = true;
    assert_eq!(decide(a.clone(), Method::Get, "/.secret", "", &file(1)), Action::NotFound);
    assert_eq!(decide(a.clone(), Method::Head, "/d/.secret", "", &file(1)), Action::NotFound);
    assert_eq!(decide(a.clone(), Method::Get, "/.git/config", "", &file(1)), Action::NotFound);
    assert_eq!(decide(a.clone(), Method::Get, "/.git/", "", &dir()), Action::NotFound);
    assert_eq!(decide(a.clone(), Method::Get, "/x.bak", "", &file(1)), Action::NotFound);
    assert_eq!(decide(a.clone(), Method::Propfind, "/x.bak", "", &file(1)), Action::NotFound);
    assert_eq!(decide(a.clone(), Method::Delete, "/x.bak", "", &file(1)), Action::NotFound);
    assert_eq!(decide(a.clone(), Method::Put, "/.new", "", &missing()), Action::NotFound);
    assert_eq!(decide(a.clone(), Method::Get, "/cache", "", &dir()), Action::NotFound);
    assert_eq!(decide(a.clone(), Method::Get, "/cache/x", "", &file(1)), Action::NotFound);
    assert_eq!(decide(a.clone(), Method::Get, "/cache", "", &file(1)), Action::SendFile);
    assert_eq!(decide(a.clone(), Method::Get, "/a.txt", "", &file(1)), Action::SendFile);
    assert_eq!(decide(a.clone(), Method::Get, "/", "", &dir()), Action::List { exist: true });
    a.posix_hidden = false;
    assert_eq!(decide(a, Method::Get, "/.secret", "", &file(1)), Action::SendFile);
}

#[test]
fn a_caller_who_may_only_list_is_refused_files() {
    let s = server(args());
    let index_only = Guard {
        user: Some("amy".to_string()),
        access: Some(AccessPaths {
            perm: AccessPerm::IndexOnly,
            children: vec!["pub".to_string()],
            leaves: vec!["pub".to_string()],
        }),
        challenge: None,
    };
    for (method, query) in [(Method::Get, ""), (Method::Head, ""), (Method::Get, "edit")] {
        let req = request(method, "/d/f.txt", query);
        assert_eq!(s.handle(&req, &index_only, &file(3)), Action::Forbidden);
    }
    let req = request(Method::Get, "/d/", "");
    assert_eq!(s.handle(&req, &index_only, &dir()), Action::List { exist: true });
    let mut single = args();
    single.path = "/srv/a.txt".to_string();
    single.path_is_file = true;
    let s = server(single);
    let req = request(Method::Get, "/", "");
    assert_eq!(s.handle(&req, &index_only, &missing()), Action::Forbidden);
    assert_eq!(s.handle(&req, &granted(), &missing()), Action::SendServedFile);
}

#[test]
fn the_guard_decides_between_401_and_403() {
    let s = server(args());
    let req = request(Method::Get, "/a.txt", "");
    let nobody = Guard { user: None, access: None, challenge: Some("Basic realm=\"DUFS\"".to_string()) };
    assert_eq!(s.handle(&req, &nobody, &file(3)), Action::Unauthorized);
    let denied = Guard { user: Some("amy".to_string()), access: None, challenge: None };
    assert_eq!(s.handle(&req, &denied, &file(3)), Action::Forbidden);
}

#[test]
fn the_401_answer_carries_the_challenge() {
    let s = server(args());
    let req = request(Method::Get, "/a.txt", "");
    let nobody = Guard { user: None, access: None, challenge: Some("Basic realm=\"DUFS\"".to_string()) };
    let res = s.answer(Action::Unauthorized, &req, &nobody).unwrap().unwrap();
    assert_eq!(res.status, 401);
    assert_eq!(res.headers.www_authenticate, Some("Basic realm=\"DUFS\"".to_string()));
    assert!(res.headers.webdav);
    assert_eq!(res.body, Body::Empty);
    let silent = Guard { user: None, access: None, challenge: None };
    assert_eq!(s.answer(Action::Unauthorized, &req, &silent), Some(Err(Failure::Challenge)));
    let broken = Guard { user: None, access: None, challenge: Some("a\nb".to_string()) };
    assert_eq!(s.answer(Action::Unauthorized, &req, &broken), Some(Err(Failure::HeaderValue)));
}

#[test]
fn the_write_probe_is_answered_with_200() {
    assert_eq!(decide(args(), Method::Writeable, "/x", "", &missing()), Action::Done);
    let s = server(args());
    let req = request(Method::Writeable, "/x", "");
    assert_eq!(s.answer(Action::Done, &req, &granted()), Some(Ok(Response::new())));
}

#[test]
fn a_single_file_answers_to_three_paths() {
    let mut a = args();
    a.path = "/srv/my file.txt".to_string();
    a.path_is_file = true;
    a.path_prefix = "/f".to_string();
    a.uri_prefix = "/f/".to_string();
    for path in ["/f/", "/f", "/f/my%20file.txt"] {
        assert_eq!(decide(a.clone(), Method::Get, path, "", &missing()), Action::SendServedFile);
    }
    assert_eq!(decide(a.clone(), Method::Get, "/f/other.txt", "", &missing()), Action::NotFound);
    assert_eq!(decide(a, Method::Get, "/f/my file.txt", "", &missing()), Action::NotFound);
}

#[test]
fn a_target_outside_the_root_is_not_found() {
    let outside = target(TargetKind::File, 3, "/etc/passwd");
    assert_eq!(decide(args(), Method::Get, "/link", "", &outside), Action::NotFound);
    let unresolved = Target { kind: TargetKind::File, size: 3, canonical: None };
    assert_eq!(decide(args(), Method::Get, "/link", "", &unresolved), Action::NotFound);
    let sibling = target(TargetKind::File, 3, "/srv/data2/x");
    assert_eq!(decide(args(), Method::Get, "/link", "", &sibling), Action::NotFound);
    let mut a = args();
    a.allow_symlink = true;
    assert_eq!(decide(a, Method::Get, "/link", "", &outside), Action::SendFile);
}

#[test]
fn get_on_a_directory() {
    let mut a = args();
    assert_eq!(decide(a.clone(), Method::Get, "/d/", "", &dir()), Action::List { exist: true });
    assert_eq!(decide(a.clone(), Method::Head, "/d/", "", &dir()), Action::List { exist: true });
    assert_eq!(decide(a.clone(), Method::Get, "/d/", "zip", &dir()), Action::List { exist: true });
    assert_eq!(decide(a.clone(), Method::Get, "/d/", "q=x", &dir()), Action::List { exist: true });
    a.allow_archive = true;
    a.allow_search = true;
    assert_eq!(decide(a.clone(), Method::Get, "/d/", "zip", &dir()), Action::Zip);
    assert_eq!(decide(a.clone(), Method::Get, "/d/", "q=x", &dir()), Action::Search);
    assert_eq!(decide(a.clone(), Method::Get, "/d/", "q=x&zip", &dir()), Action::Zip);
    a.render_try_index = true;
    assert_eq!(decide(a.clone(), Method::Get, "/d/", "", &dir()), Action::RenderIndex);
    assert_eq!(decide(a.clone(), Method::Get, "/d/", "zip", &dir()), Action::Zip);
    a.render_try_index = false;
    a.render_index = true;
    assert_eq!(decide(a.clone(), Method::Get, "/d/", "", &dir()), Action::RenderIndex);
    a.render_index = false;
    a.render_spa = true;
    assert_eq!(decide(a, Method::Get, "/d/", "", &dir()), Action::RenderIndex);
}

#[test]
fn index_html_or_listing() {
    let mut a = args();
    a.render_index = true;
    let s = server(a.clone());
    assert_eq!(s.handle_render_index(true), IndexChoice::SendIndex);
    assert_eq!(s.handle_render_index(false), IndexChoice::NotFound);
    a.render_try_index = true;
    let s = server(a);
    assert_eq!(s.handle_render_index(true), IndexChoice::SendIndex);
    assert_eq!(s.handle_render_index(false), IndexChoice::List);
    assert_eq!(s.index_path("/srv/data/d"), Some("/srv/data/d/index.html".to_string()));
}

#[test]
fn get_on_a_file() {
    assert_eq!(decide(args(), Method::Get, "/a.txt", "", &file(3)), Action::SendFile);
    assert_eq!(decide(args(), Method::Head, "/a.txt", "", &file(3)), Action::SendFile);
    assert_eq!(decide(args(), Method::Get, "/a.txt", "edit", &file(3)), Action::Edit);
}

#[test]
fn get_on_nothing() {
    let mut a = args();
    assert_eq!(decide(a.clone(), Method::Get, "/nope", "", &missing()), Action::NotFound);
    assert_eq!(decide(a.clone(), Method::Get, "/nope/", "", &missing()), Action::NotFound);
    a.allow_upload = true;
    assert_eq!(decide(a.clone(), Method::Get, "/nope/", "", &missing()), Action::List { exist: false });
    assert_eq!(decide(a.clone(), Method::Get, "/nope", "", &missing()), Action::NotFound);
    a.render_spa = true;
    assert_eq!(decide(a.clone(), Method::Get, "/app/route", "", &missing()), Action::SendSpaIndex);
    assert_eq!(decide(a.clone(), Method::Get, "/app/logo.png", "", &missing()), Action::NotFound);
    let s = server(a);
    assert_eq!(s.handle_render_spa("/srv/data/app/route"), Some("/srv/data/index.html".to_string()));
    assert_eq!(s.handle_render_spa("/srv/data/app/logo.png"), None);
}

#[test]
fn options_is_answered_with_the_webdav_headers() {
    assert_eq!(decide(args(), Method::Options, "/x", "", &missing()), Action::Options);
    let s = server(args());
    let req = request(Method::Options, "/x", "");
    let res = s.answer(Action::Options, &req, &granted()).unwrap().unwrap();
    assert_eq!(res.status, 200);
    assert!(res.headers.webdav);
    assert_eq!(res.body, Body::Empty);
}

#[test]
fn put_needs_upload_and_spares_files_without_delete() {
    let mut a = args();
    assert_eq!(decide(a.clone(), Method::Put, "/new.txt", "", &missing()), Action::Forbidden);
    a.allow_upload = true;
    assert_eq!(decide(a.clone(), Method::Put, "/new.txt", "", &missing()), Action::Upload);
    assert_eq!(decide(a.clone(), Method::Put, "/a.txt", "", &file(3)), Action::Forbidden);
    assert_eq!(decide(a.clone(), Method::Put, "/a.txt", "", &file(0)), Action::Upload);
    a.allow_delete = true;
    assert_eq!(decide(a, Method::Put, "/a.txt", "", &file(3)), Action::Upload);
}

#[test]
fn upload_outcomes() {
    let s = server(args());
    assert_eq!(s.handle_upload(true).status, 201);
    let refused = s.handle_upload(false);
    assert_eq!(refused.status, 403);
    assert_eq!(refused.body, Body::Text("Forbidden".to_string()));
    assert_eq!(s.handle_delete().status, 204);
    assert_eq!(s.handle_mkcol().status, 201);
}

#[test]
fn delete_rows() {
    let mut a = args();
    assert_eq!(decide(a.clone(), Method::Delete, "/nope", "", &missing()), Action::NotFound);
    assert_eq!(decide(a.clone(), Method::Delete, "/a.txt", "", &file(3)), Action::Forbidden);
    a.allow_delete = true;
    assert_eq!(decide(a.clone(), Method::Delete, "/nope", "", &missing()), Action::NotFound);
    assert_eq!(decide(a.clone(), Method::Delete, "/a.txt", "", &file(3)), Action::Delete { is_dir: false });
    assert_eq!(decide(a, Method::Delete, "/d", "", &dir()), Action::Delete { is_dir: true });
}

#[test]
fn propfind_and_proppatch_rows() {
    assert_eq!(decide(args(), Method::Propfind, "/d", "", &dir()), Action::PropfindDir);
    assert_eq!(decide(args(), Method::Propfind, "/a.txt", "", &file(3)), Action::PropfindFile);
    assert_eq!(decide(args(), Method::Propfind, "/nope", "", &missing()), Action::NotFound);
    assert_eq!(decide(args(), Method::Proppatch, "/a.txt", "", &file(3)), Action::Proppatch);
    assert_eq!(decide(args(), Method::Proppatch, "/d", "", &dir()), Action::NotFound);
}

#[test]
fn mkcol_rows() {
    let mut a = args();
    assert_eq!(decide(a.clone(), Method::Mkcol, "/new", "", &missing()), Action::Forbidden);
    a.allow_upload = true;
    assert_eq!(decide(a.clone(), Method::Mkcol, "/new", "", &missing()), Action::Mkcol);
    assert_eq!(decide(a.clone(), Method::Mkcol, "/d", "", &dir()), Action::AlreadyExists);
    let s = server(a);
    let req = request(Method::Mkcol, "/d", "");
    let res = s.answer(Action::AlreadyExists, &req, &granted()).unwrap().unwrap();
    assert_eq!(res.status, 405);
    assert_eq!(res.body, Body::Text("Already exists".to_string()));
}

#[test]
fn copy_and_move_rows() {
    let mut a = args();
    assert_eq!(decide(a.clone(), Method::Copy, "/a.txt", "", &file(3)), Action::Forbidden);
    a.allow_upload = true;
    assert_eq!(decide(a.clone(), Method::Copy, "/a.txt", "", &file(3)), Action::Copy);
    assert_eq!(decide(a.clone(), Method::Copy, "/nope", "", &missing()), Action::NotFound);
    assert_eq!(decide(a.clone(), Method::Copy, "/d", "", &dir()), Action::Forbidden);
    assert_eq!(decide(a.clone(), Method::Move, "/a.txt", "", &file(3)), Action::Forbidden);
    a.allow_delete = true;
    assert_eq!(decide(a.clone(), Method::Move, "/a.txt", "", &file(3)), Action::Move);
    assert_eq!(decide(a.clone(), Method::Move, "/nope", "", &missing()), Action::NotFound);
    assert_eq!(decide(a, Method::Move, "/d", "", &dir()), Action::Forbidden);
}

#[test]
fn lock_and_unlock_rows() {
    assert_eq!(decide(args(), Method::Lock, "/a.txt", "", &file(3)), Action::Lock);
    assert_eq!(decide(args(), Method::Lock, "/d", "", &dir()), Action::NotFound);
    assert_eq!(decide(args(), Method::Unlock, "/nope", "", &missing()), Action::NotFound);
    assert_eq!(decide(args(), Method::Unlock, "/a.txt", "", &file(3)), Action::Done);
}

#[test]
fn unknown_methods_are_not_allowed() {
    assert_eq!(decide(args(), Method::Other, "/a.txt", "", &file(3)), Action::MethodNotAllowed);
    let s = server(args());
    let req = request(Method::Other, "/a.txt", "");
    let res = s.answer(Action::MethodNotAllowed, &req, &granted()).unwrap().unwrap();
    assert_eq!(res.status, 405);
    assert_eq!(res.body, Body::Empty);
    assert_eq!(s.answer(Action::SendFile, &req, &granted()), None);
}

#[test]
fn an_index_only_caller_is_dispatched_like_a_reader() {
    let s = server(args());
    let index_only = Guard {
        user: Some("amy".to_string()),
        access: Some(AccessPaths {
            perm: AccessPerm::IndexOnly,
            children: vec!["pub".to_string()],
            leaves: vec!["pub".to_string()],
        }),
        challenge: None,
    };
    let reader = Guard {
        user: Some("amy".to_string()),
        access: Some(AccessPaths::new(AccessPerm::ReadOnly)),
        challenge: None,
    };
    for method in [Method::Get, Method::Propfind] {
        let req = request(method, "/d/", "");
        assert_eq!(s.handle(&req, &index_only, &dir()), s.handle(&req, &reader, &dir()));
    }
    let req = request(Method::Propfind, "/d/", "");
    assert_eq!(s.handle(&req, &index_only, &dir()), Action::PropfindDir);
    assert_eq!(
        dufs::dav::propfind_access(index_only.access.clone().unwrap()),
        AccessPaths::new(AccessPerm::ReadOnly)
    );
    assert_eq!(
        dufs::listing::listing_targets("/srv/data/d", &index_only.access.unwrap()),
        Some(vec!["/srv/data/d/pub".to_string()])
    );
    assert_eq!(dufs::listing::listing_targets("/srv/data/d", &reader.access.unwrap()), None);
}

#[test]
fn method_names() {
    assert_eq!(Method::from_name("GET"), Method::Get);
    assert_eq!(Method::from_name("HEAD"), Method::Head);
    assert_eq!(Method::from_name("OPTIONS"), Method::Options);
    assert_eq!(Method::from_name("PUT"), Method::Put);
    assert_eq!(Method::from_name("DELETE"), Method::Delete);
    assert_eq!(Method::from_name("PROPFIND"), Method::Propfind);
    assert_eq!(Method::from_name("PROPPATCH"), Method::Proppatch);
    assert_eq!(Method::from_name("MKCOL"), Method::Mkcol);
    assert_eq!(Method::from_name("COPY"), Method::Copy);
    assert_eq!(Method::from_name("MOVE"), Method::Move);
    assert_eq!(Method::from_name("LOCK"), Method::Lock);
    assert_eq!(Method::from_name("UNLOCK"), Method::Unlock);
    assert_eq!(Method::from_name("WRITEABLE"), Method::Writeable);
    assert_eq!(Method::from_name("PATCH"), Method::Other);
    assert_eq!(Method::from_name("get"), Method::Other);
    assert!(Method::Head.head_only());
    assert!(!Method::Get.head_only());
}

#[test]
fn query_parameters() {
    let q = Query::parse("sort=name&order=desc&q=a+b%21&simple");
    assert_eq!(q.sort, Some("name".to_string()));
    assert_eq!(q.order, Some("desc".to_string()));
    assert_eq!(q.q, Some("a b!".to_string()));
    assert!(q.simple);
    assert!(!q.json && !q.zip && !q.edit);
    assert_eq!(Query::parse(""), Query::empty());
    let pairs = vec![
        ("sort".to_string(), "name".to_string()),
        ("zip".to_string(), String::new()),
        ("sort".to_string(), "size".to_string()),
    ];
    let q = Query::from_pairs(&pairs);
    assert_eq!(q.sort, Some("size".to_string()));
    assert!(q.zip);
    assert_eq!(q.order, None);
}

#[test]
fn the_end_of_a_request() {
    let mut a = args();
    let s = server(a.clone());
    let mut res = Response::new();
    res.status = 204;
    let (out, log) = s.call("/a.txt", Ok(res.clone()));
    assert_eq!(out, res);
    let log = log.unwrap();
    assert_eq!(log.status, 204);
    assert_eq!(log.error, None);
    let (_, log) = s.call("/__dufs_v0.1.0_index.js", Ok(res.clone()));
    assert!(log.is_none());
    let (out, log) = s.call("/a.txt", Err("disk on fire".to_string()));
    assert_eq!(out.status, 500);
    assert_eq!(out.body, Body::Empty);
    assert!(!out.headers.cors);
    let log = log.unwrap();
    assert_eq!(log.status, 500);
    assert_eq!(log.error, Some("disk on fire".to_string()));
    let (_, log) = s.call("/__dufs_v0.1.0_index.js", Err("gone".to_string()));
    assert_eq!(log.unwrap().status, 500);
    a.enable_cors = true;
    let s = server(a);
    let (out, _) = s.call("/a.txt", Ok(res));
    assert!(out.headers.cors);
    assert_eq!(out.status, 204);
    let (out, _) = s.call("/a.txt", Err("x".to_string()));
    assert!(out.headers.cors);
}

#[test]
fn failures_have_messages() {
    assert_eq!(Failure::NoFileName.message(), "Failed to get file name");
    assert_eq!(Failure::HeaderValue.message(), "failed to parse header value");
    assert_eq!(Failure::OutsideRoot.message(), "prefix not found");
    assert_eq!(Failure::Challenge.message(), "Failed to make the challenge");
    assert_eq!(Failure::InvalidQuery.message(), "invalid q");
}
