use dufs::access::{AccessPaths, AccessPerm, Guard};
use dufs::cache::FileTime;
use dufs::config::Args;
use dufs::content::Failure;
use dufs::dav::{
    all_dav_xml, dir_response_of, file_response_of, handle_lock, handle_proppatch, lock_response,
    new_lock_token, propfind_access, propfind_depth,
};
use dufs::listing::{EntryStat, PathItem, PathType, StatEntry};
use dufs::response::{Body, Headers, Response};
use dufs::server::Server;

fn args() -> Args {
    Args {
        path: "/srv/data".to_string(),
        path_is_file: false,
        path_prefix: "/".to_string(),
        uri_prefix: "/".to_string(),
        hidden: vec![],
        posix_hidden: true,
        auth: false,
        allow_upload: true,
        allow_delete: true,
        allow_search: false,
        allow_symlink: false,
        allow_archive: false,
        enable_cors: false,
        render_index: false,
        render_spa: false,
        render_try_index: false,
        assets_path: None,
    }
}

fn server() -> Server {
    Server::init(args(), String::new()).unwrap()
}

fn stat(is_dir: bool, size: u64) -> EntryStat {
    EntryStat {
        is_symlink: false,
        is_dir,
        modified: FileTime::Since { secs: 0, nanos: 0 },
        size,
        canonical: None,
    }
}

fn entry(path: &str, is_dir: bool, size: u64) -> StatEntry {
    StatEntry { path: path.to_string(), stat: Some(stat(is_dir, size)) }
}

const FILE_XML: &str = "<D:response>
<D:href>/d/a%3Cb%26c%3E.txt</D:href>
<D:propstat>
<D:prop>
<D:displayname>a&lt;b&amp;c&gt;.txt</D:displayname>
<D:getcontentlength>7</D:getcontentlength>
<D:getlastmodified>Thu, 1 Jan 1970 00:00:00 +0000</D:getlastmodified>
<D:resourcetype></D:resourcetype>
</D:prop>
<D:status>HTTP/1.1 200 OK</D:status>
</D:propstat>
</D:response>";

const DIR_XML: &str = "<D:response>
<D:href>/p/d%20x/</D:href>
<D:propstat>
<D:prop>
<D:displayname>d x</D:displayname>
<D:getlastmodified>Tue, 14 Nov 2023 22:13:20 +0000</D:getlastmodified>
<D:resourcetype><D:collection/></D:resourcetype>
</D:prop>
<D:status>HTTP/1.1 200 OK</D:status>
</D:propstat>
</D:response>";

fn multistatus(content: &str) -> Response {
    let mut headers = Headers::new();
    headers.content_type = Some("application/xml; charset=utf-8".to_string());
    Response {
        status: 207,
        headers,
        body: Body::Text(format!(
            "<?xml version=\"1.0\" encoding=\"utf-8\" ?>\n<D:multistatus xmlns:D=\"DAV:\">\n{}\n</D:multistatus>",
            content
        )),
    }
}

#[test]
fn the_element_of_a_file() {
    let item = PathItem {
        path_type: PathType::File,
        name: "d/a<b&c>.txt".to_string(),
        mtime: 0,
        size: Some(7),
    };
    assert_eq!(item.to_dav_xml("/"), FILE_XML);
    assert_eq!(item.dav_href_of("/"), "/d/a%3Cb%26c%3E.txt");
    assert_eq!(
        file_response_of("/d/a%3Cb%26c%3E.txt", "a&lt;b&amp;c&gt;.txt", 7, "Thu, 1 Jan 1970 00:00:00 +0000"),
        FILE_XML
    );
}

#[test]
fn the_element_of_a_directory() {
    let item = PathItem { path_type: PathType::Dir, name: "d x".to_string(), mtime: 1700000000123, size: None };
    assert_eq!(item.to_dav_xml("/p/"), DIR_XML);
    assert_eq!(dir_response_of("/p/d%20x/", "d x", "Tue, 14 Nov 2023 22:13:20 +0000"), DIR_XML);
    let root = PathItem { path_type: PathType::Dir, name: String::new(), mtime: 0, size: None };
    assert_eq!(root.dav_href_of("/"), "/");
    assert_eq!(root.dav_href_of("/app/"), "/app/");
    let link = PathItem { path_type: PathType::SymlinkDir, name: "l".to_string(), mtime: 0, size: None };
    assert_eq!(link.dav_href_of("/"), "/l/");
}

#[test]
fn a_time_beyond_the_calendar_has_no_date() {
    let item = PathItem { path_type: PathType::Dir, name: "d".to_string(), mtime: u64::MAX, size: None };
    assert!(item.to_dav_xml("/").contains("<D:getlastmodified></D:getlastmodified>"));
    let last = PathItem { path_type: PathType::Dir, name: "d".to_string(), mtime: 253402300799999, size: None };
    assert!(last
        .to_dav_xml("/")
        .contains("<D:getlastmodified>Fri, 31 Dec 9999 23:59:59 +0000</D:getlastmodified>"));
    let next = PathItem { path_type: PathType::Dir, name: "d".to_string(), mtime: 253402300800000, size: None };
    assert!(next.to_dav_xml("/").contains("<D:getlastmodified></D:getlastmodified>"));
}

#[test]
fn the_depth_is_zero_or_one() {
    assert_eq!(propfind_depth(None), Some(1));
    assert_eq!(propfind_depth(Some("0")), Some(0));
    assert_eq!(propfind_depth(Some("1")), Some(1));
    assert_eq!(propfind_depth(Some("2")), None);
    assert_eq!(propfind_depth(Some("infinity")), None);
    assert_eq!(propfind_depth(Some("")), None);
    assert_eq!(propfind_depth(Some("-1")), None);
}

#[test]
fn a_property_query_on_the_root_lists_the_visible_children() {
    let s = server();
    let entries = vec![
        entry("/srv/data/a.txt", false, 7),
        entry("/srv/data/.git", true, 0),
        entry("/srv/data/dir1", true, 0),
    ];
    let res = s.handle_propfind_dir("/srv/data", Some("1"), &stat(true, 0), Some(&entries)).unwrap();
    assert_eq!(res.status, 207);
    assert_eq!(res.headers.content_type, Some("application/xml; charset=utf-8".to_string()));
    let body = match res.body {
        Body::Text(t) => t,
        other => panic!("unexpected body: {:?}", other),
    };
    assert_eq!(body.matches("<D:response>").count(), 3);
    assert!(body.contains("<D:href>/</D:href>"));
    assert!(body.contains("<D:href>/a.txt</D:href>"));
    assert!(body.contains("<D:href>/dir1/</D:href>"));
    assert!(!body.contains(".git"));
    assert!(body.starts_with("<?xml version=\"1.0\" encoding=\"utf-8\" ?>\n<D:multistatus xmlns:D=\"DAV:\">\n"));
    assert!(body.ends_with("\n</D:multistatus>"));
    let same = s.handle_propfind_dir("/srv/data", None, &stat(true, 0), Some(&entries)).unwrap();
    assert_eq!(same.body, Body::Text(body));
}

#[test]
fn a_property_query_of_depth_zero_shows_the_directory_alone() {
    let s = server();
    let entries = vec![entry("/srv/data/d/a.txt", false, 7)];
    let own = PathItem { path_type: PathType::Dir, name: "d".to_string(), mtime: 0, size: None };
    let res = s.handle_propfind_dir("/srv/data/d", Some("0"), &stat(true, 0), Some(&entries)).unwrap();
    assert_eq!(res, multistatus(&own.to_dav_xml("/")));
    let unread = s.handle_propfind_dir("/srv/data/d", Some("0"), &stat(true, 0), None).unwrap();
    assert_eq!(unread, multistatus(&own.to_dav_xml("/")));
    let child = PathItem { path_type: PathType::File, name: "d/a.txt".to_string(), mtime: 0, size: Some(7) };
    let deep = s.handle_propfind_dir("/srv/data/d", Some("1"), &stat(true, 0), Some(&entries)).unwrap();
    assert_eq!(deep, multistatus(&all_dav_xml(&vec![own, child], "/")));
}

#[test]
fn property_queries_that_are_refused() {
    let s = server();
    let bad = s.handle_propfind_dir("/srv/data/d", Some("2"), &stat(true, 0), None).unwrap();
    assert_eq!(bad, Response { status: 400, headers: Headers::new(), body: Body::Empty });
    let unread = s.handle_propfind_dir("/srv/data/d", Some("1"), &stat(true, 0), None).unwrap();
    assert_eq!(unread.status, 403);
    assert_eq!(unread.body, Body::Text("Forbidden".to_string()));
    assert_eq!(
        s.handle_propfind_dir("/elsewhere", Some("1"), &stat(true, 0), None),
        Err(Failure::OutsideRoot)
    );
}

#[test]
fn a_property_query_on_a_file() {
    let s = server();
    let res = s.handle_propfind_file("/srv/data/a.txt", &stat(false, 7)).unwrap();
    let item = PathItem { path_type: PathType::File, name: "a.txt".to_string(), mtime: 0, size: Some(7) };
    assert_eq!(res, multistatus(&item.to_dav_xml("/")));
    let link = EntryStat { is_symlink: true, canonical: Some("/etc/x".to_string()), ..stat(false, 7) };
    let res = s.handle_propfind_file("/srv/data/l", &link).unwrap();
    assert_eq!(res.status, 404);
    assert_eq!(res.body, Body::Text("Not Found".to_string()));
    assert_eq!(s.handle_propfind_file("/elsewhere", &stat(false, 7)), Err(Failure::OutsideRoot));
}

#[test]
fn a_caller_who_may_only_list_reads_for_property_queries() {
    let access = AccessPaths {
        perm: AccessPerm::IndexOnly,
        children: vec!["pub".to_string()],
        leaves: vec!["pub".to_string()],
    };
    assert_eq!(propfind_access(access), AccessPaths::new(AccessPerm::ReadOnly));
    let writer = AccessPaths::new(AccessPerm::ReadWrite);
    assert_eq!(propfind_access(writer.clone()), writer);
}

#[test]
fn property_updates_are_always_refused() {
    let res = handle_proppatch("/a.txt");
    assert_eq!(
        res,
        multistatus(
            "<D:response>\n<D:href>/a.txt</D:href>\n<D:propstat>\n<D:prop>\n</D:prop>\n<D:status>HTTP/1.1 403 Forbidden</D:status>\n</D:propstat>\n</D:response>"
        )
    );
}

fn is_uuid(text: &str) -> bool {
    text.len() == 36
        && text.chars().enumerate().all(|(i, c)| {
            if i == 8 || i == 13 || i == 18 || i == 23 {
                c == '-'
            } else {
                c.is_ascii_digit() || ('a'..='f').contains(&c)
            }
        })
}

#[test]
fn a_lock_with_credentials_gets_an_opaque_token() {
    let res = handle_lock("/a.txt", true).unwrap();
    assert_eq!(res.status, 200);
    assert_eq!(res.headers.content_type, Some("application/xml; charset=utf-8".to_string()));
    let header = res.headers.lock_token.unwrap();
    assert!(header.starts_with("<opaquelocktoken:") && header.ends_with('>'));
    let token = &header[1..header.len() - 1];
    assert!(is_uuid(&token["opaquelocktoken:".len()..]), "{}", token);
    assert_eq!(res.body, lock_response(token, "/a.txt").unwrap().body);
    let again = handle_lock("/a.txt", true).unwrap();
    assert_ne!(again.headers.lock_token, Some(header));
}

#[test]
fn a_lock_without_credentials_gets_a_number() {
    let res = handle_lock("/a.txt", false).unwrap();
    assert_eq!(res.status, 200);
    let header = res.headers.lock_token.unwrap();
    let token = &header[1..header.len() - 1];
    assert!(!token.is_empty() && token.chars().all(|c| c.is_ascii_digit()), "{}", token);
    assert!(token.parse::<i64>().unwrap() > 1_600_000_000);
    assert!(new_lock_token(false).parse::<i64>().is_ok());
    assert!(is_uuid(&new_lock_token(true)["opaquelocktoken:".len()..]));
}

#[test]
fn the_answer_to_a_lock() {
    let res = lock_response("opaquelocktoken:1-2", "/d/a b").unwrap();
    let mut headers = Headers::new();
    headers.content_type = Some("application/xml; charset=utf-8".to_string());
    headers.lock_token = Some("<opaquelocktoken:1-2>".to_string());
    assert_eq!(
        res,
        Response {
            status: 200,
            headers,
            body: Body::Text(
                "<?xml version=\"1.0\" encoding=\"utf-8\"?>\n<D:prop xmlns:D=\"DAV:\"><D:lockdiscovery><D:activelock>\n<D:locktoken><D:href>opaquelocktoken:1-2</D:href></D:locktoken>\n<D:lockroot><D:href>/d/a b</D:href></D:lockroot>\n</D:activelock></D:lockdiscovery></D:prop>"
                    .to_string()
            )
        }
    );
    assert_eq!(lock_response("a\nb", "/x"), Err(Failure::HeaderValue));
}

#[test]
fn destinations() {
    let s = server();
    let granted = Guard { user: None, access: Some(AccessPaths::new(AccessPerm::ReadWrite)), challenge: None };
    let denied = Guard { user: Some("amy".to_string()), access: None, challenge: None };
    assert_eq!(
        s.destination_relative(Some("http://host:5000/a/b%20c?x=1")),
        Some("a/b c".to_string())
    );
    assert_eq!(s.destination_relative(Some("/a/b/")), Some("a/b".to_string()));
    assert_eq!(s.destination_relative(Some("a b")), None);
    assert_eq!(s.destination_relative(Some("/a%zz")), None);
    assert_eq!(s.destination_relative(None), None);
    assert_eq!(
        s.extract_dest(Some("http://host/d/new%20name.txt"), &granted),
        Ok("/srv/data/d/new name.txt".to_string())
    );
    assert_eq!(s.extract_dest(None, &granted).unwrap_err().status, 400);
    assert_eq!(s.extract_dest(Some("a b"), &granted).unwrap_err().status, 400);
    assert_eq!(s.extract_dest(Some("/a%zz"), &granted).unwrap_err().status, 400);
    assert_eq!(s.extract_dest(Some("/%2Fetc/x"), &granted).unwrap_err().status, 400);
    let refused = s.extract_dest(Some("/d/x"), &denied).unwrap_err();
    assert_eq!(refused.status, 403);
    assert_eq!(refused.body, Body::Text("Forbidden".to_string()));
    assert_eq!(s.resolve_dest(Some("/d/x"), &granted), Ok("/srv/data/d/x".to_string()));
    assert_eq!(s.handle_move(Some("/d/x"), &granted, false), Ok("/srv/data/d/x".to_string()));
    assert_eq!(s.handle_move(Some("/d/x"), &granted, true).unwrap_err().status, 403);
    assert_eq!(s.handle_move(Some("a b"), &granted, true).unwrap_err().status, 400);
    assert_eq!(s.extract_dest(Some("/../x"), &granted).unwrap_err().status, 400);
    assert_eq!(s.handle_copy(Some("/d/x"), &granted, false), Ok("/srv/data/d/x".to_string()));
    assert_eq!(s.handle_copy(Some("/d/x"), &granted, true).unwrap_err().status, 403);
    assert_eq!(s.handle_copy(Some("a b"), &granted, true).unwrap_err().status, 400);
}
