use dufs::access::{AccessPaths, AccessPerm};
use dufs::cache::FileTime;
use dufs::config::Args;
use dufs::content::Failure;
use dufs::index::{
    byte_length, respond_text, simple_listing, DataKind, EditData, IndexData, IndexOutcome,
};
use dufs::listing::{listing_targets, EntryStat, PathItem, PathType, StatEntry};
use dufs::request::Query;
use dufs::response::{Body, Headers, Response};
use dufs::server::Server;
use dufs::sort::{arrange, descending, reverse_paths, sort_key, sort_paths, SortKey};

fn args() -> Args {
    Args {
        path: "/srv/data".to_string(),
        path_is_file: false,
        path_prefix: "/".to_string(),
        uri_prefix: "/".to_string(),
        hidden: vec![],
        posix_hidden: false,
        auth: false,
        allow_upload: false,
        allow_delete: false,
        allow_search: false,
        allow_symlink: false,
        allow_archive: false,
        enable_cors: false,
        render_index: false,
        render_spa: false,
        render_try_index: false,
        assets_path: None,
    }
}

fn server(args: Args) -> Server {
    Server::init(args, "<p>__ASSERTS_PREFIX__</p><script>__INDEX_DATA__</script>".to_string())
        .unwrap()
}

fn stat(is_dir: bool, size: u64) -> EntryStat {
    EntryStat {
        is_symlink: false,
        is_dir,
        modified: FileTime::Since { secs: 1700000000, nanos: 123_000_000 },
        size,
        canonical: None,
    }
}

fn entry(path: &str, is_dir: bool, size: u64) -> StatEntry {
    StatEntry { path: path.to_string(), stat: Some(stat(is_dir, size)) }
}

fn item(path_type: PathType, name: &str, mtime: u64, size: Option<u64>) -> PathItem {
    PathItem { path_type, name: name.to_string(), mtime, size }
}

fn file(name: &str, mtime: u64, size: u64) -> PathItem {
    item(PathType::File, name, mtime, Some(size))
}

fn dir(name: &str, mtime: u64) -> PathItem {
    item(PathType::Dir, name, mtime, None)
}

fn names(items: &[PathItem]) -> Vec<&str> {
    items.iter().map(|i| i.name.as_str()).collect()
}

#[test]
fn path_items_from_metadata() {
    let s = server(args());
    assert_eq!(
        s.to_pathitem("/srv/data/d/a.txt", "/srv/data", &stat(false, 7)),
        Ok(Some(file("d/a.txt", 1700000000123, 7)))
    );
    assert_eq!(
        s.to_pathitem("/srv/data/d", "/srv/data", &stat(true, 4096)),
        Ok(Some(dir("d", 1700000000123)))
    );
    assert_eq!(
        s.to_pathitem("/srv/data", "/srv/data", &stat(true, 4096)),
        Ok(Some(dir("", 1700000000123)))
    );
    assert_eq!(
        s.to_pathitem("/srv/other/a.txt", "/srv/data", &stat(false, 7)),
        Err(Failure::OutsideRoot)
    );
    let old = EntryStat { modified: FileTime::BeforeEpoch, ..stat(false, 1) };
    assert_eq!(s.to_pathitem("/srv/data/o", "/srv/data", &old), Ok(Some(file("o", 0, 1))));
}

#[test]
fn the_kind_is_the_cross_of_link_and_directory() {
    let mut a = args();
    a.allow_symlink = true;
    let s = server(a);
    let kind = |is_symlink, is_dir| {
        let st = EntryStat { is_symlink, ..stat(is_dir, 1) };
        s.to_pathitem("/srv/data/x", "/srv/data", &st).unwrap().unwrap()
    };
    assert_eq!(kind(false, true), item(PathType::Dir, "x", 1700000000123, None));
    assert_eq!(kind(true, true), item(PathType::SymlinkDir, "x", 1700000000123, None));
    assert_eq!(kind(false, false), item(PathType::File, "x", 1700000000123, Some(1)));
    assert_eq!(kind(true, false), item(PathType::SymlinkFile, "x", 1700000000123, Some(1)));
    assert!(kind(true, true).is_dir());
    assert!(kind(false, true).is_dir());
    assert!(!kind(true, false).is_dir());
    assert!(!kind(false, false).is_dir());
}

#[test]
fn links_out_of_the_root_make_no_entry() {
    let s = server(args());
    let out = EntryStat { is_symlink: true, canonical: Some("/etc/passwd".to_string()), ..stat(false, 1) };
    assert_eq!(s.to_pathitem("/srv/data/l", "/srv/data", &out), Ok(None));
    let unresolved = EntryStat { is_symlink: true, canonical: None, ..stat(false, 1) };
    assert_eq!(s.to_pathitem("/srv/data/l", "/srv/data", &unresolved), Ok(None));
    let inside = EntryStat { is_symlink: true, canonical: Some("/srv/data/a".to_string()), ..stat(false, 1) };
    assert_eq!(
        s.to_pathitem("/srv/data/l", "/srv/data", &inside),
        Ok(Some(item(PathType::SymlinkFile, "l", 1700000000123, Some(1))))
    );
    let plain = EntryStat { canonical: Some("/etc/passwd".to_string()), ..stat(false, 1) };
    assert!(s.to_pathitem("/srv/data/l", "/srv/data", &plain).unwrap().is_some());
    let entries = vec![
        StatEntry { path: "/srv/data/l".to_string(), stat: Some(out.clone()) },
        entry("/srv/data/a.txt", false, 7),
    ];
    assert_eq!(names(&s.list_dir("/srv/data", &entries)), vec!["a.txt"]);
    assert_eq!(names(&s.search_results("/srv/data", &entries)), vec!["a.txt"]);
    let mut a = args();
    a.allow_symlink = true;
    let open = server(a);
    assert!(open.to_pathitem("/srv/data/l", "/srv/data", &out).unwrap().is_some());
}

#[test]
fn a_listing_leaves_out_hidden_and_unreadable_entries() {
    let mut a = args();
    a.posix_hidden = true;
    a.hidden = vec!["*.bak".to_string(), "tmp/".to_string()];
    let s = server(a);
    let entries = vec![
        entry("/srv/data/a.txt", false, 7),
        entry("/srv/data/.git", true, 0),
        entry("/srv/data/b.bak", false, 1),
        entry("/srv/data/tmp", true, 0),
        StatEntry { path: "/srv/data/gone".to_string(), stat: None },
        entry("/srv/data/dir1", true, 0),
        entry("/elsewhere/x", false, 1),
    ];
    let listing = s.list_dir("/srv/data", &entries);
    assert_eq!(listing, vec![file("a.txt", 1700000000123, 7), dir("dir1", 1700000000123)]);
    let mut paths = vec![file("first", 1, 1)];
    s.add_pathitem(&mut paths, "/srv/data", &entries[1]);
    assert_eq!(names(&paths), vec!["first"]);
    s.add_pathitem(&mut paths, "/srv/data", &entries[0]);
    assert_eq!(names(&paths), vec!["first", "a.txt"]);
    let found = s.search_results("/srv/data", &entries);
    assert_eq!(names(&found), vec!["a.txt", ".git", "b.bak", "tmp", "dir1"]);
}

#[test]
fn a_root_with_a_file_and_a_hidden_directory_lists_the_file() {
    let mut a = args();
    a.posix_hidden = true;
    let s = server(a);
    let entries = vec![entry("/srv/data/a.txt", false, 7), entry("/srv/data/.git", true, 0)];
    let outcome = s.handle_ls_dir("/srv/data", true, Some(&entries), &Query::empty(), None).unwrap();
    match outcome {
        IndexOutcome::Page(data) => {
            assert_eq!(data.paths.len(), 1);
            assert_eq!(data.paths[0].name, "a.txt");
            assert_eq!(data.paths[0].size, Some(7));
            assert_eq!(data.href, "/");
            assert_eq!(data.kind, DataKind::Index);
            assert!(data.dir_exists);
        }
        other => panic!("unexpected outcome: {:?}", other),
    }
    let shown = server(args());
    let outcome = shown.handle_ls_dir("/srv/data", true, Some(&entries), &Query::empty(), None).unwrap();
    match outcome {
        IndexOutcome::Page(data) => assert_eq!(names(&data.paths), vec![".git", "a.txt"]),
        other => panic!("unexpected outcome: {:?}", other),
    }
}

#[test]
fn index_only_callers_see_the_named_children() {
    let access = AccessPaths {
        perm: AccessPerm::IndexOnly,
        children: vec!["pub".to_string(), "doc".to_string(), "/bad".to_string()],
        leaves: vec![],
    };
    assert_eq!(
        listing_targets("/srv/data", &access),
        Some(vec!["/srv/data/pub".to_string(), "/srv/data/doc".to_string()])
    );
    assert_eq!(listing_targets("/srv/data", &AccessPaths::new(AccessPerm::ReadWrite)), None);
}

#[test]
fn the_default_order_is_kind_then_name() {
    let items = vec![
        file("b.txt", 1, 1),
        dir("z", 1),
        item(PathType::SymlinkFile, "a", 1, Some(1)),
        file("B.txt", 1, 1),
        item(PathType::SymlinkDir, "a", 1, None),
        dir("a", 2),
        dir("a", 1),
        file("b.txt", 1, 0),
        file("b", 1, 1),
    ];
    let sorted = sort_paths(items, SortKey::Default);
    assert_eq!(
        sorted,
        vec![
            dir("a", 1),
            dir("a", 2),
            dir("z", 1),
            item(PathType::SymlinkDir, "a", 1, None),
            file("b", 1, 1),
            file("B.txt", 1, 1),
            file("b.txt", 1, 0),
            file("b.txt", 1, 1),
            item(PathType::SymlinkFile, "a", 1, Some(1)),
        ]
    );
}

#[test]
fn names_of_one_kind_stand_in_natural_order() {
    let items = vec![file("a10.txt", 1, 1), file("B.txt", 1, 1), file("a2.txt", 1, 1)];
    assert_eq!(
        names(&sort_paths(items.clone(), SortKey::Default)),
        vec!["a2.txt", "a10.txt", "B.txt"]
    );
    let s = server(args());
    let outcome = s.send_index("/srv/data", items, true, &Query::parse("simple"), None).unwrap();
    match outcome {
        IndexOutcome::Ready(res) => {
            assert_eq!(res.body, Body::Text("a2.txt\na10.txt\nB.txt\n".to_string()));
        }
        other => panic!("unexpected outcome: {:?}", other),
    }
    let mixed = vec![file("a1", 1, 1), dir("b10", 1), dir("B9", 1), file("A0", 1, 1), dir("b9", 1)];
    assert_eq!(
        names(&sort_paths(mixed, SortKey::Default)),
        vec!["B9", "b9", "b10", "A0", "a1"]
    );
}

#[test]
fn the_order_by_name_is_natural_and_ignores_case() {
    let items = vec![file("a10", 1, 1), dir("B", 1), file("a2", 1, 1), file("A3", 1, 1), dir("a1", 1)];
    assert_eq!(names(&sort_paths(items, SortKey::Name)), vec!["a1", "a2", "A3", "a10", "B"]);
}

#[test]
fn the_orders_by_time_and_size() {
    let items = vec![file("c", 3, 30), dir("d", 1), file("a", 2, 10), file("b", 2, 20), file("e", 9, 0)];
    assert_eq!(names(&sort_paths(items.clone(), SortKey::Mtime)), vec!["d", "a", "b", "c", "e"]);
    assert_eq!(names(&sort_paths(items.clone(), SortKey::Size)), vec!["d", "e", "a", "b", "c"]);
    assert_eq!(names(&sort_paths(items.clone(), SortKey::Unsorted)), vec!["c", "d", "a", "b", "e"]);
    assert_eq!(names(&reverse_paths(items)), vec!["e", "b", "a", "d", "c"]);
    assert_eq!(sort_paths(vec![], SortKey::Mtime), vec![]);
}

#[test]
fn sorting_keeps_every_entry() {
    let items = vec![file("c", 3, 30), dir("d", 1), file("a", 2, 10), file("a", 2, 10), file("e", 9, 0)];
    for key in [SortKey::Default, SortKey::Name, SortKey::Mtime, SortKey::Size, SortKey::Unsorted] {
        let mut sorted = names(&sort_paths(items.clone(), key)).join(",").into_bytes();
        sorted.sort();
        let mut given = names(&items).join(",").into_bytes();
        given.sort();
        assert_eq!(sorted, given);
    }
}

#[test]
fn the_query_picks_order_and_direction() {
    assert_eq!(sort_key(&Query::parse("")), SortKey::Default);
    assert_eq!(sort_key(&Query::parse("sort=name")), SortKey::Name);
    assert_eq!(sort_key(&Query::parse("sort=mtime")), SortKey::Mtime);
    assert_eq!(sort_key(&Query::parse("sort=size")), SortKey::Size);
    assert_eq!(sort_key(&Query::parse("sort=colour")), SortKey::Unsorted);
    assert!(descending(&Query::parse("sort=name&order=desc")));
    assert!(!descending(&Query::parse("sort=name&order=asc")));
    assert!(!descending(&Query::parse("sort=name")));
    assert!(!descending(&Query::parse("order=desc")));
    let items = vec![file("b", 2, 2), file("a", 1, 1), file("c", 3, 3)];
    assert_eq!(names(&arrange(items.clone(), &Query::parse("sort=size&order=desc"))), vec!["c", "b", "a"]);
    assert_eq!(names(&arrange(items.clone(), &Query::parse("sort=size"))), vec!["a", "b", "c"]);
    assert_eq!(names(&arrange(items.clone(), &Query::parse("sort=x&order=desc"))), vec!["c", "a", "b"]);
    assert_eq!(names(&arrange(items, &Query::parse("order=desc"))), vec!["a", "b", "c"]);
}

#[test]
fn plain_lines() {
    let items = vec![dir("d", 1), file("a.txt", 1, 1), item(PathType::SymlinkDir, "l", 1, None)];
    assert_eq!(simple_listing(&items), "d/\na.txt\nl/\n");
    assert_eq!(simple_listing(&vec![]), "");
    let s = server(args());
    let outcome = s.send_index("/srv/data", items, true, &Query::parse("simple"), None).unwrap();
    let mut headers = Headers::new();
    headers.content_type = Some("text/html; charset=utf-8".to_string());
    headers.content_length = Some(12);
    assert_eq!(
        outcome,
        IndexOutcome::Ready(Response {
            status: 200,
            headers,
            body: Body::Text("d/\nl/\na.txt\n".to_string())
        })
    );
}

#[test]
fn the_record_of_a_listing() {
    let mut a = args();
    a.uri_prefix = "/app/".to_string();
    a.path_prefix = "/app".to_string();
    a.allow_upload = true;
    a.allow_search = true;
    a.auth = true;
    let s = server(a);
    let items = vec![file("d/b", 1, 1), file("d/a", 1, 1)];
    let outcome = s
        .send_index("/srv/data/d", items, true, &Query::empty(), Some("amy".to_string()))
        .unwrap();
    assert_eq!(
        outcome,
        IndexOutcome::Page(IndexData {
            href: "/d".to_string(),
            kind: DataKind::Index,
            uri_prefix: "/app/".to_string(),
            allow_upload: true,
            allow_delete: false,
            allow_search: true,
            allow_archive: false,
            dir_exists: true,
            auth: true,
            user: Some("amy".to_string()),
            paths: vec![file("d/a", 1, 1), file("d/b", 1, 1)],
        })
    );
    assert_eq!(
        s.send_index("/elsewhere", vec![], true, &Query::empty(), None),
        Err(Failure::OutsideRoot)
    );
    assert_eq!(s.href("/srv/data"), Some("/".to_string()));
    assert_eq!(s.href("/srv/data/a/b"), Some("/a/b".to_string()));
    assert_eq!(s.href("/srv"), None);
}

#[test]
fn a_directory_that_cannot_be_read_is_refused() {
    let s = server(args());
    let outcome = s.handle_ls_dir("/srv/data/d", true, None, &Query::empty(), None).unwrap();
    assert_eq!(
        outcome,
        IndexOutcome::Ready(Response {
            status: 403,
            headers: Headers::new(),
            body: Body::Text("Forbidden".to_string())
        })
    );
    let outcome = s.handle_ls_dir("/srv/data/new", false, None, &Query::empty(), None).unwrap();
    match outcome {
        IndexOutcome::Page(data) => {
            assert!(!data.dir_exists);
            assert!(data.paths.is_empty());
            assert_eq!(data.href, "/new");
        }
        other => panic!("unexpected outcome: {:?}", other),
    }
}

#[test]
fn the_page_takes_prefix_and_record() {
    let s = server(args());
    assert_eq!(s.page("{\"a\":1}"), "<p>/__dufs_v0.1.0_</p><script>{\"a\":1}</script>");
    let html = s.render_index(&Query::empty(), "{\"é\":1}", false);
    let mut headers = Headers::new();
    headers.content_type = Some("text/html; charset=utf-8".to_string());
    headers.content_length = Some(47);
    assert_eq!(
        html,
        Response {
            status: 200,
            headers: headers.clone(),
            body: Body::Text("<p>/__dufs_v0.1.0_</p><script>{\"é\":1}</script>".to_string())
        }
    );
    let head = s.render_index(&Query::empty(), "{\"é\":1}", true);
    assert_eq!(head, Response { status: 200, headers, body: Body::Empty });
    let json = s.render_index(&Query::parse("json"), "{\"a\": 1}", false);
    assert_eq!(json.headers.content_type, Some("application/json".to_string()));
    assert_eq!(json.headers.content_length, Some(8));
    assert_eq!(json.body, Body::Text("{\"a\": 1}".to_string()));
    let edit = s.render_edit("{}", false);
    assert_eq!(edit.body, Body::Text("<p>/__dufs_v0.1.0_</p><script>{}</script>".to_string()));
    let twice = Server::init(args(), "__INDEX_DATA____ASSERTS_PREFIX____INDEX_DATA__".to_string()).unwrap();
    assert_eq!(twice.page("x"), "x/__dufs_v0.1.0_x");
}

#[test]
fn the_record_of_a_file_to_edit() {
    let s = server(args());
    let data = s.handle_edit_file("/srv/data/a.txt", 7, b"hello\n", Some("amy".to_string())).unwrap();
    assert_eq!(
        data,
        EditData {
            href: "/a.txt".to_string(),
            kind: DataKind::Edit,
            uri_prefix: "/".to_string(),
            allow_upload: false,
            allow_delete: false,
            auth: false,
            user: Some("amy".to_string()),
            editable: true,
        }
    );
    assert!(s.handle_edit_file("/srv/data/a.txt", 4194304, b"x", None).unwrap().editable);
    assert!(!s.handle_edit_file("/srv/data/a.txt", 4194305, b"x", None).unwrap().editable);
    assert!(!s.handle_edit_file("/srv/data/a.bin", 3, &[0, 1, 2], None).unwrap().editable);
    assert_eq!(s.handle_edit_file("/etc/passwd", 3, b"x", None), Err(Failure::OutsideRoot));
}

#[test]
fn lengths_are_counted_in_bytes() {
    assert_eq!(byte_length(""), 0);
    assert_eq!(byte_length("abc"), 3);
    assert_eq!(byte_length("é你"), 5);
    let res = respond_text("text/plain", "é".to_string(), true);
    assert_eq!(res.headers.content_length, Some(2));
    assert_eq!(res.body, Body::Text("é".to_string()));
}

#[test]
fn base_names() {
    assert_eq!(file("d/e/a.txt", 1, 1).base_name(), "a.txt");
    assert_eq!(file("a.txt", 1, 1).base_name(), "a.txt");
    assert_eq!(dir("d/é/ü", 1).base_name(), "ü");
    assert_eq!(dir("d/", 1).base_name(), "");
    assert_eq!(dir("", 1).base_name(), "");
}
