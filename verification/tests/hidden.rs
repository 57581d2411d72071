use dufs::handlers::{search_query, zip_entry_name};
use dufs::content::Failure;
use dufs::hidden::{
    archive_step, glob_of, hides_path, is_for_directories, is_hidden, name_matches, search_step,
    starts_with_dot, zip_step, ArchiveStep, WalkEntry, WalkStep,
};
use dufs::request::Query;

fn patterns(list: &[&str]) -> Vec<String> {
    list.iter().map(|s| s.to_string()).collect()
}

fn entry(name: &str, is_dir: bool) -> WalkEntry {
    WalkEntry {
        name: name.to_string(),
        is_dir,
        is_file: !is_dir,
        is_symlink: false,
        link_is_dir: None,
        readable: true,
        is_root: false,
    }
}

#[test]
fn dot_files_are_hidden_on_request() {
    assert!(is_hidden(&[], true, ".git", true));
    assert!(is_hidden(&[], true, ".env", false));
    assert!(!is_hidden(&[], false, ".git", true));
    assert!(!is_hidden(&[], true, "a.txt", false));
    assert!(!is_hidden(&[], true, "", false));
    assert!(starts_with_dot(true, ".x"));
    assert!(!starts_with_dot(false, ".x"));
    assert!(!starts_with_dot(true, "x."));
}

#[test]
fn patterns_hide_names() {
    let hidden = patterns(&["*.bak", "tmp", "cache/", "log?"]);
    assert!(is_hidden(&hidden, false, "a.bak", false));
    assert!(is_hidden(&hidden, false, "a.bak", true));
    assert!(is_hidden(&hidden, false, "tmp", false));
    assert!(is_hidden(&hidden, false, "tmp", true));
    assert!(is_hidden(&hidden, false, "log1", false));
    assert!(!is_hidden(&hidden, false, "log", false));
    assert!(!is_hidden(&hidden, false, "a.txt", false));
    assert!(!is_hidden(&hidden, false, "tmpx", false));
}

#[test]
fn a_pattern_with_a_slash_hides_directories_only() {
    let hidden = patterns(&["cache/"]);
    assert!(is_hidden(&hidden, false, "cache", true));
    assert!(!is_hidden(&hidden, false, "cache", false));
    assert_eq!(glob_of("cache/", true), "cache");
    assert_eq!(glob_of("cache/", false), "cache/");
    assert_eq!(glob_of("cache", true), "cache");
    assert_eq!(glob_of("", true), "");
}

#[test]
fn a_pattern_for_directories_never_hides_a_file() {
    let hidden = patterns(&["**/", "*/", "x*/"]);
    for name in ["a.txt", "x", "xyz", ".env", ""] {
        assert!(!is_hidden(&hidden, false, name, false), "{:?}", name);
    }
    assert!(is_hidden(&hidden, false, "anything", true));
    assert!(is_hidden(&patterns(&["x*/"]), false, "xyz", true));
    assert!(!is_hidden(&patterns(&["x*/"]), false, "abc", true));
    assert!(is_for_directories("cache/"));
    assert!(is_for_directories("/"));
    assert!(!is_for_directories("cache"));
    assert!(!is_for_directories(""));
    assert!(!is_hidden(&[], false, ".git", true));
    let entry_of = entry("a.txt", false);
    assert_eq!(zip_step(&hidden, false, true, &entry_of), WalkStep::Take);
}

#[test]
fn a_broken_pattern_hides_nothing() {
    let hidden = patterns(&["a[", "***"]);
    assert!(!is_hidden(&hidden, false, "a[", false));
    assert!(!is_hidden(&hidden, false, "a", false));
}

#[test]
fn a_search_takes_matching_names() {
    let hidden = patterns(&["*.bak"]);
    assert_eq!(search_step(&hidden, true, true, &entry("Readme.MD", false), "readme"), WalkStep::Take);
    assert_eq!(search_step(&hidden, true, true, &entry("Readme.MD", false), ".md"), WalkStep::Take);
    assert_eq!(search_step(&hidden, true, true, &entry("Readme.MD", false), ""), WalkStep::Take);
    assert_eq!(search_step(&hidden, true, true, &entry("docs", true), "oc"), WalkStep::Take);
    assert_eq!(search_step(&hidden, true, true, &entry("Readme.MD", false), "license"), WalkStep::Skip);
    assert_eq!(search_step(&hidden, true, true, &entry("Readme.MD", false), "README"), WalkStep::Skip);
    assert_eq!(search_step(&hidden, true, true, &entry("ÄRGER", false), "ärger"), WalkStep::Take);
}

#[test]
fn a_walk_stops_when_the_server_does() {
    assert_eq!(search_step(&[], false, false, &entry("a", false), "a"), WalkStep::Stop);
    assert_eq!(zip_step(&[], false, false, &entry("a", false)), WalkStep::Stop);
}

#[test]
fn hidden_names_are_excluded_from_search_and_archive() {
    let hidden = patterns(&["*.bak", "cache/"]);
    for (name, is_dir) in [(".git", true), (".env", false), ("a.bak", false), ("cache", true), ("x.bak", true)] {
        assert!(is_hidden(&hidden, true, name, is_dir));
        let e = entry(name, is_dir);
        let expected = if is_dir { WalkStep::Prune } else { WalkStep::Skip };
        assert_eq!(search_step(&hidden, true, true, &e, ""), expected);
        assert_eq!(zip_step(&hidden, true, true, &e), expected);
    }
}

#[test]
fn links_are_judged_by_a_second_look() {
    let hidden = patterns(&["cache/"]);
    let mut link = entry("cache", false);
    link.is_symlink = true;
    link.is_file = false;
    link.link_is_dir = None;
    assert_eq!(search_step(&hidden, false, true, &link, "c"), WalkStep::Skip);
    assert_eq!(zip_step(&hidden, false, true, &link), WalkStep::Skip);
    link.link_is_dir = Some(true);
    assert_eq!(search_step(&hidden, false, true, &link, "c"), WalkStep::Skip);
    link.link_is_dir = Some(false);
    assert_eq!(search_step(&hidden, false, true, &link, "c"), WalkStep::Take);
    assert_eq!(zip_step(&hidden, false, true, &link), WalkStep::Skip);
}

#[test]
fn no_link_goes_into_an_archive() {
    for link_is_dir in [Some(false), Some(true), None] {
        for is_file in [false, true] {
            for is_root in [false, true] {
                let link = WalkEntry {
                    name: "l".to_string(),
                    is_dir: false,
                    is_file,
                    is_symlink: true,
                    link_is_dir,
                    readable: true,
                    is_root,
                };
                assert_ne!(zip_step(&[], false, true, &link), WalkStep::Take);
            }
        }
    }
}

#[test]
fn an_archive_takes_regular_files() {
    assert_eq!(zip_step(&[], false, true, &entry("a.txt", false)), WalkStep::Take);
    assert_eq!(zip_step(&[], false, true, &entry("d", true)), WalkStep::Skip);
    let mut unreadable = entry("a.txt", false);
    unreadable.readable = false;
    assert_eq!(zip_step(&[], false, true, &unreadable), WalkStep::Skip);
    let mut special = entry("sock", false);
    special.is_file = false;
    assert_eq!(zip_step(&[], false, true, &special), WalkStep::Skip);
}

#[test]
fn archive_names_are_relative_to_the_directory() {
    assert_eq!(zip_entry_name("/srv/data/d/a.txt", "/srv/data"), Some("d/a.txt".to_string()));
    assert_eq!(zip_entry_name("/srv/data/a.txt", "/srv/data/"), Some("a.txt".to_string()));
    assert_eq!(zip_entry_name("/srv/other/a.txt", "/srv/data"), None);
}

#[test]
fn the_search_text_is_lower_case() {
    assert_eq!(search_query(&Query::parse("q=ÄbC")), Ok(Some("äbc".to_string())));
    assert_eq!(search_query(&Query::parse("q=")), Ok(None));
    assert_eq!(search_query(&Query::parse("q")), Ok(None));
    assert_eq!(search_query(&Query::parse("zip")), Err(Failure::InvalidQuery));
    assert!(name_matches("readme.md", "me.m"));
    assert!(name_matches("readme.md", ""));
    assert!(name_matches("", ""));
    assert!(!name_matches("readme.md", "readme.mdx"));
    assert!(!name_matches("", "a"));
}

#[test]
fn the_start_of_a_walk_is_not_held_against_the_hidden_rule() {
    let hidden = patterns(&["*.bak"]);
    let mut root = entry(".data", true);
    root.is_root = true;
    assert_eq!(zip_step(&hidden, true, true, &root), WalkStep::Skip);
    assert_eq!(search_step(&hidden, true, true, &root, "data"), WalkStep::Take);
    let mut file = entry("x.bak", false);
    file.is_root = true;
    assert_eq!(zip_step(&hidden, true, true, &file), WalkStep::Take);
    file.is_root = false;
    assert_eq!(zip_step(&hidden, true, true, &file), WalkStep::Skip);
    assert_eq!(zip_step(&hidden, true, false, &root), WalkStep::Stop);
}

#[test]
fn a_path_is_hidden_by_any_name_on_its_way() {
    let hidden = patterns(&["*.bak", "cache/"]);
    assert!(hides_path(&hidden, true, ".git/config", false));
    assert!(hides_path(&hidden, true, "a/.secret", false));
    assert!(hides_path(&hidden, false, "a/x.bak", false));
    assert!(hides_path(&hidden, false, "cache/x", false));
    assert!(hides_path(&hidden, false, "a/cache", true));
    assert!(!hides_path(&hidden, false, "a/cache", false));
    assert!(!hides_path(&hidden, false, ".git/config", false));
    assert!(!hides_path(&hidden, true, "a/./b", false));
    assert!(!hides_path(&hidden, true, "a/../b", false));
    assert!(!hides_path(&hidden, true, "", true));
    assert!(!hides_path(&hidden, true, "a/b.txt", false));
}

#[test]
fn an_archive_is_closed_only_at_its_end() {
    assert_eq!(archive_step(false, true, 2), ArchiveStep::Write);
    assert_eq!(archive_step(false, true, 0), ArchiveStep::Close);
    assert_eq!(archive_step(true, true, 0), ArchiveStep::Abort);
    assert_eq!(archive_step(true, true, 2), ArchiveStep::Abort);
    assert_eq!(archive_step(false, false, 0), ArchiveStep::Abort);
    assert_eq!(archive_step(false, false, 2), ArchiveStep::Abort);
}
