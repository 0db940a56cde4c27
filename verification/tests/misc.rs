use atxpkg::archive::{unzip_to, ArchiveEntry, ExtractStep};
use atxpkg::cache::{
    accepts_byte_ranges, cache_names, download_package_if_needed, range_header, FetchAction,
    FetchEvent, FetchState,
};
use atxpkg::digest::{digest_text, get_md5_sum};
use atxpkg::fsops::{
    move_file, tombstone_name, try_delete, DeleteAction, DeleteEvent, DeleteState, MoveStep,
    PathKind, RenameResult,
};
use atxpkg::lines::read_lines;
use atxpkg::listing::{extract_links, get_repo_listing_dir, get_repo_listing_http};
use atxpkg::model::{InstalledDb, InstalledPackage, Manifest, PkgError};
use atxpkg::orchestrate::{describe, repo_list, requests_or_all, split_names};
use atxpkg::paths::{as_unix_path, first_component, hidden, leads_nowhere, path_length, with_suffix};
use atxpkg::prompt::{confirmed, needs_reply, read_reply, yes_no, Reply};
use atxpkg::table::NameMap;

fn strings(v: &[&str]) -> Vec<String> {
    v.iter().map(|s| s.to_string()).collect()
}

#[test]
fn md5_of_known_texts() {
    assert_eq!(get_md5_sum(b""), "d41d8cd98f00b204e9800998ecf8427e");
    assert_eq!(get_md5_sum(b"abc"), "900150983cd24fb0d6963f7d28e17f72");
    assert_eq!(
        get_md5_sum(b"The quick brown fox jumps over the lazy dog"),
        "9e107d9d372bb6826bd81d3542a419d6"
    );
    assert_ne!(get_md5_sum(b"x\n"), get_md5_sum(b"2\n"));
}

#[test]
fn digests_are_written_in_lower_case_hexadecimal() {
    assert_eq!(digest_text(&vec![0x00, 0xff, 0x1a, 0xa1, 0x09, 0x90]), "00ff1aa10990");
    assert_eq!(digest_text(&vec![]), "");
}

#[test]
fn fetch_of_a_local_file_uses_it() {
    let step = download_package_if_needed("/repo/test-1.0-1.atxpkg.zip", FetchState::Start, FetchEvent::Begin);
    assert_eq!(step, (FetchState::Done, FetchAction::UseLocal));
}

#[test]
fn fetch_of_a_cached_archive_needs_no_network() {
    let url = "http://h/test-1.0-1.atxpkg.zip";
    let (state, action) = download_package_if_needed(url, FetchState::Start, FetchEvent::Begin);
    assert_eq!(action, FetchAction::CheckCached);
    let (state, action) = download_package_if_needed(url, state, FetchEvent::Cached { present: true });
    assert_eq!((state, action), (FetchState::Done, FetchAction::UseCached));
}

#[test]
fn fetch_resumes_where_the_server_serves_ranges() {
    let url = "https://h/test-1.0-1.atxpkg.zip";
    let (s, a) = download_package_if_needed(url, FetchState::Start, FetchEvent::Begin);
    assert_eq!(a, FetchAction::CheckCached);
    let (s, a) = download_package_if_needed(url, s, FetchEvent::Cached { present: false });
    assert_eq!(a, FetchAction::CheckPartial);
    let (s, a) = download_package_if_needed(url, s, FetchEvent::Partial { length: Some(1234) });
    assert_eq!(a, FetchAction::Probe);
    let (s, a) = download_package_if_needed(url, s, FetchEvent::Probed { success: true, accepts_ranges: true });
    assert_eq!(a, FetchAction::Get { resume_from: 1234 });
    let (s, a) = download_package_if_needed(url, s, FetchEvent::Response { success: true });
    assert_eq!(a, FetchAction::Store { append: true });
    let (s, a) = download_package_if_needed(url, s, FetchEvent::Stored);
    assert_eq!((s, a), (FetchState::Done, FetchAction::UseCached));
}

#[test]
fn fetch_starts_over_without_ranges() {
    let url = "http://h/test-1.0-1.atxpkg.zip";
    let s = FetchState::AwaitProbe { partial: 1234 };
    for (success, accepts_ranges) in [(true, false), (false, true), (false, false)] {
        let (s, a) = download_package_if_needed(url, s, FetchEvent::Probed { success, accepts_ranges });
        assert_eq!(a, FetchAction::Get { resume_from: 0 });
        let (_, a) = download_package_if_needed(url, s, FetchEvent::Response { success: true });
        assert_eq!(a, FetchAction::Store { append: false });
    }
    let (s, a) = download_package_if_needed(url, FetchState::AwaitPartial, FetchEvent::Partial { length: None });
    assert_eq!((s, a), (FetchState::AwaitResponse { resume_from: 0 }, FetchAction::Get { resume_from: 0 }));
    let (s, a) = download_package_if_needed(url, FetchState::AwaitPartial, FetchEvent::Partial { length: Some(0) });
    assert_eq!(a, FetchAction::Probe);
    let (_, a) = download_package_if_needed(url, s, FetchEvent::Probed { success: true, accepts_ranges: true });
    assert_eq!(a, FetchAction::Get { resume_from: 0 });
}

#[test]
fn fetch_fails_on_a_refusal_and_on_a_wrong_report() {
    let url = "http://h/test-1.0-1.atxpkg.zip";
    let (s, a) = download_package_if_needed(
        url,
        FetchState::AwaitResponse { resume_from: 0 },
        FetchEvent::Response { success: false },
    );
    assert_eq!((s, a), (FetchState::Failed, FetchAction::Fail { error: PkgError::DownloadFailed }));
    let (s, a) = download_package_if_needed(url, FetchState::Done, FetchEvent::Stored);
    assert_eq!((s, a), (FetchState::Failed, FetchAction::Fail { error: PkgError::Io }));
}

#[test]
fn cache_file_names_and_ranges() {
    assert_eq!(
        cache_names("http://h/repo/test-1.0-1.atxpkg.zip", "/tmp/atxpkg/cache"),
        (
            "/tmp/atxpkg/cache/test-1.0-1.atxpkg.zip".to_string(),
            "/tmp/atxpkg/cache/test-1.0-1.atxpkg.zip_".to_string()
        )
    );
    assert_eq!(range_header(0), None);
    assert_eq!(range_header(1234), Some("bytes=1234-".to_string()));
    assert_eq!(range_header(u64::MAX), Some("bytes=18446744073709551615-".to_string()));
    assert!(accepts_byte_ranges(Some("bytes")));
    assert!(!accepts_byte_ranges(Some("none")));
    assert!(!accepts_byte_ranges(Some("Bytes")));
    assert!(!accepts_byte_ranges(None));
}

#[test]
fn delete_of_nothing_and_of_a_directory() {
    let (s, a) = try_delete(DeleteState::Start, DeleteEvent::Begin);
    assert_eq!(a, DeleteAction::LookAtPath);
    assert_eq!(
        try_delete(s, DeleteEvent::Kind { kind: PathKind::Nothing }),
        (DeleteState::Done, DeleteAction::Finish)
    );
    assert_eq!(
        try_delete(s, DeleteEvent::Kind { kind: PathKind::Other }),
        (DeleteState::Failed, DeleteAction::Fail { error: PkgError::Io })
    );
}

#[test]
fn delete_of_a_file_goes_through_its_tombstone() {
    let (s, _) = try_delete(DeleteState::Start, DeleteEvent::Begin);
    let (s, a) = try_delete(s, DeleteEvent::Kind { kind: PathKind::File });
    assert_eq!(a, DeleteAction::LookAtTombstone { attempt: 0 });
    let (s, a) = try_delete(s, DeleteEvent::Tombstone { exists: true });
    assert_eq!(a, DeleteAction::ClearTombstone { attempt: 0 });
    let (s, a) = try_delete(s, DeleteEvent::Cleared { ok: false });
    assert_eq!(a, DeleteAction::LookAtTombstone { attempt: 1 });
    let (s, a) = try_delete(s, DeleteEvent::Tombstone { exists: true });
    assert_eq!(a, DeleteAction::ClearTombstone { attempt: 1 });
    let (s, a) = try_delete(s, DeleteEvent::Cleared { ok: true });
    assert_eq!(a, DeleteAction::Rename { attempt: 1 });
    let (s, a) = try_delete(s, DeleteEvent::Renamed { ok: true });
    assert_eq!(a, DeleteAction::Unlink { attempt: 1 });
    assert_eq!(try_delete(s, DeleteEvent::Unlinked { ok: false }), (DeleteState::Done, DeleteAction::Finish));

    let (s, a) = try_delete(DeleteState::AwaitTombstone { attempt: 0 }, DeleteEvent::Tombstone { exists: false });
    assert_eq!(a, DeleteAction::Rename { attempt: 0 });
    assert_eq!(
        try_delete(s, DeleteEvent::Renamed { ok: false }),
        (DeleteState::Failed, DeleteAction::Fail { error: PkgError::Io })
    );
    assert_eq!(
        try_delete(DeleteState::AwaitCleared { attempt: usize::MAX }, DeleteEvent::Cleared { ok: false }),
        (DeleteState::Failed, DeleteAction::Fail { error: PkgError::Io })
    );
}

#[test]
fn tombstone_names_and_moves() {
    assert_eq!(tombstone_name("a/b", 0), "a/b.atxpkg_delete");
    assert_eq!(tombstone_name("a/b", 2), "a/b.atxpkg_delete_delete_delete");
    assert_eq!(move_file(RenameResult::Done), MoveStep::Finish);
    assert_eq!(move_file(RenameResult::Unsupported), MoveStep::CopyThenDelete);
    assert_eq!(move_file(RenameResult::Refused), MoveStep::Fail { error: PkgError::Io });
}

#[test]
fn replies() {
    assert_eq!(read_reply("y\n", "n"), Reply::Yes);
    assert_eq!(read_reply("  YES \r\n", ""), Reply::Yes);
    assert_eq!(read_reply("No", "y"), Reply::No);
    assert_eq!(read_reply("n", "y"), Reply::No);
    assert_eq!(read_reply("\n", "y"), Reply::Yes);
    assert_eq!(read_reply("   ", "n"), Reply::No);
    assert_eq!(read_reply("", ""), Reply::Again);
    assert_eq!(read_reply("\n", "x"), Reply::Again);
    assert_eq!(read_reply("maybe", "y"), Reply::Invalid);
    assert_eq!(read_reply("ye", "y"), Reply::Invalid);
    assert_eq!(read_reply("y es", "y"), Reply::Invalid);
    assert_eq!(yes_no("continue?", "y"), "continue? [Y/n] ");
    assert_eq!(yes_no("continue?", "n"), "continue? [y/N] ");
    assert_eq!(yes_no("continue?", ""), "continue? [y/n] ");
}

#[test]
fn confirmation() {
    assert!(needs_reply(false, false));
    assert!(!needs_reply(true, false));
    assert!(!needs_reply(false, true));
    assert!(!needs_reply(true, true));
    assert!(confirmed(true, false, false));
    assert!(confirmed(false, false, true));
    assert!(!confirmed(false, false, false));
    assert!(!confirmed(true, true, true));
    assert!(!confirmed(false, true, true));
}

#[test]
fn extraction_steps() {
    let entries = vec![
        ArchiveEntry { name: "test/".to_string(), unix_mode: Some(0o40755), modified: Some(1_600_000_000) },
        ArchiveEntry { name: "test/file".to_string(), unix_mode: None, modified: None },
        ArchiveEntry { name: ".atxpkg_backup".to_string(), unix_mode: Some(0o100644), modified: Some(5) },
        ArchiveEntry { name: "".to_string(), unix_mode: None, modified: None },
    ];
    assert_eq!(
        unzip_to(&entries),
        vec![
            ExtractStep { name: "test/".to_string(), is_dir: true, mode: 0o40755, modified: Some(1_600_000_000) },
            ExtractStep { name: "test/file".to_string(), is_dir: false, mode: 0o755, modified: None },
            ExtractStep { name: ".atxpkg_backup".to_string(), is_dir: false, mode: 0o100644, modified: Some(5) },
            ExtractStep { name: "".to_string(), is_dir: false, mode: 0o755, modified: None },
        ]
    );
    assert_eq!(unzip_to(&vec![]), vec![]);
}

#[test]
fn lines_of_a_list() {
    assert_eq!(
        read_lines("test/protected1\n  test/protected2  \n\n# comment\n\t#also\r\ntest/protected3"),
        strings(&["test/protected1", "test/protected2", "test/protected3"])
    );
    assert_eq!(read_lines(""), Vec::<String>::new());
    assert_eq!(read_lines("\n\n"), Vec::<String>::new());
    assert_eq!(read_lines("a # b\n"), strings(&["a # b"]));
    assert_eq!(read_lines("\u{a0}x\u{3000}\n"), strings(&["x"]));
}

#[test]
fn links_of_a_page() {
    let body = "<html><a href=\"test-1.0-1.atxpkg.zip\">one</a>\n<a HREF=\"no\">x</a>\
<a href = 'sub/test-2.0-1.atxpkg.zip'>two</a><a href=plain.txt>p</a><a href=\"\">e</a>\
<a href=last-1-1.atxpkg.zip";
    assert_eq!(
        extract_links(body),
        strings(&["test-1.0-1.atxpkg.zip", "sub/test-2.0-1.atxpkg.zip", "plain.txt", "last-1-1.atxpkg.zip"])
    );
    assert_eq!(
        get_repo_listing_http("http://host/repo", body),
        strings(&[
            "http://host/repo/test-1.0-1.atxpkg.zip",
            "http://host/repo/sub/test-2.0-1.atxpkg.zip",
            "http://host/repo/last-1-1.atxpkg.zip"
        ])
    );
    assert_eq!(extract_links("href"), Vec::<String>::new());
    assert_eq!(extract_links("href=>"), Vec::<String>::new());
    assert_eq!(extract_links("hrefhref=a\"b"), strings(&["a"]));
    assert_eq!(extract_links("href=\"a b\""), strings(&["a"]));
}

#[test]
fn archives_of_a_directory() {
    let found = vec![
        ("repo".to_string(), true),
        ("repo/test-1.0-1.atxpkg.zip".to_string(), false),
        ("repo/dir.atxpkg.zip".to_string(), true),
        ("repo/readme.txt".to_string(), false),
        ("repo/sub/atxpkg-1.5-3.atxpkg.zip".to_string(), false),
    ];
    assert_eq!(
        get_repo_listing_dir(&found),
        strings(&["repo/test-1.0-1.atxpkg.zip", "repo/sub/atxpkg-1.5-3.atxpkg.zip"])
    );
}

#[test]
fn command_line_helpers() {
    assert_eq!(
        repo_list("/tmp/atxpkg/cache", Some("# repos\nhttp://a/repo\n\n /srv/repo \n")),
        strings(&["/tmp/atxpkg/cache", "http://a/repo", "/srv/repo"])
    );
    assert_eq!(repo_list("/c", None), strings(&["/c"]));
    assert_eq!(split_names("a,b-1.0-1,,c"), strings(&["a", "b-1.0-1", "", "c"]));
    assert_eq!(split_names(""), strings(&[""]));
    assert_eq!(split_names("one"), strings(&["one"]));
    assert_eq!(describe("test", "1.0-1"), "test-1.0-1");
    assert_eq!(describe("test", ""), "test");

    let mut installed = InstalledDb::new();
    for name in ["zeta", "alpha", "mid", "Beta"] {
        installed.insert(
            name.to_string(),
            InstalledPackage { t: None, version: "1-1".to_string(), md5sums: Manifest::new(), backup: None },
        );
    }
    assert_eq!(requests_or_all(vec![], &installed), strings(&["Beta", "alpha", "mid", "zeta"]));
    assert_eq!(requests_or_all(strings(&["zeta", "a"]), &installed), strings(&["zeta", "a"]));
}

#[test]
fn path_helpers() {
    assert_eq!(as_unix_path(&strings(&["a", "b", "c"]), false), "a/b/c");
    assert_eq!(as_unix_path(&strings(&["a"]), false), "a");
    assert_eq!(as_unix_path(&strings(&[]), false), "");
    assert_eq!(as_unix_path(&strings(&["tmp", "x"]), true), "/tmp/x");
    assert!(hidden(".atxpkg_backup"));
    assert!(hidden(".atxpkg_x/file"));
    assert!(!hidden("dir/.atxpkg_backup"));
    assert!(!hidden(".atxpkg"));
    assert_eq!(with_suffix("a/b", ".atxpkg_new"), "a/b.atxpkg_new");
    assert_eq!(first_component("a/b/c"), "a");
    assert_eq!(first_component("file"), "file");
    assert_eq!(first_component("/x"), "");
    assert!(leads_nowhere(""));
    assert!(leads_nowhere("."));
    assert!(leads_nowhere("./"));
    assert!(leads_nowhere("/./."));
    assert!(!leads_nowhere(".."));
    assert!(!leads_nowhere("a"));
    assert!(!leads_nowhere("./a"));
    assert_eq!(path_length(&"é/x".to_string()), 4);
}

#[test]
fn name_map_keeps_insertion_order() {
    let mut m: NameMap<u32> = NameMap::new();
    assert!(m.is_empty());
    m.insert("b".to_string(), 1);
    m.insert("a".to_string(), 2);
    m.insert("c".to_string(), 3);
    m.insert("a".to_string(), 4);
    assert_eq!(m.len(), 3);
    assert_eq!(m.get("a"), Some(&4));
    assert_eq!(m.get("z"), None);
    assert_eq!(m.index_of("c"), Some(2));
    assert_eq!(m.key_at(1), "a");
    assert_eq!(*m.value_at(0), 1);
    assert!(m.contains_key("b"));
    assert_eq!(m.remove("b"), Some(1));
    assert_eq!(m.remove("b"), None);
    assert_eq!(m.entries, vec![("a".to_string(), 4), ("c".to_string(), 3)]);
}
