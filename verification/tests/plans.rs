use atxpkg::check::{check_package, check_packages, Finding, FindingKind};
use atxpkg::digest::get_md5_sum;
use atxpkg::install::{install_package, record_install};
use atxpkg::model::{InstalledDb, InstalledPackage, Manifest, PkgError, Timestamp};
use atxpkg::plan::FileAction;
use atxpkg::remove::{record_remove, remove_package};
use atxpkg::replace::update_package;
use atxpkg::untracked::{get_untracked, untracked_roots};
use atxpkg::walk::{get_recursive_listing, Found};
use std::collections::BTreeMap;

type Disk = BTreeMap<String, Option<String>>;

const NOW: Timestamp = Timestamp { secs: 1_700_000_000, nanos: 0 };

fn digest(content: &str) -> String {
    get_md5_sum(content.as_bytes())
}

fn staged(entries: &[(&str, Option<&str>)]) -> Manifest {
    let mut m = Manifest::new();
    for (path, content) in entries {
        m.insert(path.to_string(), content.map(digest));
    }
    m
}

fn observe(disk: &Disk, paths: &[String]) -> Manifest {
    let mut m = Manifest::new();
    for p in paths {
        if let Some(found) = disk.get(p) {
            m.insert(p.clone(), found.clone());
        }
    }
    m
}

fn keys(m: &Manifest) -> Vec<String> {
    m.entries.iter().map(|e| e.0.clone()).collect()
}

fn apply(disk: &mut Disk, actions: &[FileAction], staged: &Manifest) {
    for a in actions {
        match a {
            FileAction::MakeDir { path } => {
                disk.entry(path.clone()).or_insert(None);
            }
            FileAction::Move { from, to } => {
                if let Some(v) = disk.remove(from) {
                    disk.insert(to.clone(), v);
                }
            }
            FileAction::Place { staged: source, to } => {
                disk.insert(to.clone(), staged.get(source).unwrap().clone());
            }
            FileAction::Delete { path } => {
                disk.remove(path);
            }
            FileAction::RemoveDir { path } => {
                let below = format!("{path}/");
                if disk.get(path) == Some(&None) && !disk.keys().any(|k| k.starts_with(&below)) {
                    disk.remove(path);
                }
            }
            FileAction::Missing { .. } => {}
        }
    }
}

fn write(disk: &mut Disk, path: &str, content: &str) {
    disk.insert(path.to_string(), Some(digest(content)));
}

fn backup_list() -> Option<Vec<String>> {
    Some(vec![
        "test/protected1".to_string(),
        "test/protected2".to_string(),
        "test/protected3".to_string(),
    ])
}

fn test_1_0() -> Manifest {
    staged(&[
        (".atxpkg_backup", Some("test/protected1\ntest/protected2\ntest/protected3\n")),
        ("test", None),
        ("test/protected1", Some("1\n")),
        ("test/protected2", Some("1\n")),
        ("test/protected3", Some("1\n")),
        ("test/unprotected", Some("1\n")),
        ("test/unprotected2", Some("1\n")),
    ])
}

fn test_2_0() -> Manifest {
    staged(&[
        (".atxpkg_backup", Some("test/protected1\ntest/protected2\ntest/protected3\n")),
        ("test", None),
        ("test/new", Some("2\n")),
        ("test/protected1", Some("2\n")),
        ("test/protected2", Some("2\n")),
        ("test/protected3", Some("2\n")),
        ("test/unprotected", Some("2\n")),
        ("test/unprotected2", Some("2\n")),
    ])
}

fn atx300_base() -> Manifest {
    let mut entries: Vec<(String, Option<&str>)> = vec![
        (".atxpkg_backup".to_string(), Some("atx300/atx300.ini\n")),
        ("atx300".to_string(), None),
        ("atx300/memsh.mem".to_string(), Some("mem")),
        ("atx300/atx300.ini".to_string(), Some("ini")),
    ];
    for i in 0..40 {
        entries.push((format!("atx300/file{i}"), Some("data")));
    }
    let mut m = Manifest::new();
    for (path, content) in entries {
        m.insert(path, content.map(digest));
    }
    m
}

fn install(disk: &mut Disk, fn_zip: &str, archive: &Manifest, backup: Option<Vec<String>>, force: bool) -> Result<InstalledPackage, PkgError> {
    let observed = observe(disk, &keys(archive));
    let plan = install_package(fn_zip, archive, backup, &observed, force, NOW)?;
    apply(disk, &plan.actions, archive);
    Ok(plan.record)
}

fn update(disk: &mut Disk, fn_zip: &str, old: &InstalledPackage, archive: &Manifest, backup: Option<Vec<String>>, force: bool) -> Result<InstalledPackage, PkgError> {
    let mut paths = keys(archive);
    paths.extend(keys(&old.md5sums));
    let observed = observe(disk, &paths);
    let plan = update_package(fn_zip, old, archive, backup, &observed, force, NOW)?;
    apply(disk, &plan.actions, archive);
    Ok(plan.record)
}

fn remove(disk: &mut Disk, old: &InstalledPackage) -> Result<(), PkgError> {
    let observed = observe(disk, &keys(&old.md5sums));
    let plan = remove_package(old, &observed)?;
    apply(disk, &plan.actions, &Manifest::new());
    Ok(())
}

#[test]
fn test_get_recursive_listing() {
    let walked = vec![
        Found { components: vec![], is_dir: true },
        Found { components: vec!["test".to_string()], is_dir: true },
        Found { components: vec!["test".to_string(), "new".to_string()], is_dir: false },
    ];
    let (dirs, files) = get_recursive_listing(&walked);
    assert_eq!(dirs, vec!["test"]);
    assert_eq!(files, vec!["test/new"]);
}

#[test]
fn test_install_package() {
    let mut disk = Disk::new();
    let archive = atx300_base();
    let pkginfo = install(
        &mut disk,
        "./test_data/atx300-base-6.3-1.atxpkg.zip",
        &archive,
        Some(vec!["atx300/atx300.ini".to_string()]),
        false,
    )
    .unwrap();

    assert_eq!(pkginfo.version, "6.3-1");
    assert!(disk.contains_key("atx300/memsh.mem"));
    assert!(!disk.contains_key("atx300/.atxpkg_backup"));
    assert!(!disk.contains_key(".atxpkg_backup"));
    assert_eq!(pkginfo.md5sums.len(), 43);
    assert_eq!(pkginfo.t, Some(NOW));
    assert_eq!(pkginfo.md5sums.get("atx300"), Some(&None));
    assert_eq!(pkginfo.md5sums.get("atx300/memsh.mem"), Some(&Some(digest("mem"))));
    assert_eq!(pkginfo.md5sums.get(".atxpkg_backup"), None);
}

#[test]
fn test_install_update_package_with_conflict() {
    let mut disk = Disk::new();
    let pkginfo =
        install(&mut disk, "./test_data/test-1.0-1.atxpkg.zip", &test_1_0(), backup_list(), false)
            .unwrap();
    assert_eq!(pkginfo.version, "1.0-1");

    write(&mut disk, "test/new", "x\n");

    let archive = test_2_0();
    let pkginfo =
        update(&mut disk, "./test_data/test-2.0-1.atxpkg.zip", &pkginfo, &archive, backup_list(), false);
    assert!(pkginfo.is_err());
    assert_eq!(pkginfo, Err(PkgError::ForeignFile { file: 2 }));
    assert_eq!(disk.get("test/new"), Some(&Some(digest("x\n"))));
}

#[test]
fn test_install_update_package_with_backup() {
    let mut disk = Disk::new();
    let pkginfo =
        install(&mut disk, "./test_data/test-1.0-1.atxpkg.zip", &test_1_0(), backup_list(), false)
            .unwrap();
    assert_eq!(pkginfo.version, "1.0-1");

    write(&mut disk, "test/protected1", "x\n");
    write(&mut disk, "test/protected2", "2\n");
    write(&mut disk, "test/unprotected2", "2\n");

    let mut old = pkginfo.clone();
    old.md5sums.remove("test/new");
    let archive = staged(&[
        (".atxpkg_backup", Some("test/protected1\ntest/protected2\ntest/protected3\n")),
        ("test", None),
        ("test/protected1", Some("2\n")),
        ("test/protected2", Some("2\n")),
        ("test/protected3", Some("2\n")),
        ("test/unprotected", Some("2\n")),
        ("test/unprotected2", Some("2\n")),
    ]);
    let pkginfo =
        update(&mut disk, "./test_data/test-2.0-1.atxpkg.zip", &old, &archive, backup_list(), false)
            .unwrap();

    assert_eq!(pkginfo.version, "2.0-1");

    assert!(disk.contains_key("test/protected1.atxpkg_new"));
    assert!(!disk.contains_key("test/protected2.atxpkg_new"));
    assert!(!disk.contains_key("test/protected3.atxpkg_new"));
    assert!(!disk.contains_key("test/unprotected.atxpkg_new"));
    assert_eq!(disk.get("test/protected1"), Some(&Some(digest("x\n"))));
    assert_eq!(disk.get("test/protected1.atxpkg_new"), Some(&Some(digest("2\n"))));
    assert_eq!(disk.get("test/protected2"), Some(&Some(digest("2\n"))));
    assert_eq!(disk.get("test/protected3"), Some(&Some(digest("2\n"))));
    assert_eq!(disk.get("test/unprotected"), Some(&Some(digest("2\n"))));
}

#[test]
fn test_install_remove_with_backup() {
    let mut disk = Disk::new();
    let pkginfo =
        install(&mut disk, "./test_data/test-1.0-1.atxpkg.zip", &test_1_0(), backup_list(), false)
            .unwrap();
    assert_eq!(pkginfo.version, "1.0-1");

    write(&mut disk, "test/protected1", "x\n");
    write(&mut disk, "test/protected2", "2\n");
    write(&mut disk, "test/unprotected2", "2\n");

    remove(&mut disk, &pkginfo).unwrap();

    assert!(disk.contains_key("test/protected1.atxpkg_backup"));
    assert!(disk.contains_key("test/protected2.atxpkg_backup"));
    assert!(!disk.contains_key("test/protected3.atxpkg_backup"));
    assert!(!disk.contains_key("test/unprotected.atxpkg_backup"));
    assert!(!disk.contains_key("test/protected1"));
    assert!(!disk.contains_key("test/unprotected2"));
    assert!(disk.contains_key("test"));
}

#[test]
fn test_get_untracked() {
    let mut disk = Disk::new();
    let pkginfo =
        install(&mut disk, "./test_data/test-1.0-1.atxpkg.zip", &test_1_0(), backup_list(), false)
            .unwrap();
    let mut installed_packages = InstalledDb::new();
    installed_packages.insert("test".to_string(), pkginfo);

    let files = vec![
        "protected1".to_string(),
        "protected2".to_string(),
        "protected3".to_string(),
        "unprotected".to_string(),
        "unprotected2".to_string(),
    ];
    let untracked = get_untracked("test", &vec![], &files, &installed_packages);
    assert!(untracked.is_empty());

    let mut more = files.clone();
    more.insert(0, "extra_file".to_string());
    let untracked = get_untracked("test", &vec![], &more, &installed_packages);
    assert_eq!(untracked, vec!["test/extra_file".to_string()]);
}

#[test]
fn test_update_package() {
    let mut disk = Disk::new();
    let archive = atx300_base();
    let old = InstalledPackage {
        t: None,
        version: "6.3-1".to_string(),
        md5sums: Manifest::new(),
        backup: Some(Vec::new()),
    };
    let pkginfo = update(
        &mut disk,
        "./test_data/atx300-base-6.3-1.atxpkg.zip",
        &old,
        &archive,
        Some(vec!["atx300/atx300.ini".to_string()]),
        false,
    )
    .unwrap();

    assert_eq!(pkginfo.version, "6.3-1");
    assert!(disk.contains_key("atx300/memsh.mem"));
    assert!(!disk.contains_key("atx300/.atxpkg_backup"));
}

#[test]
fn install_refuses_existing_file_unless_forced() {
    let mut disk = Disk::new();
    write(&mut disk, "test/unprotected", "mine\n");
    let archive = test_1_0();
    let r = install(&mut disk, "test-1.0-1.atxpkg.zip", &archive, backup_list(), false);
    assert_eq!(r, Err(PkgError::FileExists { file: 5 }));
    assert_eq!(disk.len(), 1);

    write(&mut disk, "test/protected1", "mine\n");
    let r = install(&mut disk, "test-1.0-1.atxpkg.zip", &archive, backup_list(), true).unwrap();
    assert_eq!(r.version, "1.0-1");
    assert_eq!(disk.get("test/protected1.atxpkg_save"), Some(&Some(digest("mine\n"))));
    assert_eq!(disk.get("test/protected1"), Some(&Some(digest("1\n"))));
    assert_eq!(disk.get("test/unprotected"), Some(&Some(digest("1\n"))));
    assert!(!disk.contains_key("test/unprotected.atxpkg_save"));
}

#[test]
fn install_plan_orders_directories_by_length() {
    let archive = staged(&[
        ("a/b/c", None),
        ("a", None),
        ("zz", None),
        ("a/b", None),
        ("a/b/c/file", Some("f")),
        ("b", None),
    ]);
    let plan = install_package("p-1-1.atxpkg.zip", &archive, None, &Manifest::new(), false, NOW).unwrap();
    assert_eq!(plan.dirs, vec!["a", "b", "zz", "a/b", "a/b/c"]);
    assert_eq!(
        plan.actions,
        vec![
            FileAction::MakeDir { path: "a".to_string() },
            FileAction::MakeDir { path: "b".to_string() },
            FileAction::MakeDir { path: "zz".to_string() },
            FileAction::MakeDir { path: "a/b".to_string() },
            FileAction::MakeDir { path: "a/b/c".to_string() },
            FileAction::Place { staged: "a/b/c/file".to_string(), to: "a/b/c/file".to_string() },
        ]
    );
    assert_eq!(plan.record.backup, None);
}

#[test]
fn update_clears_orphans_and_keeps_edited_ones() {
    let mut disk = Disk::new();
    let v1 = staged(&[
        ("p", None),
        ("p/old", None),
        ("p/old/conf", Some("c1")),
        ("p/old/data", Some("d1")),
        ("p/keep", Some("k1")),
        ("p/gone", Some("g1")),
    ]);
    let backup = Some(vec!["p/old/conf".to_string(), "p/gone".to_string()]);
    let old = install(&mut disk, "p-1.0-1.atxpkg.zip", &v1, backup.clone(), false).unwrap();
    write(&mut disk, "p/old/conf", "edited");
    disk.remove("p/old/data");

    let v2 = staged(&[("p", None), ("p/keep", Some("k2")), ("p/fresh", Some("f2"))]);
    let mut paths = keys(&v2);
    paths.extend(keys(&old.md5sums));
    let observed = observe(&disk, &paths);
    let plan = update_package("p-2.0-1.atxpkg.zip", &old, &v2, None, &observed, false, NOW).unwrap();
    assert_eq!(plan.dirs, vec!["p"]);
    assert_eq!(plan.old_dirs, vec!["p/old"]);
    assert_eq!(
        plan.actions,
        vec![
            FileAction::MakeDir { path: "p".to_string() },
            FileAction::Place { staged: "p/keep".to_string(), to: "p/keep".to_string() },
            FileAction::Place { staged: "p/fresh".to_string(), to: "p/fresh".to_string() },
            FileAction::Move {
                from: "p/old/conf".to_string(),
                to: "p/old/conf.atxpkg_save".to_string()
            },
            FileAction::Missing { path: "p/old/data".to_string() },
            FileAction::Delete { path: "p/gone".to_string() },
            FileAction::RemoveDir { path: "p/old".to_string() },
        ]
    );
    apply(&mut disk, &plan.actions, &v2);
    assert!(disk.contains_key("p/old"));
    assert!(disk.contains_key("p/old/conf.atxpkg_save"));
    assert!(!disk.contains_key("p/gone"));
    assert_eq!(plan.record.version, "2.0-1");
    assert_eq!(plan.record.md5sums.len(), 3);
}

#[test]
fn remove_plan_for_missing_and_unreadable_paths() {
    let record = InstalledPackage {
        t: None,
        version: "1-1".to_string(),
        md5sums: staged(&[("d", None), ("d/sub", None), ("d/f", Some("f")), ("./", None), ("d/g", Some("g"))]),
        backup: Some(vec!["d/g".to_string()]),
    };
    let mut seen = Manifest::new();
    seen.insert("d".to_string(), None);
    seen.insert("./".to_string(), None);
    seen.insert("d/g".to_string(), Some(digest("g")));
    let plan = remove_package(&record, &seen).unwrap();
    assert_eq!(plan.dirs, vec!["d/sub", "./", "d"]);
    assert_eq!(
        plan.actions,
        vec![
            FileAction::Missing { path: "d/f".to_string() },
            FileAction::Delete { path: "d/g".to_string() },
            FileAction::Missing { path: "d/sub".to_string() },
            FileAction::RemoveDir { path: "d".to_string() },
        ]
    );

    let mut blocked = Manifest::new();
    blocked.insert("d/g".to_string(), None);
    assert_eq!(remove_package(&record, &blocked), Err(PkgError::Io));
}

#[test]
fn update_fails_where_a_file_cannot_be_compared() {
    let old = InstalledPackage {
        t: None,
        version: "1-1".to_string(),
        md5sums: staged(&[("conf", Some("c1"))]),
        backup: Some(vec!["conf".to_string()]),
    };
    let archive = staged(&[("conf", Some("c2"))]);
    let mut seen = Manifest::new();
    seen.insert("conf".to_string(), None);
    let r = update_package("p-2-1.atxpkg.zip", &old, &archive, Some(vec!["conf".to_string()]), &seen, false, NOW);
    assert_eq!(r, Err(PkgError::Io));
}

#[test]
fn check_of_a_fresh_install_is_clean() {
    let mut disk = Disk::new();
    let record = install(&mut disk, "test-1.0-1.atxpkg.zip", &test_1_0(), backup_list(), false).unwrap();
    let observed = observe(&disk, &keys(&record.md5sums));
    assert_eq!(check_package(&record, &observed), vec![]);

    let mut installed = InstalledDb::new();
    installed.insert("test".to_string(), record);
    assert_eq!(check_packages(vec!["test".to_string()], &installed, &observed), Ok(()));
    assert_eq!(check_packages(vec!["test-1.0-1".to_string()], &installed, &observed), Ok(()));
    assert_eq!(
        check_packages(vec!["test-2.0-1".to_string()], &installed, &observed),
        Err(PkgError::NotInstalled { request: 0 })
    );
    assert_eq!(
        check_packages(vec!["test".to_string(), "other".to_string()], &installed, &observed),
        Err(PkgError::NotInstalled { request: 1 })
    );
}

#[test]
fn check_reports_missing_and_changed_files() {
    let mut disk = Disk::new();
    let record = install(&mut disk, "test-1.0-1.atxpkg.zip", &test_1_0(), backup_list(), false).unwrap();
    write(&mut disk, "test/protected1", "x\n");
    write(&mut disk, "test/unprotected", "x\n");
    disk.remove("test/unprotected2");
    disk.remove("test/protected3");
    disk.insert("test/protected2".to_string(), None);
    let observed = observe(&disk, &keys(&record.md5sums));
    assert_eq!(
        check_package(&record, &observed),
        vec![
            Finding { entry: 3, kind: FindingKind::DoesNotExist },
            Finding { entry: 4, kind: FindingKind::ChecksumDifference },
            Finding { entry: 5, kind: FindingKind::DoesNotExist },
        ]
    );
    let mut installed = InstalledDb::new();
    installed.insert("test".to_string(), record);
    assert_eq!(
        check_packages(vec!["test".to_string(), "test".to_string()], &installed, &observed),
        Err(PkgError::CheckFailed { count: 6 })
    );
}

#[test]
fn install_then_remove_leaves_the_prefix_as_it_was() {
    let mut disk = Disk::new();
    write(&mut disk, "other/file", "o");
    disk.insert("other".to_string(), None);
    let before = disk.clone();
    let record = install(&mut disk, "test-1.0-1.atxpkg.zip", &test_1_0(), backup_list(), false).unwrap();
    assert_ne!(disk, before);
    remove(&mut disk, &record).unwrap();
    assert_eq!(disk, before);
}

#[test]
fn database_follows_installs_and_removals() {
    let mut disk = Disk::new();
    let mut installed = InstalledDb::new();
    let record = install(&mut disk, "/cache/test-1.0-1.atxpkg.zip", &test_1_0(), backup_list(), false).unwrap();
    record_install(&mut installed, "/cache/test-1.0-1.atxpkg.zip", record.clone());
    assert_eq!(installed.get("test"), Some(&record));
    assert_eq!(record_remove(&mut installed, "nothing"), None);
    assert_eq!(record_remove(&mut installed, "test"), Some(record));
    assert!(installed.is_empty());
}

#[test]
fn untracked_roots_are_the_first_components() {
    let mut installed = InstalledDb::new();
    let a = InstalledPackage {
        t: None,
        version: "1-1".to_string(),
        md5sums: staged(&[("bin", None), ("bin/tool", Some("t")), ("etc/tool.conf", Some("c"))]),
        backup: None,
    };
    let b = InstalledPackage {
        t: None,
        version: "1-1".to_string(),
        md5sums: staged(&[("bin/other", Some("o")), ("README", Some("r"))]),
        backup: None,
    };
    installed.insert("a".to_string(), a);
    installed.insert("b".to_string(), b);
    assert_eq!(untracked_roots(vec![], &installed), vec!["bin", "etc", "README"]);
    assert_eq!(untracked_roots(vec!["x".to_string()], &installed), vec!["x"]);
    let found = get_untracked(
        "bin",
        &vec!["sub".to_string()],
        &vec!["tool".to_string(), "stray".to_string(), "other".to_string()],
        &installed,
    );
    assert_eq!(found, vec!["bin/sub", "bin/stray"]);
}

#[test]
fn installed_files_have_their_recorded_digests() {
    let mut disk = Disk::new();
    let record = install(&mut disk, "test-1.0-1.atxpkg.zip", &test_1_0(), backup_list(), false).unwrap();
    assert_eq!(record.md5sums.len(), 6);
    for (path, recorded) in &record.md5sums.entries {
        assert_eq!(disk.get(path), Some(recorded));
    }
    write(&mut disk, "test/protected1", "x\n");
    let record =
        update(&mut disk, "test-2.0-1.atxpkg.zip", &record, &test_2_0(), backup_list(), false).unwrap();
    assert_eq!(record.md5sums.len(), 7);
    for (path, recorded) in &record.md5sums.entries {
        let listed = backup_list().unwrap().contains(path);
        assert!(disk.get(path) == Some(recorded) || listed);
    }
    assert_eq!(disk.get("test/protected1"), Some(&Some(digest("x\n"))));
}

#[test]
fn a_second_package_cannot_claim_an_installed_file() {
    let mut disk = Disk::new();
    let first = install(&mut disk, "test-1.0-1.atxpkg.zip", &test_1_0(), backup_list(), false).unwrap();
    let other = staged(&[("test", None), ("test/own", Some("o")), ("test/unprotected", Some("mine"))]);
    let r = install(&mut disk, "other-1.0-1.atxpkg.zip", &other, None, false);
    assert_eq!(r, Err(PkgError::FileExists { file: 2 }));

    let other = staged(&[("test", None), ("test/own", Some("o"))]);
    let second = install(&mut disk, "other-1.0-1.atxpkg.zip", &other, None, false).unwrap();
    for (path, digest) in &second.md5sums.entries {
        if digest.is_some() {
            assert_eq!(first.md5sums.get(path), None);
        }
    }
    assert_eq!(first.md5sums.get("test"), Some(&None));
    assert_eq!(second.md5sums.get("test"), Some(&None));
}

#[test]
fn installing_again_records_the_same_digests() {
    let archive = test_1_0();
    let first = install_package("c/test-1.0-1.atxpkg.zip", &archive, backup_list(), &Manifest::new(), false, NOW).unwrap();
    let mut disk = Disk::new();
    apply(&mut disk, &first.actions, &archive);
    let observed = observe(&disk, &keys(&archive));
    let again = install_package("c/test-1.0-1.atxpkg.zip", &archive, backup_list(), &observed, true, NOW).unwrap();
    assert_eq!(again.record.md5sums, first.record.md5sums);
    assert_eq!(
        install_package("c/test-1.0-1.atxpkg.zip", &archive, backup_list(), &observed, false, NOW),
        Err(PkgError::FileExists { file: 2 })
    );
}
