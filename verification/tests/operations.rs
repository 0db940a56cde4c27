use atxpkg::digest::get_md5_sum;
use atxpkg::index::get_available_packages;
use atxpkg::install::{install_package, install_packages, record_install};
use atxpkg::model::{AvailablePackages, InstalledDb, InstalledPackage, Manifest, PkgError, Timestamp};
use atxpkg::plan::FileAction;
use atxpkg::remove::{if_installed, record_remove, remove_package, remove_packages};
use atxpkg::replace::update_package;
use atxpkg::update::{parse_update_request, record_update, update_packages, PackageUpdate};
use std::collections::BTreeMap;

type Disk = BTreeMap<String, Option<String>>;

const NOW: Timestamp = Timestamp { secs: 1_700_000_000, nanos: 500 };

fn digest(content: &str) -> String {
    get_md5_sum(content.as_bytes())
}

fn staged(entries: &[(&str, Option<&str>)]) -> Manifest {
    let mut m = Manifest::new();
    for (path, content) in entries {
        m.insert(path.to_string(), content.map(digest));
    }
    m
}

fn keys(m: &Manifest) -> Vec<String> {
    m.entries.iter().map(|e| e.0.clone()).collect()
}

fn observe(disk: &Disk, paths: &[String]) -> Manifest {
    let mut m = Manifest::new();
    for p in paths {
        if let Some(found) = disk.get(p) {
            m.insert(p.clone(), found.clone());
        }
    }
    m
}

fn apply(disk: &mut Disk, actions: &[FileAction], staged: &Manifest) {
    for a in actions {
        match a {
            FileAction::MakeDir { path } => {
                disk.entry(path.clone()).or_insert(None);
            }
            FileAction::Move { from, to } => {
                if let Some(v) = disk.remove(from) {
                    disk.insert(to.clone(), v);
                }
            }
            FileAction::Place { staged: source, to } => {
                disk.insert(to.clone(), staged.get(source).unwrap().clone());
            }
            FileAction::Delete { path } => {
                disk.remove(path);
            }
            FileAction::RemoveDir { path } => {
                let below = format!("{path}/");
                if disk.get(path) == Some(&None) && !disk.keys().any(|k| k.starts_with(&below)) {
                    disk.remove(path);
                }
            }
            FileAction::Missing { .. } => {}
        }
    }
}

fn atx300(version_mark: &str) -> Manifest {
    let mut m = staged(&[
        (".atxpkg_backup", Some("atx300/atx300.ini\n")),
        ("atx300", None),
        ("atx300/memsh.mem", Some("mem")),
        ("atx300/atx300.ini", Some("ini")),
    ]);
    for i in 0..40 {
        m.insert(format!("atx300/file{i}"), Some(digest(version_mark)));
    }
    m
}

fn test_pkg(mark: &str) -> Manifest {
    staged(&[
        (".atxpkg_backup", Some("test/protected1\n")),
        ("test", None),
        ("test/protected1", Some(mark)),
        ("test/unprotected", Some(mark)),
    ])
}

fn archive_of(local_fn: &str) -> (Manifest, Option<Vec<String>>) {
    if local_fn.ends_with("atx300-base-6.3-1.atxpkg.zip") {
        (atx300("base"), Some(vec!["atx300/atx300.ini".to_string()]))
    } else if local_fn.ends_with("atx300-base.dev-0-1.atxpkg.zip") {
        (atx300("dev"), Some(vec!["atx300/atx300.ini".to_string()]))
    } else if local_fn.ends_with("test-1.0-1.atxpkg.zip") {
        (test_pkg("1\n"), Some(vec!["test/protected1".to_string()]))
    } else if local_fn.ends_with("test-2.0-1.atxpkg.zip") {
        (test_pkg("2\n"), Some(vec!["test/protected1".to_string()]))
    } else {
        panic!("no such archive: {local_fn}")
    }
}

fn test_data() -> AvailablePackages {
    get_available_packages(&vec![
        "./test_data/atx300-base-6.3-1.atxpkg.zip".to_string(),
        "./test_data/atx300-base.dev-0-1.atxpkg.zip".to_string(),
        "./test_data/atxpkg-1.5-3.atxpkg.zip".to_string(),
        "./test_data/test-1.0-1.atxpkg.zip".to_string(),
        "./test_data/test-2.0-1.atxpkg.zip".to_string(),
    ])
}

fn run_install(
    packages: Vec<String>,
    installed: &mut InstalledDb,
    disk: &mut Disk,
    force: bool,
) -> Result<bool, PkgError> {
    let urls = install_packages(packages, installed, &test_data(), force, false)?;
    for local_fn in &urls {
        let (archive, backup) = archive_of(local_fn);
        let observed = observe(disk, &keys(&archive));
        let plan = install_package(local_fn, &archive, backup, &observed, force, NOW)?;
        apply(disk, &plan.actions, &archive);
        record_install(installed, local_fn, plan.record);
    }
    Ok(true)
}

fn run_update(
    packages: Vec<String>,
    installed: &mut InstalledDb,
    disk: &mut Disk,
    force: bool,
) -> Result<bool, PkgError> {
    let updates = update_packages(packages, installed, &test_data(), force)?;
    if updates.is_empty() {
        return Ok(false);
    }
    for pu in &updates {
        let (archive, backup) = archive_of(&pu.url);
        let old = installed.get(&pu.name_old).unwrap().clone();
        let mut paths = keys(&archive);
        paths.extend(keys(&old.md5sums));
        let observed = observe(disk, &paths);
        let plan = update_package(&pu.url, &old, &archive, backup, &observed, force, NOW)?;
        apply(disk, &plan.actions, &archive);
        record_update(installed, pu, plan.record);
    }
    Ok(true)
}

fn run_remove(
    packages: Vec<String>,
    installed: &mut InstalledDb,
    disk: &mut Disk,
) -> Result<bool, PkgError> {
    let names = remove_packages(packages, installed)?;
    for name in &names {
        let old = installed.get(name).unwrap().clone();
        let observed = observe(disk, &keys(&old.md5sums));
        let plan = remove_package(&old, &observed)?;
        apply(disk, &plan.actions, &Manifest::new());
        record_remove(installed, name);
    }
    Ok(true)
}

#[test]
fn test_install_packages() {
    let mut disk = Disk::new();
    let mut installed_packages = InstalledDb::new();
    run_install(
        vec!["atx300-base".to_string(), "test".to_string()],
        &mut installed_packages,
        &mut disk,
        false,
    )
    .unwrap();

    let pkginfo = installed_packages.get("atx300-base").unwrap();
    assert_eq!(pkginfo.version, "6.3-1");
    assert_eq!(pkginfo.md5sums.len(), 43);
    assert!(disk.contains_key("atx300/memsh.mem"));
    assert!(!disk.contains_key("atx300/.atxpkg_backup"));
    assert!(disk.contains_key("test/protected1"));
    assert_eq!(installed_packages.get("test").unwrap().version, "2.0-1");
    assert_eq!(installed_packages.len(), 2);
}

#[test]
fn test_update_packages() {
    let mut disk = Disk::new();
    let mut installed_packages = InstalledDb::new();
    run_install(
        vec!["atx300-base".to_string(), "test-1.0-1".to_string()],
        &mut installed_packages,
        &mut disk,
        false,
    )
    .unwrap();

    let pkginfo = installed_packages.get("atx300-base").unwrap();
    assert_eq!(pkginfo.version, "6.3-1");
    assert_eq!(pkginfo.md5sums.len(), 43);
    assert!(disk.contains_key("atx300/memsh.mem"));
    assert!(!disk.contains_key("atx300/.atxpkg_backup"));

    let pkginfo = installed_packages.get("test").unwrap();
    assert_eq!(pkginfo.version, "1.0-1");
    assert!(disk.contains_key("test/protected1"));

    run_update(
        vec!["atx300-base..atx300-base.dev".to_string(), "test".to_string()],
        &mut installed_packages,
        &mut disk,
        false,
    )
    .unwrap();

    assert!(!installed_packages.contains_key("atx300-base"));
    let pkginfo = installed_packages.get("atx300-base.dev").unwrap();
    assert_eq!(pkginfo.version, "0-1");
    assert!(disk.contains_key("atx300/memsh.mem"));

    let pkginfo = installed_packages.get("test").unwrap();
    assert_eq!(pkginfo.version, "2.0-1");
    assert!(disk.contains_key("test/protected1"));
    assert_eq!(disk.get("test/protected1"), Some(&Some(digest("2\n"))));
}

#[test]
fn test_remove_packages() {
    let mut disk = Disk::new();
    let mut installed_packages = InstalledDb::new();
    run_install(
        vec!["atx300-base".to_string(), "test".to_string()],
        &mut installed_packages,
        &mut disk,
        false,
    )
    .unwrap();

    let pkginfo = installed_packages.get("atx300-base").unwrap();
    assert_eq!(pkginfo.version, "6.3-1");
    assert_eq!(pkginfo.md5sums.len(), 43);
    assert!(disk.contains_key("atx300/memsh.mem"));
    assert!(!disk.contains_key("atx300/.atxpkg_backup"));
    assert!(disk.contains_key("test/protected1"));

    run_remove(
        vec!["atx300-base".to_string(), "test".to_string()],
        &mut installed_packages,
        &mut disk,
    )
    .unwrap();

    assert!(installed_packages.is_empty());
    assert!(!disk.contains_key("atx300/memsh.mem"));
    assert!(!disk.contains_key("test/protected1"));

    let lst = disk.keys().cloned().collect::<Vec<_>>();
    assert_eq!(lst, Vec::<String>::new());
}

#[test]
fn update_with_nothing_to_do_is_empty_unless_forced() {
    let mut disk = Disk::new();
    let mut installed = InstalledDb::new();
    run_install(vec!["test".to_string()], &mut installed, &mut disk, false).unwrap();
    assert_eq!(installed.get("test").unwrap().version, "2.0-1");

    assert_eq!(update_packages(vec!["test".to_string()], &installed, &test_data(), false), Ok(vec![]));
    assert_eq!(run_update(vec!["test".to_string()], &mut installed, &mut disk, false), Ok(false));

    let forced = update_packages(vec!["test".to_string()], &installed, &test_data(), true).unwrap();
    assert_eq!(
        forced,
        vec![PackageUpdate {
            name_old: "test".to_string(),
            version_old: "2.0-1".to_string(),
            name_new: "test".to_string(),
            version_new: "2.0-1".to_string(),
            url: "./test_data/test-2.0-1.atxpkg.zip".to_string(),
            local_fn: "".to_string(),
        }]
    );
}

#[test]
fn update_requests_are_read_in_both_forms() {
    let u = parse_update_request("atx300-base-6.3-1..atx300-base.dev-0-1");
    assert_eq!(u.name_old, "atx300-base");
    assert_eq!(u.version_old, "6.3-1");
    assert_eq!(u.name_new, "atx300-base.dev");
    assert_eq!(u.version_new, "0-1");
    let u = parse_update_request("test-2.0-1");
    assert_eq!((u.name_old.as_str(), u.version_old.as_str()), ("test", ""));
    assert_eq!((u.name_new.as_str(), u.version_new.as_str()), ("test", "2.0-1"));
    let u = parse_update_request("a..b..c");
    assert_eq!((u.name_old.as_str(), u.name_new.as_str()), ("a", "b"));
    let u = parse_update_request("a..");
    assert_eq!((u.name_old.as_str(), u.name_new.as_str()), ("a", ""));
}

#[test]
fn update_errors_in_order() {
    let mut disk = Disk::new();
    let mut installed = InstalledDb::new();
    run_install(
        vec!["atx300-base".to_string(), "test-1.0-1".to_string()],
        &mut installed,
        &mut disk,
        false,
    )
    .unwrap();
    let available = test_data();
    let plan = |reqs: &[&str]| {
        update_packages(reqs.iter().map(|s| s.to_string()).collect(), &installed, &available, false)
    };
    assert_eq!(plan(&["test", "atxpkg"]), Err(PkgError::NotInstalled { request: 1 }));
    assert_eq!(plan(&["test-2.0-1..test"]), Err(PkgError::NotInstalled { request: 0 }));
    assert_eq!(plan(&["test..atx300-base"]), Err(PkgError::AlreadyInstalled { request: 0 }));
    assert_eq!(plan(&["test..unknown"]), Err(PkgError::NotAvailable { request: 0 }));
    assert_eq!(plan(&["test-3.0-1"]), Err(PkgError::NotAvailable { request: 0 }));
    assert_eq!(
        plan(&["test..unknown", "missing"]),
        Err(PkgError::NotInstalled { request: 1 })
    );
    let ok = plan(&["test-1.0-1..test-2.0-1", "atx300-base"]).unwrap();
    assert_eq!(ok.len(), 1);
    assert_eq!(ok[0].url, "./test_data/test-2.0-1.atxpkg.zip");
    assert_eq!(ok[0].version_old, "1.0-1");
}

#[test]
fn install_errors_in_order() {
    let mut disk = Disk::new();
    let mut installed = InstalledDb::new();
    run_install(vec!["test-1.0-1".to_string()], &mut installed, &mut disk, false).unwrap();
    let available = test_data();
    let plan = |reqs: &[&str], force: bool, download_only: bool| {
        install_packages(
            reqs.iter().map(|s| s.to_string()).collect(),
            &installed,
            &available,
            force,
            download_only,
        )
    };
    assert_eq!(plan(&["atxpkg", "test"], false, false), Err(PkgError::AlreadyInstalled { request: 1 }));
    assert_eq!(plan(&["nothing", "test"], false, false), Err(PkgError::NotAvailable { request: 0 }));
    assert_eq!(plan(&["atxpkg-9.9-9", "test"], false, false), Err(PkgError::AlreadyInstalled { request: 1 }));
    assert_eq!(plan(&["atxpkg-9.9-9"], false, false), Err(PkgError::NotAvailable { request: 0 }));
    assert_eq!(
        plan(&["test"], true, false),
        Ok(vec!["./test_data/test-2.0-1.atxpkg.zip".to_string()])
    );
    assert_eq!(
        plan(&["test-1.0-1", "atxpkg"], false, true),
        Ok(vec![
            "./test_data/test-1.0-1.atxpkg.zip".to_string(),
            "./test_data/atxpkg-1.5-3.atxpkg.zip".to_string()
        ])
    );
}

#[test]
fn removal_and_precondition_requests() {
    let mut disk = Disk::new();
    let mut installed = InstalledDb::new();
    run_install(vec!["test-1.0-1".to_string()], &mut installed, &mut disk, false).unwrap();
    assert_eq!(if_installed(vec!["test".to_string(), "test-1.0-1".to_string()], &installed), Ok(()));
    assert_eq!(
        if_installed(vec!["test".to_string(), "test-2.0-1".to_string()], &installed),
        Err(PkgError::PreconditionFailed { request: 1 })
    );
    assert_eq!(
        if_installed(vec!["other".to_string()], &installed),
        Err(PkgError::PreconditionFailed { request: 0 })
    );
    assert_eq!(
        remove_packages(vec!["test-1.0-1".to_string()], &installed),
        Ok(vec!["test".to_string()])
    );
    assert_eq!(
        remove_packages(vec!["test".to_string(), "other".to_string()], &installed),
        Err(PkgError::NotInstalled { request: 1 })
    );
    assert_eq!(
        remove_packages(vec!["test-2.0-1".to_string()], &installed),
        Err(PkgError::NotInstalled { request: 0 })
    );
}

#[test]
fn installed_record_holds_what_was_given() {
    let archive = test_pkg("1\n");
    let backup = Some(vec!["test/protected1".to_string()]);
    let plan = install_package("x/test-1.0-1.atxpkg.zip", &archive, backup.clone(), &Manifest::new(), false, NOW).unwrap();
    let expected = InstalledPackage {
        t: Some(NOW),
        version: "1.0-1".to_string(),
        md5sums: staged(&[("test", None), ("test/protected1", Some("1\n")), ("test/unprotected", Some("1\n"))]),
        backup,
    };
    assert_eq!(plan.record, expected);
}
