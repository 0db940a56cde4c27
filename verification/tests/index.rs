use atxpkg::index::{get_available_packages, is_empty_dir, list_available, repos_to_query};
use atxpkg::model::PkgError;
use atxpkg::names::is_valid_package_fn;

fn test_data_listing() -> Vec<String> {
    vec![
        "./test_data/test-2.0-1.atxpkg.zip".to_string(),
        "./test_data/atxpkg-1.5-3.atxpkg.zip".to_string(),
        "./test_data/atx300-base.dev-0-1.atxpkg.zip".to_string(),
        "./test_data/test-1.0-1.atxpkg.zip".to_string(),
        "./test_data/atx300-base-6.3-1.atxpkg.zip".to_string(),
    ]
}

#[test]
fn test_list_available() {
    let packages = vec![];
    let available = get_available_packages(&test_data_listing());
    let avail = list_available(packages, &available).unwrap();
    assert_eq!(
        avail,
        vec![
            ("atx300-base".to_string(), "".to_string()),
            ("atx300-base.dev".to_string(), "".to_string()),
            ("atxpkg".to_string(), "".to_string()),
            ("test".to_string(), "".to_string()),
        ]
    );
}

#[test]
fn list_available_versions_of_named_packages() {
    let available = get_available_packages(&test_data_listing());
    let avail = list_available(vec!["test".to_string(), "atxpkg".to_string()], &available).unwrap();
    assert_eq!(
        avail,
        vec![
            ("atxpkg".to_string(), "1.5-3".to_string()),
            ("test".to_string(), "1.0-1".to_string()),
            ("test".to_string(), "2.0-1".to_string()),
        ]
    );
}

#[test]
fn list_available_reports_the_first_missing_name() {
    let available = get_available_packages(&test_data_listing());
    let r = list_available(
        vec!["test".to_string(), "nothing".to_string(), "none".to_string()],
        &available,
    );
    assert_eq!(r, Err(PkgError::NotAvailable { request: 1 }));
}

#[test]
fn index_groups_addresses_by_name_in_listing_order() {
    let listing = vec![
        "http://a/test-1.0-1.atxpkg.zip".to_string(),
        "http://a/readme.txt".to_string(),
        "/cache/test-2.0-1.atxpkg.zip".to_string(),
        "/cache/other-1-1.atxpkg.zip".to_string(),
        "http://b/test-1.0-1.atxpkg.zip".to_string(),
        "http://b/bad-1..2-1.atxpkg.zip".to_string(),
        "http://b/noversion.atxpkg.zip".to_string(),
    ];
    let available = get_available_packages(&listing);
    assert_eq!(available.len(), 2);
    assert_eq!(
        available.get("test"),
        Some(&vec![
            "http://a/test-1.0-1.atxpkg.zip".to_string(),
            "/cache/test-2.0-1.atxpkg.zip".to_string(),
            "http://b/test-1.0-1.atxpkg.zip".to_string(),
        ])
    );
    assert_eq!(available.get("other"), Some(&vec!["/cache/other-1-1.atxpkg.zip".to_string()]));
    assert_eq!(available.get("bad"), None);
    assert_eq!(available.get("noversion"), None);
}

#[test]
fn valid_package_file_names() {
    assert!(is_valid_package_fn("atx300-base-6.3-1.atxpkg.zip"));
    assert!(is_valid_package_fn("atx300-base.dev-0-1.atxpkg.zip"));
    assert!(is_valid_package_fn("a-1-1.atxpkg.zip"));
    assert!(is_valid_package_fn("prefix a-1.2.3-44.atxpkg.zip trailing"));
    assert!(!is_valid_package_fn("test-1.0-1.zip"));
    assert!(!is_valid_package_fn("test-1.0.atxpkg.zip"));
    assert!(!is_valid_package_fn("-1.0-1.atxpkg.zip"));
    assert!(!is_valid_package_fn("test-1.0-.atxpkg.zip"));
    assert!(!is_valid_package_fn("test--1.atxpkg.zip"));
    assert!(!is_valid_package_fn("test-1.0-1a.atxpkg.zip"));
    assert!(!is_valid_package_fn(""));
}

#[test]
fn offline_skips_remote_repositories() {
    let repos = vec![
        "/tmp/atxpkg/cache".to_string(),
        "http://example.org/repo".to_string(),
        "https://example.org/repo".to_string(),
        "/srv/packages".to_string(),
    ];
    assert_eq!(repos_to_query(&repos, false), repos);
    assert_eq!(
        repos_to_query(&repos, true),
        vec!["/tmp/atxpkg/cache".to_string(), "/srv/packages".to_string()]
    );
}

#[test]
fn empty_directory() {
    assert!(is_empty_dir(&vec![]));
    assert!(!is_empty_dir(&vec!["file".to_string()]));
}
