use atxpkg::compare::compare_versions;
use atxpkg::names::{
    get_max_version, get_max_version_url, get_package_fn, get_package_name, get_package_version,
    get_specific_version_url, is_url, split_package_name_version,
};
use atxpkg::version::{is_version_string, parse_version, split_ver};
use std::cmp::Ordering;

fn split(s: &str) -> (String, String) {
    split_package_name_version(s)
}

fn pair(a: &str, b: &str) -> (String, String) {
    (a.to_string(), b.to_string())
}

#[test]
fn test_get_max_version() {
    assert_eq!(
        get_max_version(vec![
            "http://atxpkg.asterix.cz/neco.dev-20240722223041-1.atxpkg.zip".to_string(),
            "http://atxpkg-dev.asterix.cz/neco.dev-20240722223042-1.atxpkg.zip".to_string(),
            "/neco/na/disku/neco.dev-20240722223043-1.atxpkg.zip".to_string(),
        ]),
        Some("20240722223043-1".to_string())
    )
}

#[test]
fn max_version_url_keeps_first_of_equal_versions() {
    let urls = vec![
        "a/test-1.2-1.atxpkg.zip".to_string(),
        "b/test-1.10-1.atxpkg.zip".to_string(),
        "c/test-1.10-1.atxpkg.zip".to_string(),
    ];
    assert_eq!(
        get_max_version_url(urls),
        Some("b/test-1.10-1.atxpkg.zip".to_string())
    );
    assert_eq!(get_max_version_url(vec![]), None);
    assert_eq!(get_max_version(vec![]), None);
}

#[test]
fn specific_version_url_is_first_match() {
    let urls = vec![
        "a/test-1.0-1.atxpkg.zip".to_string(),
        "b/test-2.0-1.atxpkg.zip".to_string(),
        "c/test-2.0-1.atxpkg.zip".to_string(),
    ];
    assert_eq!(
        get_specific_version_url(urls.clone(), "2.0-1"),
        Some("b/test-2.0-1.atxpkg.zip".to_string())
    );
    assert_eq!(get_specific_version_url(urls, "3.0-1"), None);
}

#[test]
fn split_file_names() {
    assert_eq!(split("atx300-base-6.3-1.atxpkg.zip"), pair("atx300-base", "6.3-1"));
    assert_eq!(split("atx300-base.dev-0-1.atxpkg.zip"), pair("atx300-base.dev", "0-1"));
    assert_eq!(split("atxpkg-1.5-3.atxpkg.zip"), pair("atxpkg", "1.5-3"));
    assert_eq!(split("test-1.0-1"), pair("test", "1.0-1"));
    assert_eq!(split("test"), pair("test", ""));
    assert_eq!(split("atx300-base"), pair("atx300-base", ""));
    assert_eq!(split("neco.atxpkg.zip"), pair("neco", ""));
    assert_eq!(split("neco.dev-20240722223043-1.atxpkg.zip"), pair("neco.dev", "20240722223043-1"));
}

#[test]
fn split_takes_the_first_boundary() {
    assert_eq!(split("libfoo-2-stable-1.0-1"), pair("libfoo-2-stable", "1.0-1"));
    assert_eq!(split("a-1-2"), pair("a", "1-2"));
    assert_eq!(split("-1.0"), pair("-1.0", ""));
    assert_eq!(split("x--1"), pair("x", "-1"));
}

#[test]
fn split_edge_cases() {
    assert_eq!(split(""), pair("", ""));
    assert_eq!(split("a\nb"), pair("", ""));
    assert_eq!(split("name-"), pair("name-", ""));
    assert_eq!(split("name-.atxpkg.zip"), pair("name-", ""));
    assert_eq!(split("name-..atxpkg.zip"), pair("name", "."));
    assert_eq!(split(".atxpkg.zip"), pair(".atxpkg.zip", ""));
    assert_eq!(get_package_name("test-2.0-1.atxpkg.zip"), "test");
    assert_eq!(get_package_version("test-2.0-1.atxpkg.zip"), "2.0-1");
}

#[test]
fn package_fn_is_the_last_segment() {
    assert_eq!(get_package_fn("http://h/dir/test-1.0-1.atxpkg.zip"), Some("test-1.0-1.atxpkg.zip".to_string()));
    assert_eq!(get_package_fn("plain"), Some("plain".to_string()));
    assert_eq!(get_package_fn("dir/"), Some("".to_string()));
    assert_eq!(get_package_fn(""), Some("".to_string()));
}

#[test]
fn url_detection() {
    assert!(is_url("http://example.org/repo"));
    assert!(is_url("https://example.org/repo"));
    assert!(!is_url("ftp://example.org"));
    assert!(!is_url("/var/cache/http://"));
    assert!(!is_url("http:/"));
}

#[test]
fn versions_compare_as_tuples() {
    assert_eq!(compare_versions("1.10-1", "1.2-1"), Ordering::Greater);
    assert_eq!(compare_versions("1.2-1", "1.10-1"), Ordering::Less);
    assert_eq!(compare_versions("20240722223043-1", "20240722223042-1"), Ordering::Greater);
    assert_eq!(compare_versions("1.0-1", "1.0-1"), Ordering::Equal);
    assert_eq!(compare_versions("1.0", "1.0-1"), Ordering::Less);
    assert_eq!(compare_versions("01.0", "1.0"), Ordering::Equal);
    assert_eq!(compare_versions("2", "1.9.9"), Ordering::Greater);
}

#[test]
fn version_parsing() {
    assert_eq!(split_ver("6.3-1"), vec![6, 3, 1]);
    assert_eq!(parse_version("20240722223042-1"), Some(vec![20240722223042, 1]));
    assert_eq!(parse_version("18446744073709551615"), Some(vec![u64::MAX]));
    assert_eq!(parse_version("18446744073709551616"), None);
    assert_eq!(parse_version(""), None);
    assert_eq!(parse_version("1..2"), None);
    assert_eq!(parse_version("1."), None);
    assert_eq!(parse_version("-1"), None);
    assert_eq!(parse_version("1a"), None);
    assert!(is_version_string("0-1"));
    assert!(!is_version_string("1.x"));
}
