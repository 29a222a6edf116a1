use pica::pica_core::repo::{expected_filename, is_supported_url, validate_repo, RepoJson, RepoPackage};

fn package(filename: &str) -> RepoPackage {
    RepoPackage {
        pkgname: "hello".to_string(),
        pkgver: "1.0.0".to_string(),
        pkgrel: "1".to_string(),
        platform: "all".to_string(),
        arch: "all".to_string(),
        filename: filename.to_string(),
        appname: None,
        author: None,
        version: None,
        branch: None,
        protocol: None,
        pica: None,
        download_url: None,
        manifest: None,
    }
}

#[test]
fn expected_filename_for_all_platform() {
    assert_eq!(expected_filename("hello", "1.0.0", "1", "all", "all"), "hello-1.0.0-1-all.pkg.tar.gz");
}

#[test]
fn expected_filename_for_named_platform() {
    assert_eq!(
        expected_filename("hello", "1.0.0", "1", "mt7621", "mipsel"),
        "hello-1.0.0-1-mt7621-mipsel.pkg.tar.gz"
    );
}

#[test]
fn parse_valid_repo() {
    let repo = RepoJson { schema: 1, packages: vec![package("hello-1.0.0-1-all.pkg.tar.gz")] };
    assert!(validate_repo(&repo).is_ok());
    assert_eq!(repo.packages.len(), 1);
}

#[test]
fn reject_invalid_filename() {
    let repo = RepoJson { schema: 1, packages: vec![package("../hello.pkg.tar.gz")] };
    assert!(validate_repo(&repo).is_err());
}

#[test]
fn repo_errors_name_the_fault() {
    let repo = RepoJson { schema: 2, packages: vec![] };
    assert_eq!(validate_repo(&repo).unwrap_err(), "schema must be 1");
    let repo = RepoJson { schema: 1, packages: vec![package("hello-1.0.1-1-all.pkg.tar.gz")] };
    assert_eq!(
        validate_repo(&repo).unwrap_err(),
        "package hello: filename mismatch, expected hello-1.0.0-1-all.pkg.tar.gz, got hello-1.0.1-1-all.pkg.tar.gz"
    );
    let mut bad = package("hello-1.0.0-1-all.pkg.tar.gz");
    bad.download_url = Some("ftp://x".to_string());
    let repo = RepoJson { schema: 1, packages: vec![bad] };
    assert_eq!(validate_repo(&repo).unwrap_err(), "package hello: invalid download_url ftp://x");
    let mut empty = package("x.pkg.tar.gz");
    empty.arch = String::new();
    let repo = RepoJson { schema: 1, packages: vec![empty] };
    assert!(validate_repo(&repo).unwrap_err().starts_with("package entry missing"));
}

#[test]
fn supported_urls() {
    assert!(is_supported_url("http://a"));
    assert!(is_supported_url("https://a"));
    assert!(is_supported_url("file:///tmp/x"));
    assert!(!is_supported_url("ftp://a"));
}
