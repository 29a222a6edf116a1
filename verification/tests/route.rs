use pica::json::JsonValue;
use pica::pica_pkg_cli::install::query_sync_info;
use pica::pica_pkg_cli::candidate::RepoCandidate;
use pica::pica_pkg_cli::route::{
    opkg_base_version, opkg_candidates, opkg_install_list, opkg_manifest, route_by_feed, route_for_installed,
    InstallRoute,
};
use pica::pica_pkg_cli::types::FeedPolicy;

fn s(v: &str) -> JsonValue {
    JsonValue::String(v.to_string())
}

fn obj(entries: Vec<(&str, JsonValue)>) -> JsonValue {
    JsonValue::Object(entries.into_iter().map(|(k, v)| (k.to_string(), v)).collect())
}

fn strings(items: &[&str]) -> Vec<String> {
    items.iter().map(|x| x.to_string()).collect()
}

#[test]
fn installed_apps_keep_their_source() {
    let db = obj(vec![(
        "installed",
        obj(vec![
            ("a", obj(vec![("manifest", obj(vec![("source", s("opkg"))]))])),
            ("b", obj(vec![("manifest", obj(vec![("source", s("pica"))]))])),
            ("c", obj(vec![("manifest", obj(vec![]))])),
        ]),
    )]);
    assert_eq!(route_for_installed(&db, Some("a")), Some(InstallRoute::ViaOpkg));
    assert_eq!(route_for_installed(&db, Some("b")), Some(InstallRoute::FromRepo));
    assert_eq!(route_for_installed(&db, Some("c")), None);
    assert_eq!(route_for_installed(&db, None), None);
}

#[test]
fn feed_route_follows_policy() {
    assert_eq!(route_by_feed(false, true, false, FeedPolicy::PackagedFirst), InstallRoute::ViaOpkg);
    assert_eq!(route_by_feed(false, true, false, FeedPolicy::PackagedOnly), InstallRoute::FromRepo);
    assert_eq!(route_by_feed(false, true, true, FeedPolicy::PackagedFirst), InstallRoute::FromRepo);
    assert_eq!(route_by_feed(false, true, true, FeedPolicy::Ask), InstallRoute::ViaOpkg);
    assert_eq!(route_by_feed(true, true, false, FeedPolicy::FeedOnly), InstallRoute::FromRepo);
    assert_eq!(route_by_feed(false, false, false, FeedPolicy::FeedOnly), InstallRoute::FromRepo);
}

#[test]
fn feed_packages_of_an_app() {
    assert_eq!(opkg_candidates("foo", "zh-cn"), strings(&["foo", "luci-app-foo", "luci-i18n-foo-zh-cn"]));
    assert_eq!(opkg_candidates("foo", "en"), strings(&["foo", "luci-app-foo"]));
    let list = opkg_install_list("foo", &strings(&["foo", "luci-app-foo", "x"]), &vec![false, true, true]).unwrap();
    assert_eq!(list, strings(&["luci-app-foo", "x"]));
    let err = opkg_install_list("foo", &strings(&["foo"]), &vec![false]).err().unwrap();
    assert_eq!(err.code, "E_CONFIG_INVALID");
    assert_eq!(err.message, "opkg: package not found: foo");
    assert_eq!(opkg_base_version(Some(""), Some("2.0")), "2.0");
    assert_eq!(opkg_base_version(Some("1.0"), Some("2.0")), "1.0");
    assert_eq!(opkg_base_version(None, None), "");
}

#[test]
fn feed_manifest_records_the_install() {
    let m = opkg_manifest("foo", "stable", "1.0", "openwrt", "x86", &strings(&["foo", "luci-app-foo"]));
    let mut text = String::new();
    pica::json::push_json_text(&mut text, &m);
    assert_eq!(
        text,
        "{\"appname\":\"foo\",\"arch\":\"all\",\"branch\":\"stable\",\"opkg\":[\"foo\",\"luci-app-foo\"],\"os\":\"openwrt\",\"pkgmgr\":\"opkg\",\"pkgname\":\"foo\",\"pkgver\":\"1.0\",\"platform\":\"x86\",\"source\":\"opkg\"}"
    );
}

fn candidate(sort_key: &str, download_url: Option<&str>, size: Option<u64>) -> RepoCandidate {
    RepoCandidate {
        sort_key: sort_key.to_string(),
        repo: "main".to_string(),
        url: "https://repo.test/base//".to_string(),
        appname: "hello".to_string(),
        branch: "stable".to_string(),
        pkgver: sort_key.to_string(),
        pkgrel: String::new(),
        protocol: String::new(),
        pkg_url: String::new(),
        luci_url: String::new(),
        luci_desc: String::new(),
        pkgmgr: "opkg".to_string(),
        pkgdesc: String::new(),
        os: "openwrt".to_string(),
        platform: "all".to_string(),
        arch: "all".to_string(),
        size,
        filename: format!("hello-{sort_key}.pkg.tar.gz"),
        download_url: download_url.map(|u| u.to_string()),
        min_pica: None,
        sha256: "ab".to_string(),
        pkgname: "hello".to_string(),
    }
}

#[test]
fn sync_info_shows_the_newest_candidate() {
    let cands = vec![candidate("1.0", None, Some(2048)), candidate("1.2", None, None), candidate("1.1", Some("https://x/y"), None)];
    let lines = query_sync_info(&cands, "hello").unwrap();
    assert_eq!(lines.len(), 21);
    assert_eq!(lines[3], "Version         : 1.2");
    assert_eq!(lines[17], "Download URL    : https://repo.test/base/packages/hello-1.2.pkg.tar.gz");
    assert_eq!(lines[20], "Size            : ");
    let one = query_sync_info(&vec![candidate("1.0", None, Some(2048))], "hello").unwrap();
    assert_eq!(one[20], "Size            : 2048 (2.00 KiB)");
    let err = query_sync_info(&vec![], "nothing").err().unwrap();
    assert_eq!(err.message, "package not found in pica repos: nothing");
}

#[test]
fn sync_info_orders_other_versions_by_segment() {
    let cands = vec![candidate("1.10b", None, None), candidate("1.9b", None, None)];
    let lines = query_sync_info(&cands, "hello").unwrap();
    assert_eq!(lines[3], "Version         : 1.10b");
}
