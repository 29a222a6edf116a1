use pica::json::JsonValue;
use pica::pica_core::selector::Selector;
use pica::pica_pkg_cli::helpers::{ensure_json_object_field, manifest_get_array, manifest_get_scalar, normalize_uname};
use pica::pica_pkg_cli::install::sanitize_cache_filename;
use pica::pica_pkg_cli::state::db_find_installed_pkgname_by_selector;
use pica::pica_pkg_cli::sync::{append_dep_list, collect_declared_dependencies};
use pica::pica_pkg_core::manifest::Manifest;

fn s(v: &str) -> JsonValue {
    JsonValue::String(v.to_string())
}

fn n(v: &str) -> JsonValue {
    JsonValue::Number(v.to_string())
}

fn arr(items: &[&str]) -> JsonValue {
    JsonValue::Array(items.iter().map(|x| s(x)).collect())
}

fn obj(entries: Vec<(&str, JsonValue)>) -> JsonValue {
    JsonValue::Object(entries.into_iter().map(|(k, v)| (k.to_string(), v)).collect())
}

fn strings(items: &[&str]) -> Vec<String> {
    items.iter().map(|x| x.to_string()).collect()
}

#[test]
fn collect_declared_dependencies_merges_and_dedups() {
    let index = obj(vec![(
        "repos",
        obj(vec![
            (
                "r1",
                obj(vec![(
                    "data",
                    obj(vec![(
                        "packages",
                        JsonValue::Array(vec![
                            obj(vec![(
                                "manifest",
                                obj(vec![
                                    ("app", arr(&["luci-app-foo", "busybox"])),
                                    ("base", arr(&["busybox", "dnsmasq"])),
                                    ("kmod", s("kmod-tun")),
                                ]),
                            )]),
                            obj(vec![("manifest", obj(vec![("app", s("foo")), ("base", arr(&["dnsmasq"]))]))]),
                        ]),
                    )]),
                )]),
            ),
            (
                "r2",
                obj(vec![(
                    "data",
                    obj(vec![(
                        "packages",
                        JsonValue::Array(vec![obj(vec![(
                            "manifest",
                            obj(vec![("app", arr(&["bar", "foo"])), ("kmod", arr(&["kmod-tun", "kmod-usb"]))]),
                        )])]),
                    )]),
                )]),
            ),
        ]),
    )]);
    let deps = collect_declared_dependencies(&index);
    assert_eq!(deps, strings(&["bar", "busybox", "dnsmasq", "foo", "kmod-tun", "kmod-usb", "luci-app-foo"]));
}

#[test]
fn append_dep_list_ignores_empty_and_non_string() {
    let mut out = Vec::new();
    append_dep_list(&mut out, Some(&JsonValue::Array(vec![s("a"), s(" "), n("1"), s("b")])));
    append_dep_list(&mut out, Some(&s(" c ")));
    append_dep_list(&mut out, Some(&JsonValue::Null));
    append_dep_list(&mut out, Some(&n("1")));
    assert_eq!(out, strings(&["a", "b", "c"]));
}

#[test]
fn manifest_helpers_support_scalar_and_array() {
    let value = obj(vec![("app", arr(&["foo", "bar"])), ("num", n("1")), ("single", s("baz"))]);
    assert_eq!(manifest_get_array(&value, "app"), strings(&["foo", "bar"]));
    assert_eq!(manifest_get_array(&value, "single"), strings(&["baz"]));
    assert!(manifest_get_array(&value, "num").is_empty());
    assert_eq!(manifest_get_scalar(&value, "single"), "baz");
    assert_eq!(manifest_get_scalar(&value, "app"), "");
    assert_eq!(manifest_get_scalar(&value, "missing"), "");
}

#[test]
fn ensure_json_object_field_creates_and_validates() {
    let mut value = obj(vec![("schema", n("1"))]);
    ensure_json_object_field(&mut value, "installed").expect("must create object field");
    assert!(value.get("installed").is_some_and(|v| v.is_object()));

    let mut invalid = obj(vec![("installed", JsonValue::Array(vec![]))]);
    let err = ensure_json_object_field(&mut invalid, "installed").expect_err("must fail");
    assert_eq!(err.code, "E_RUNTIME");
}

#[test]
fn db_find_installed_pkgname_by_selector_matches_branch() {
    let db = obj(vec![
        (
            "installed",
            obj(vec![(
                "hello",
                obj(vec![(
                    "manifest",
                    obj(vec![
                        ("appname", s("hello-app")),
                        ("branch", s("stable")),
                        ("pkgname", s("hello")),
                        ("pkgrel", s("4")),
                        ("pkgver", s("1.2.3")),
                    ]),
                )]),
            )]),
        ),
        ("schema", n("1")),
    ]);
    let found = db_find_installed_pkgname_by_selector(&db, &Selector::parse("hello-app(stable)")).expect("must match");
    assert_eq!(found, "hello");
    let miss = db_find_installed_pkgname_by_selector(&db, &Selector::parse("hello-app(dev)"));
    assert!(miss.is_none());
}

#[test]
fn helpers_normalize_uname_maps_common_values() {
    assert_eq!(normalize_uname("x86_64"), "amd64");
    assert_eq!(normalize_uname("aarch64"), "arm64");
    assert_eq!(normalize_uname("mips"), "mips");
}

#[test]
fn platform_normalize_uname_maps_common_values() {
    assert_eq!(normalize_uname("x86_64"), "amd64");
    assert_eq!(normalize_uname("aarch64"), "arm64");
    assert_eq!(normalize_uname("mips"), "mips");
}

#[test]
fn mod_sanitize_cache_filename_keeps_extension() {
    let value = sanitize_cache_filename("hello package", 1, 2);
    assert!(value.ends_with(".pkg.tar.gz"));
    assert!(!value.contains(' '));
}

#[test]
fn install_sanitize_cache_filename_keeps_extension() {
    let value = sanitize_cache_filename("hello package", 1, 2);
    assert!(value.ends_with(".pkg.tar.gz"));
    assert!(!value.contains(' '));
}

#[test]
fn sanitize_cache_filename_preserves_valid_chars() {
    let value = sanitize_cache_filename("test-1.0_beta+2.pkg.tar.gz", 1, 2);
    assert_eq!(value, "test-1.0_beta+2.pkg.tar.gz");
}

#[test]
fn sanitize_cache_filename_falls_back_to_time_and_pid() {
    assert_eq!(sanitize_cache_filename("", 1700, 42), "remote-1700-42.pkg.tar.gz");
}

#[test]
fn parse_manifest_repeatable() {
    let text = "\n        pkgname = hello\n        app = hello\n        app = luci-app-hello\n        # comment\n        ";
    let manifest = Manifest::from_text(text);
    assert_eq!(manifest.get_first("pkgname"), "hello");
    assert_eq!(manifest.get_array("app"), strings(&["hello", "luci-app-hello"]));
}

#[test]
fn parse_manifest_selector() {
    let text = "\n        pkgname = hello\n        appname = hello\n        branch = stable\n        ";
    let manifest = Manifest::from_text(text);
    assert_eq!(manifest.canonical_selector("hello"), "hello(stable)");
}

#[test]
fn manifest_print_reads_back() {
    let text = "  # header\npkgname = hello\napp = a # first\n\napp = b = c\n  empty =   \nno equals here\n = orphan\n";
    let first = Manifest::from_text(text);
    let printed = first.to_pretty_text();
    assert_eq!(printed, "app = a\napp = b = c\nempty = \npkgname = hello\n");
    let second = Manifest::from_text(&printed);
    assert_eq!(second.to_pretty_text(), printed);
    for key in ["app", "empty", "pkgname", "missing"] {
        assert_eq!(second.get_array(key), first.get_array(key));
    }
    assert_eq!(second.get_array("app"), strings(&["a", "b = c"]));
}

#[test]
fn manifest_as_json_text() {
    let m = Manifest::from_text("b = 2\na = x\na = \"y\"\n");
    assert_eq!(m.to_string(), Ok("{\"a\":[\"x\",\"\\\"y\\\"\"],\"b\":\"2\"}".to_string()));
}
