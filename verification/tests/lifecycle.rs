use pica::json::JsonValue;
use pica::pica_cli::helpers::{release_target, unquote_shell_value};
use pica::pica_cli::install::install_pica_from_repo;
use pica::pica_cli::lock::lock_exists_error;
use pica::pica_cli::steps;
use pica::pica_cli::remove::{remove_steps, run_cmd_install_tree as tree_cmd, TreeCommand};
use pica::pica_pkg_cli::feed::FeedInstall;
use pica::pica_cli::size::size_human_text;
use pica::pica_pkg_cli::helpers::required_manifest_field;
use pica::pica_pkg_cli::install::{pkg_source, plan_download, DownloadFields, PkgSource};
use pica::pica_pkg_cli::lifecycle::{remove_plan, upgrade_target};
use pica::pica_pkg_cli::state::{db_del_installed, db_find_installed_pkgname_by_selector, db_has_installed, db_set_installed};
use pica::pica_core::selector::Selector;
use pica::pica_pkg_cli::pipeline::parse_bool_like;
use pica::pica_pkg_cli::pkgmgr::apk::valid_package_name;
use pica::pica_pkg_cli::types::{
    env_lookup, error_payload_text, join_path, success_payload_text, E_ARG_INVALID, E_CONFIG_INVALID,
    E_REPO_INVALID, E_VERSION_INCOMPATIBLE,
};
use pica::pica_pkg_core::manifest::Manifest;
use pica::pica_pkg_core::version::compare_dot_numeric;
use pica::strset::{sort_texts, sorted_unique};
use pica::text::Order;
use pica::pica_pkg_cli::deploy::{deployed_files, install_stages, InstallStage};

fn strings(items: &[&str]) -> Vec<String> {
    items.iter().map(|s| s.to_string()).collect()
}

fn chars(s: &str) -> Vec<char> {
    s.chars().collect()
}

const SHA: &str = "0123456789abcdef0123456789abcdef0123456789abcdef0123456789abcdef";

fn cand(key: &str, file: &str) -> DownloadFields {
    DownloadFields {
        sort_key: key.to_string(),
        repo: "main".to_string(),
        url: "https://repo.example/pica//".to_string(),
        filename: file.to_string(),
        sha256: SHA.to_string(),
        pkgname: "hello".to_string(),
        min_pica: None,
        download_url: None,
    }
}

#[test]
fn upgrade_target_picks_the_newest_in_any_order() {
    let vers = strings(&["1.2.0-1", "1.10.0-1", "1.9.9-3", "1.10.0-0"]);
    assert_eq!(upgrade_target("1.2.0-1", &vers), Some("1.10.0-1".to_string()));
    let reordered = strings(&["1.10.0-0", "1.10.0-1", "1.9.9-3", "1.2.0-1"]);
    assert_eq!(upgrade_target("1.2.0-1", &reordered), Some("1.10.0-1".to_string()));
    assert_eq!(upgrade_target("1.10.0-1", &vers), None);
    assert_eq!(upgrade_target("2.0-1", &vers), None);
    assert_eq!(upgrade_target("1.0", &Vec::new()), None);
}

#[test]
fn plan_download_takes_the_newest_candidate() {
    let cands = vec![
        cand("1.0.0-1", "hello-1.0.0-1-all.pkg.tar.gz"),
        cand("1.0.0-3", "hello-1.0.0-3-all.pkg.tar.gz"),
        cand("0.9.0-9", "hello-0.9.0-9-all.pkg.tar.gz"),
    ];
    let d = plan_download(&cands, "hello", "0.0.4").ok().unwrap();
    assert_eq!(d.filename, "hello-1.0.0-3-all.pkg.tar.gz");
    assert_eq!(d.sort_key, "1.0.0-3");
    assert_eq!(d.download_url, "https://repo.example/pica/packages/hello-1.0.0-3-all.pkg.tar.gz");
}

#[test]
fn plan_download_reports_each_refusal() {
    let err = plan_download(&Vec::new(), "nope", "0.0.4").err().unwrap();
    assert_eq!(err.code, E_CONFIG_INVALID);
    assert_eq!(err.message, "package not found in pica repos: nope");

    let mut old = cand("1.0-1", "a.pkg.tar.gz");
    old.min_pica = Some("0.1.0".to_string());
    let err = plan_download(&vec![old], "a", "0.0.4").err().unwrap();
    assert_eq!(err.code, E_VERSION_INCOMPATIBLE);
    assert_eq!(err.message, "pica too old: pkg requires >= 0.1.0, cli is 0.0.4");

    let err = plan_download(&vec![cand("1.0-1", "../a.pkg.tar.gz")], "a", "0.0.4").err().unwrap();
    assert_eq!(err.code, E_REPO_INVALID);
    assert_eq!(err.message, "main: invalid filename: ../a.pkg.tar.gz");

    let mut bad_sum = cand("1.0-1", "a.pkg.tar.gz");
    bad_sum.sha256 = "xyz".to_string();
    let err = plan_download(&vec![bad_sum], "a", "0.0.4").err().unwrap();
    assert_eq!(err.message, "main: invalid sha256 for hello");

    let mut ftp = cand("1.0-1", "a.pkg.tar.gz");
    ftp.download_url = Some("ftp://x/a.pkg.tar.gz".to_string());
    let err = plan_download(&vec![ftp], "a", "0.0.4").err().unwrap();
    assert_eq!(err.message, "main: invalid download_url for hello: ftp://x/a.pkg.tar.gz");

    let mut direct = cand("1.0-1", "a.pkg.tar.gz");
    direct.download_url = Some("https://cdn.example/a.pkg.tar.gz".to_string());
    let d = plan_download(&vec![direct], "a", "0.0.4").ok().unwrap();
    assert_eq!(d.download_url, "https://cdn.example/a.pkg.tar.gz");
}

fn db_with(manifest: Vec<(String, JsonValue)>) -> JsonValue {
    let entry = JsonValue::Object(vec![("manifest".to_string(), JsonValue::Object(manifest))]);
    JsonValue::Object(vec![(
        "installed".to_string(),
        JsonValue::Object(vec![("hello".to_string(), entry)]),
    )])
}

fn hello_manifest() -> Vec<(String, JsonValue)> {
    vec![
        (
            "app".to_string(),
            JsonValue::Array(vec![
                JsonValue::String("luci-app-hello".to_string()),
                JsonValue::String(" hello ".to_string()),
                JsonValue::String("  ".to_string()),
                JsonValue::String("hello".to_string()),
            ]),
        ),
        ("app_i18n".to_string(), JsonValue::String("luci-i18n-hello-{lang}".to_string())),
        ("cmd_remove".to_string(), JsonValue::String("cmd/remove".to_string())),
    ]
}

#[test]
fn remove_plan_lists_apps_and_translation() {
    let plan = remove_plan(&db_with(hello_manifest()), "hello", "zh-cn").ok().unwrap();
    assert_eq!(plan.remove_set, strings(&["hello", "luci-app-hello", "luci-i18n-hello-zh-cn"]));
    assert_eq!(plan.remove_target, "hello/cmd/remove");
    assert_eq!(plan.pkgmgr, "opkg");
    let plan = remove_plan(&db_with(hello_manifest()), "hello", "en").ok().unwrap();
    assert_eq!(plan.remove_set, strings(&["hello", "luci-app-hello"]));
    let err = remove_plan(&db_with(Vec::new()), "other", "zh-cn").err().unwrap();
    assert_eq!(err.code, E_ARG_INVALID);
    assert_eq!(err.message, "not installed: other");
}

#[test]
fn package_source_is_local_remote_or_refused() {
    match pkg_source("/tmp/a.pkg.tar.gz", true, 1, 2).ok().unwrap() {
        PkgSource::Local(p) => assert_eq!(p, "/tmp/a.pkg.tar.gz"),
        _ => panic!("expected a local file"),
    }
    match pkg_source("https://x.example/dl/hello pkg", false, 1, 2).ok().unwrap() {
        PkgSource::Remote { url, cached_name } => {
            assert_eq!(url, "https://x.example/dl/hello pkg");
            assert_eq!(cached_name, "hello_pkg.pkg.tar.gz");
        }
        _ => panic!("expected a download"),
    }
    let err = pkg_source("missing.pkg.tar.gz", false, 1, 2).err().unwrap();
    assert_eq!(err.code, E_CONFIG_INVALID);
}

#[test]
fn shell_values_and_release_target() {
    assert_eq!(unquote_shell_value("  'ramips/mt7621' "), "ramips/mt7621");
    assert_eq!(unquote_shell_value("\"x86/64\""), "x86/64");
    assert_eq!(unquote_shell_value("\"half"), "\"half");
    let text = "DISTRIB_ID='OpenWrt'\n  DISTRIB_TARGET='mediatek/filogic'\nDISTRIB_TARGET='second'\n";
    assert_eq!(release_target(text), Some("mediatek/filogic".to_string()));
    assert_eq!(release_target("DISTRIB_ID='OpenWrt'\n"), None);
}

#[test]
fn manifest_field_helpers() {
    let m = Manifest::from_text("pkgname = hello\ntype = cli\ntype = luci\nempty =\n");
    assert!(m.has_type("luci"));
    assert!(!m.has_type("lua"));
    assert_eq!(m.require_non_empty("pkgname"), Ok("hello".to_string()));
    assert_eq!(m.require_non_empty("empty"), Err("manifest missing empty".to_string()));
    let err = required_manifest_field(&m, "pkgver").err().unwrap();
    assert_eq!(err.code, E_CONFIG_INVALID);
    assert_eq!(err.message, "manifest missing pkgver");
    assert_eq!(required_manifest_field(&m, "pkgname").ok().unwrap(), "hello");
    let d = m.with_source_default("pica").with_selector_defaults("hello");
    assert_eq!(d.get_first("source"), "pica");
    assert_eq!(d.get_first("branch"), "");
    assert_eq!(d.get_array("type"), strings(&["cli", "luci"]));
    let kept = Manifest::from_text("source = opkg\nbranch = dev\n").with_source_default("pica");
    assert_eq!(kept.get_first("source"), "opkg");
}

#[test]
fn small_parsers() {
    assert_eq!(parse_bool_like(" Yes "), Some(true));
    assert_eq!(parse_bool_like("off"), Some(false));
    assert_eq!(parse_bool_like("maybe"), None);
    assert!(valid_package_name("luci-app-x_1.2+b"));
    assert!(!valid_package_name("-bad"));
    assert!(!valid_package_name("a/b"));
    assert_eq!(compare_dot_numeric(&chars("1.10"), &chars("1.9.9")), Some(Order::Greater));
    assert_eq!(compare_dot_numeric(&chars("1.0.0"), &chars("1")), Some(Order::Equal));
    assert_eq!(compare_dot_numeric(&chars("1.0a"), &chars("1")), None);
    assert_eq!(size_human_text(1536), "1.50 KiB");
    assert_eq!(size_human_text(12), "12 B");
}

#[test]
fn names_sort_and_dedup() {
    let raw = strings(&["b", "a", "c", "a"]);
    assert_eq!(sorted_unique(&raw), strings(&["a", "b", "c"]));
    assert_eq!(sort_texts(raw), strings(&["a", "a", "b", "c"]));
}

#[test]
fn paths_environment_and_payloads() {
    assert_eq!(join_path("/var/lib/pica", "db.json"), "/var/lib/pica/db.json");
    assert_eq!(join_path("/var/lib/pica/", "db.json"), "/var/lib/pica/db.json");
    assert_eq!(join_path("", "db.json"), "db.json");
    let vars = vec![("A".to_string(), "1".to_string()), ("A".to_string(), "2".to_string())];
    assert_eq!(env_lookup(&vars, "A"), Some("1".to_string()));
    assert_eq!(env_lookup(&vars, "B"), None);
    assert_eq!(success_payload_text("-S", "a\"b"), "{\"command\":\"-S\",\"ok\":true,\"target\":\"a\\\"b\"}");
    assert_eq!(
        error_payload_text("E_IO", "bad\nline", "install"),
        "{\"code\":\"E_IO\",\"message\":\"bad\\nline\",\"ok\":false,\"phase\":\"install\"}"
    );
    let e = lock_exists_error("/var/lib/pica/db.lck.d");
    assert_eq!(e.message, "cannot lock pica database: /var/lib/pica/db.lck.d exists");
}

fn selector(appname: &str, branch: &str) -> Selector {
    Selector {
        raw: String::new(),
        norm: String::new(),
        appname: appname.to_string(),
        version: String::new(),
        branch: branch.to_string(),
    }
}

#[test]
fn recorded_install_is_found_and_removed() {
    let mut db = JsonValue::Object(Vec::new());
    let manifest = JsonValue::Object(vec![
        ("appname".to_string(), JsonValue::String("hello-app".to_string())),
        ("branch".to_string(), JsonValue::String("stable".to_string())),
    ]);
    db_set_installed(&mut db, "hello", manifest, "/tmp/hello.pkg.tar.gz", &strings(&["/usr/bin/hello"]), 5)
        .ok()
        .unwrap();
    assert!(db_has_installed(&db, "hello"));
    assert_eq!(db_find_installed_pkgname_by_selector(&db, &selector("hello", "")), Some("hello".to_string()));
    assert_eq!(
        db_find_installed_pkgname_by_selector(&db, &selector("hello-app", "stable")),
        Some("hello".to_string())
    );
    assert_eq!(db_find_installed_pkgname_by_selector(&db, &selector("hello-app", "dev")), None);
    db_del_installed(&mut db, "hello").ok().unwrap();
    assert!(!db_has_installed(&db, "hello"));
    assert_eq!(db_find_installed_pkgname_by_selector(&db, &selector("hello", "")), None);
}

#[test]
fn plan_download_orders_other_versions_token_by_token() {
    let cands = vec![cand("1.2b", "a-1.2b.pkg.tar.gz"), cand("1.10b", "a-1.10b.pkg.tar.gz")];
    let d = plan_download(&cands, "a", "0.0.4").ok().unwrap();
    assert_eq!(d.sort_key, "1.10b");
}

fn index_entry(pkgver: &str, file: &str) -> JsonValue {
    JsonValue::Object(vec![
        ("filename".to_string(), JsonValue::String(file.to_string())),
        ("pkgname".to_string(), JsonValue::String("hello".to_string())),
        ("pkgrel".to_string(), JsonValue::String("1".to_string())),
        ("pkgver".to_string(), JsonValue::String(pkgver.to_string())),
        ("sha256".to_string(), JsonValue::String(SHA.to_string())),
    ])
}

#[test]
fn repository_tool_takes_its_newest_candidate() {
    let repo = JsonValue::Object(vec![
        (
            "data".to_string(),
            JsonValue::Object(vec![(
                "packages".to_string(),
                JsonValue::Array(vec![
                    index_entry("1.10b", "hello-1.10b-1.pkg.tar.gz"),
                    index_entry("1.2b", "hello-1.2b-1.pkg.tar.gz"),
                ]),
            )]),
        ),
        ("url".to_string(), JsonValue::String("https://r.example/".to_string())),
    ]);
    let index = JsonValue::Object(vec![(
        "repos".to_string(),
        JsonValue::Object(vec![("main".to_string(), repo)]),
    )]);
    let d = install_pica_from_repo(&index, "hello", "x86_64", "0.0.4").ok().unwrap();
    assert_eq!(d.sort_key, "1.10b-1");
    assert_eq!(d.download_url, "https://r.example/packages/hello-1.10b-1.pkg.tar.gz");
    let err = install_pica_from_repo(&index, "other", "x86_64", "0.0.4").err().unwrap();
    assert_eq!(err.message, "package not found in pica repos: other");
    let empty = JsonValue::Object(Vec::new());
    assert_eq!(install_pica_from_repo(&empty, "hello", "x86_64", "0.0.4").err().unwrap().message, "missing index: run 'pica -S' first");
}

#[test]
fn repository_tool_steps_report_runtime_errors() {
    let m = Manifest::from_text("pkgname = hello\n");
    let err = steps::required_manifest_field(&m, "pkgver").err().unwrap();
    assert_eq!(err.code, "E_RUNTIME");
    assert_eq!(err.message, "manifest missing pkgver");
    assert_eq!(steps::required_manifest_field(&m, "pkgname").ok().unwrap(), "hello");
    let err = steps::package_fields(&m).err().unwrap();
    assert_eq!(err.code, "E_RUNTIME");
    assert_eq!(err.message, "manifest missing appname");
    let full = Manifest::from_text("pkgname = a\nappname = a\npkgver = 1.0\npkgrel = 2\nplatform = all\nos = linux\narch = all\n");
    let fields = steps::package_fields(&full).ok().unwrap();
    assert_eq!(fields.pkgver_display, "1.0-2");
    assert_eq!(fields.pkgmgr, "opkg");

    assert!(matches!(steps::run_hook("", "install", false), Ok(steps::HookStep::Skip)));
    let err = steps::run_hook("cmd/install", "install", false).err().unwrap();
    assert_eq!(err.code, "E_RUNTIME");
    assert_eq!(err.message, "install hook not found: cmd/install");
    match steps::run_hook("cmd/install", "install", true) {
        Ok(steps::HookStep::Run(line)) => assert_eq!(line, "Running install hook: cmd/install"),
        _ => panic!("expected a hook run"),
    }

    let err = steps::install_via_feeds_or_ipk("base", &[], "/none", false, 0).err().unwrap();
    assert_eq!(err.code, "E_RUNTIME");
    assert_eq!(err.message, "base not available in feeds and no packaged ipks provided");
    let err = steps::install_via_feeds_or_ipk("base", &[], "/none", false, 1).err().unwrap();
    assert_eq!(err.message, "base packages not defined in manifest");
    let err = steps::install_via_feeds_or_ipk("base", &[], "/none", false, -1).err().unwrap();
    assert_eq!(err.code, "E_POLICY_INVALID");
    match steps::install_via_feeds_or_ipk("base", &strings(&["a", "", "b"]), "/none", false, 1) {
        Ok(FeedInstall::Feeds(v)) => assert_eq!(v, strings(&["a", "b"])),
        _ => panic!("expected feed names"),
    }
    match steps::install_via_feeds_or_ipk("base", &[], "/pkg/depend", true, 0) {
        Ok(FeedInstall::IpkDir(d)) => assert_eq!(d, "/pkg/depend"),
        _ => panic!("expected the bundled directory"),
    }
}

#[test]
fn repository_tool_repos_configuration() {
    let none = JsonValue::Object(vec![("repos".to_string(), JsonValue::Array(Vec::new()))]);
    let err = steps::configured_repos(&none, "/etc/pica/pica.json").err().unwrap();
    assert_eq!(err.code, "E_RUNTIME");
    assert_eq!(err.message, "no repos configured in /etc/pica/pica.json");
    let repo = |name: &str, url: &str| {
        JsonValue::Object(vec![
            ("name".to_string(), JsonValue::String(name.to_string())),
            ("url".to_string(), JsonValue::String(url.to_string())),
        ])
    };
    let bad = JsonValue::Object(vec![(
        "repos".to_string(),
        JsonValue::Array(vec![repo("main", "https://a"), repo(" ", "https://b")]),
    )]);
    let err = steps::configured_repos(&bad, "c").err().unwrap();
    assert_eq!(err.code, "E_CONFIG_INVALID");
    assert_eq!(err.message, "repo[1] missing name");
    let good = JsonValue::Object(vec![(
        "repos".to_string(),
        JsonValue::Array(vec![repo(" main ", " https://a/ ")]),
    )]);
    let repos = steps::configured_repos(&good, "c").ok().unwrap();
    assert_eq!(repos.len(), 1);
    assert_eq!(repos[0].name, "main");
    assert_eq!(repos[0].url, "https://a/");
}

#[test]
fn repository_tool_removes_listed_packages() {
    let m = vec![
        ("cmd".to_string(), JsonValue::Array(vec![JsonValue::String("hello".to_string()), JsonValue::String(String::new())])),
        ("cmd_remove".to_string(), JsonValue::String("cmd/remove".to_string())),
        (
            "opkg".to_string(),
            JsonValue::Array(vec![
                JsonValue::String("luci-app-hello".to_string()),
                JsonValue::String("hello".to_string()),
                JsonValue::Number("3".to_string()),
            ]),
        ),
    ];
    let steps = remove_steps(&db_with(m), "hello").ok().unwrap();
    assert_eq!(steps.remove_target, "hello/cmd/remove");
    assert_eq!(steps.cmd_files, strings(&["/usr/bin/hello"]));
    assert_eq!(steps.opkg_names, strings(&["luci-app-hello", "hello"]));
    let bare = remove_steps(&db_with(Vec::new()), "hello").ok().unwrap();
    assert_eq!(bare.remove_target, "hello/");
    let err = remove_steps(&db_with(Vec::new()), "other").err().unwrap();
    assert_eq!(err.code, "E_RUNTIME");
    assert_eq!(err.message, "not installed: other");

    assert!(matches!(tree_cmd("", "remove", false), Ok(TreeCommand::Skip)));
    let err = tree_cmd("hello/", "remove", false).err().unwrap();
    assert_eq!(err.message, "remove cmd not found: hello/ (expected at /usr/lib/pica/cmd/hello/)");
    match tree_cmd("/opt/x", "remove", true) {
        Ok(TreeCommand::Run { path, line }) => {
            assert_eq!(path, "/opt/x");
            assert_eq!(line, "Running remove cmd: /opt/x");
        }
        _ => panic!("expected a run"),
    }
}

#[test]
fn deployed_files_follow_the_install_layout() {
    let files = deployed_files("hello", &strings(&["hello", ".env", "helloctl"]), true, true, &strings(&["cmd/remove"]));
    assert_eq!(
        files,
        strings(&[
            "/usr/bin/hello",
            "/usr/bin/helloctl",
            "/usr/lib/pica/src/hello",
            "/etc/pica/env.d/hello.env",
            "/usr/lib/pica/cmd/hello/cmd/remove",
        ])
    );
    assert_eq!(deployed_files("a", &Vec::new(), false, false, &Vec::new()), Vec::<String>::new());
    let stages = install_stages();
    assert_eq!(stages.len(), 7);
    assert_eq!(stages[0], InstallStage::ReadPackage);
    assert_eq!(stages[2], InstallStage::CheckHost);
    assert_eq!(stages[6], InstallStage::Record);
}
