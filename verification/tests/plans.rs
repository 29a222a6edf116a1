use pica::json::JsonValue;
use pica::pica_pack::backend::BuildBackend;
use pica::pica_pack::index::{index_entry, index_manifest, index_with, IndexPackage, PackageIndex};
use pica::pica_pkg_cli::deploy::hook_copy_plan;
use pica::pica_pkg_cli::pipeline::{dependency_plan, dependency_stages, kmods_to_install, DependencyStage};

fn strings(items: &[&str]) -> Vec<String> {
    items.iter().map(|s| s.to_string()).collect()
}

fn entries(v: &JsonValue) -> Vec<(String, String)> {
    match v {
        JsonValue::Object(es) => es
            .iter()
            .map(|(k, v)| match v {
                JsonValue::String(s) => (k.clone(), s.clone()),
                other => panic!("unexpected value {other:?}"),
            })
            .collect(),
        other => panic!("expected an object, got {other:?}"),
    }
}

fn pair(k: &str, v: &str) -> (String, String) {
    (k.to_string(), v.to_string())
}

fn built(filename: &str, sha: &str) -> IndexPackage {
    index_entry(
        "hello",
        "1.0.0",
        "1",
        "all",
        "all",
        filename,
        sha,
        "",
        "pkgname = hello\nappname = hello\npkgver = 1.0.0\npkgrel = 1\nos = linux\n",
        BuildBackend::Apk,
    )
}

#[test]
fn hook_plan_copies_kept_hooks_and_keeps_the_directory() {
    let items = vec![("cmd/install".to_string(), true), ("cmd/remove".to_string(), false)];
    let plan = hook_copy_plan(&items, &vec![true, true]);
    assert_eq!(plan.copies, strings(&["cmd/install"]));
    assert!(plan.missing.is_none());
    assert!(!plan.remove_dir);
    assert!(plan.failure().is_none());
}

#[test]
fn hook_plan_removes_the_directory_when_nothing_is_kept() {
    let items = vec![("cmd/install".to_string(), false)];
    let plan = hook_copy_plan(&items, &vec![true]);
    assert!(plan.copies.is_empty());
    assert!(plan.remove_dir);
}

#[test]
fn hook_plan_stops_at_a_missing_script() {
    let items = vec![
        ("cmd/install".to_string(), true),
        ("cmd/update".to_string(), true),
        ("cmd/remove".to_string(), true),
    ];
    let plan = hook_copy_plan(&items, &vec![true, false, true]);
    assert_eq!(plan.copies, strings(&["cmd/install"]));
    assert_eq!(plan.missing.as_deref(), Some("cmd/update"));
    assert!(!plan.remove_dir);
    let e = plan.failure().unwrap();
    assert_eq!(e.code, "E_PACKAGE_INVALID");
    assert_eq!(e.message, "cmd script not found in package: cmd/update");
}

#[test]
fn dependency_plan_drops_empty_names_and_needs_opkg() {
    let kmods = strings(&["kmod-tun", "", "kmod-nft"]);
    let base = strings(&["", "curl"]);
    let apps = strings(&["hello", ""]);
    let plan = dependency_plan("opkg", &kmods, &base, apps.clone()).unwrap();
    assert_eq!(plan.kmods, strings(&["kmod-tun", "kmod-nft"]));
    assert_eq!(plan.base, strings(&["curl"]));
    assert_eq!(plan.apps, apps);
    assert!(dependency_plan("apk", &kmods, &base, apps).is_none());
}

#[test]
fn dependency_stages_run_kmods_then_base_then_apps() {
    assert_eq!(
        dependency_stages(),
        vec![
            DependencyStage::UpdateLists,
            DependencyStage::Precheck,
            DependencyStage::Kmods,
            DependencyStage::Base,
            DependencyStage::Apps,
        ]
    );
}

#[test]
fn only_missing_kernel_modules_are_installed() {
    let kmods = strings(&["kmod-tun", "kmod-nft", "kmod-wg"]);
    assert_eq!(kmods_to_install(&kmods, &vec![true, false, false]), strings(&["kmod-nft", "kmod-wg"]));
    assert!(kmods_to_install(&kmods, &vec![true, true, true]).is_empty());
}

#[test]
fn index_manifest_takes_key_value_lines_and_the_backend() {
    let m = index_manifest("pkgname = hello\nbroken line\nempty =\n = x\nos = linux\nos = openwrt\npkgmgr = opkg\n", BuildBackend::Apk);
    assert_eq!(
        entries(&m),
        vec![pair("os", "openwrt"), pair("pkgmgr", "apk"), pair("pkgname", "hello")]
    );
}

#[test]
fn index_entry_carries_the_build() {
    let e = index_entry("hello", "1.0.0", "1", "x86_64", "amd64", "hello.pkg.tar.gz", "ab", "0.2.0", "a = b\n", BuildBackend::Opkg);
    assert_eq!(e.pkgname, "hello");
    assert_eq!(e.platform, "x86_64");
    assert_eq!(e.arch, "amd64");
    assert_eq!(e.sha256, "ab");
    assert_eq!(e.appname.as_deref(), Some("hello"));
    assert_eq!(e.pica.as_deref(), Some("0.2.0"));
    assert!(e.branch.is_none() && e.download_url.is_none());
    assert_eq!(entries(e.manifest.as_ref().unwrap()), vec![pair("a", "b"), pair("pkgmgr", "opkg")]);
    assert!(built("x", "y").pica.is_none());
}

#[test]
fn backend_index_replaces_the_entry_of_the_same_file() {
    let file = "hello-1.0.0-1-all-apk.pkg.tar.gz";
    let first = index_with(PackageIndex::empty(), built(file, &"1".repeat(64)));
    assert_eq!(first.schema, 1);
    assert_eq!(first.packages.len(), 1);
    let with_other = index_with(first, built("other.pkg.tar.gz", "x"));
    let replaced = index_with(with_other, built(file, &"2".repeat(64)));
    assert_eq!(replaced.packages.len(), 2);
    assert_eq!(replaced.packages[0].filename, "other.pkg.tar.gz");
    assert_eq!(replaced.packages[1].filename, file);
    assert_eq!(replaced.packages[1].sha256, "2".repeat(64));
}
