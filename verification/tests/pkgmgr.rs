use pica::pica_pkg_cli::pkgmgr::apk;
use pica::pica_pkg_cli::pkgmgr::opkg;
use pica::pica_pkg_cli::pkgmgr::{detect_package_manager, package_manager_for, PackageManagerKind};

#[test]
fn parses_apk_name_version() {
    assert_eq!(apk::parse_package_version("luci-1.2.3\n", "luci"), Some("1.2.3".into()));
    assert_eq!(apk::parse_package_version("luci-2:1.2.3-r0\n", "luci"), Some("2:1.2.3-r0".into()));
}

#[test]
fn parses_apk_name_with_hyphens() {
    assert_eq!(apk::package_name_from_installed_line("luci-app-test-1.2.3"), Some("luci-app-test".into()));
    assert_eq!(
        apk::package_name_from_installed_line("luci-app-test-1.2.3-r0 [installed]"),
        Some("luci-app-test".into())
    );
}

#[test]
fn rejects_empty_apk_name_version() {
    assert_eq!(apk::parse_package_version("luci-\n", "luci"), None);
    assert_eq!(apk::package_name_from_installed_line(""), None);
}

#[test]
fn parses_supported_package_manager_kinds() {
    assert_eq!(PackageManagerKind::parse("opkg"), Some(PackageManagerKind::Opkg));
    assert_eq!(PackageManagerKind::parse(" APK "), Some(PackageManagerKind::Apk));
    assert_eq!(PackageManagerKind::parse("none"), None);
    assert_eq!(PackageManagerKind::Apk.as_str(), "apk");
}

#[test]
fn package_manager_kind_names_parse_back() {
    for kind in [PackageManagerKind::Opkg, PackageManagerKind::Apk] {
        assert_eq!(PackageManagerKind::parse(kind.as_str()), Some(kind));
    }
}

#[test]
fn detection_prefers_apk() {
    assert_eq!(detect_package_manager(true, true), Some(PackageManagerKind::Apk));
    assert_eq!(detect_package_manager(false, true), Some(PackageManagerKind::Opkg));
    assert_eq!(detect_package_manager(false, false), None);
    assert_eq!(package_manager_for(PackageManagerKind::Opkg, false), None);
}

#[test]
fn detects_opkg_lock_errors() {
    assert!(opkg::is_opkg_lock_error("Could not lock /var/lock/opkg.lock"));
    assert!(opkg::is_opkg_lock_error("Cannot lock package database"));
    assert!(!opkg::is_opkg_lock_error("wget: bad address"));
}

#[test]
fn read_opkg_lock_pid_extracts_numeric_token() {
    assert_eq!(opkg::read_opkg_lock_pid("pid: 1234\n"), Some(1234));
    assert_eq!(opkg::read_opkg_lock_pid("nonsense"), None);
    assert_eq!(opkg::read_opkg_lock_pid("0 99999999999 42"), Some(42));
}

#[test]
fn apk_install_command_separates_local_files_and_package_names() {
    let local = apk::install_command("demo.apk", Some("/tmp/x/demo.apk")).expect("local command");
    assert_eq!(local, vec!["add", "--allow-untrusted", "--", "/tmp/x/demo.apk"]);
    let remote = apk::install_command("luci-app-demo", None).expect("package command");
    assert_eq!(remote, vec!["add", "--", "luci-app-demo"]);
    assert!(apk::install_command("missing.apk", None).is_err());
    assert!(apk::install_command("MISSING.APK", None).is_err());
    assert!(apk::install_command("-bad", None).is_err());
}

#[test]
fn apk_snapshot_sorts_and_dedups() {
    let names = apk::snapshot_from_listing("zlib-1.3-r0\nbusybox-1.36.1-r2 [installed]\nzlib-1.3-r0\n\n");
    assert_eq!(names, vec!["busybox", "zlib"]);
}

#[test]
fn opkg_snapshot_and_arches() {
    let names = opkg::snapshot_from_listing("zlib - 1.3\nbusybox - 1.36\nzlib - 1.3\nbroken line\n");
    assert_eq!(names, vec!["busybox", "zlib"]);
    let arches = opkg::architectures_from("arch all 1\narch noarch 1\narch mipsel_24kc 10\nother x\n");
    assert_eq!(arches, vec!["all", "noarch", "mipsel_24kc"]);
}

#[test]
fn opkg_status_reading() {
    let status = "Package: luci\nVersion: 1.0-2 \nStatus: install user installed\n";
    assert!(opkg::is_installed_from_status(status));
    assert_eq!(opkg::installed_version_from_status(status), Some("1.0-2".into()));
    assert!(!opkg::is_installed_from_status("Package: luci\n"));
    assert!(opkg::package_exists_from_output("Package: luci\n", ""));
    assert!(!opkg::package_exists_from_output("", "Unknown package 'x'"));
    assert!(!opkg::package_exists_from_output("  ", ""));
}

#[test]
fn install_failures_report_storage_full() {
    let err = opkg::install_failure("app", "foo", "write: No space left on device");
    assert_eq!(err.code, "E_NO_SPACE");
    assert_eq!(err.message, "app install failed: foo (storage-full). detail=[write: No space left on device]");
    let err = opkg::install_failure("app", "foo", "bad");
    assert_eq!(err.code, "E_OPKG_INSTALL");
    let err = apk::install_failure("app", "foo", "bad");
    assert_eq!(err.code, "E_RUNTIME");
    assert_eq!(err.message, "app install failed: foo detail=[bad]");
}
