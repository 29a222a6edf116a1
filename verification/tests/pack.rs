use pica::pica_pack::backend::{parse_targets, BuildBackend};
use pica::pica_pack::layout::{
    build_jobs, build_settings, collect_names, package_build_settings, package_file_name, pica_requirement,
    tar_items,
};
use pica::pica_pack::rewrite::{
    append_manifest_kv, digest_from_openssl, digest_from_sha256sum, file_digest, rewrite_manifest_for_build,
    rewrite_manifest_text, sha256sums_with_entry,
};
use pica::pica_pkg_core::manifest::Manifest;
use pica::pica_pack::cli::{parse_pack_args, PackCommand};
use pica::pica_pack::layout::{file_copy_rule, missing_backend_files, CopyRule};

fn strings(items: &[&str]) -> Vec<String> {
    items.iter().map(|s| s.to_string()).collect()
}

#[test]
fn parses_deduplicated_targets() {
    let apk_opkg = parse_targets(Some("apk,opkg,apk"), "").unwrap();
    assert_eq!(apk_opkg.len(), 2);
    assert!(apk_opkg[0] == BuildBackend::Apk && apk_opkg[1] == BuildBackend::Opkg);
    let default = parse_targets(None, "").unwrap();
    assert!(default.len() == 1 && default[0] == BuildBackend::Opkg);
    assert_eq!(BuildBackend::Apk.output_suffix(), "-apk");
}

#[test]
fn targets_reject_unknown_names() {
    let err = parse_targets(Some("opkg, RPM "), "").expect_err("unknown backend");
    assert_eq!(err, "unsupported package manager: rpm");
    let from_manifest = parse_targets(None, " none ,APK").unwrap();
    assert!(from_manifest[0] == BuildBackend::Plain && from_manifest[1] == BuildBackend::Apk);
}

fn rewrite_case(source: &str, pkgver: &str, pkgrel: &str, platform: &str, arch: &str) -> String {
    rewrite_manifest_for_build(source, pkgver, pkgrel, platform, arch)
}

#[test]
fn main_rewrite_manifest_for_build_replaces_runtime_fields() {
    let out = rewrite_case(
        "pkgname = hello\nplatform = old\narch = old\npkgver = 0.0.1\npkgrel = 1\nsize = 1\nbuilddate = 1\n",
        "1.2.3",
        "4",
        "all",
        "arm64",
    );
    assert!(out.contains("pkgname = hello"));
    assert!(out.contains("pkgver = 1.2.3"));
    assert!(out.contains("pkgrel = 4"));
    assert!(out.contains("platform = all"));
    assert!(out.contains("arch = arm64"));
    assert!(out.contains("builddate = "));
    assert!(!out.contains("size = 1"));
    assert!(!out.contains("platform = old"));
}

#[test]
fn main_rewrite_manifest_supports_legacy_pkgver_without_pkgrel() {
    let out = rewrite_case("pkgname = hello\npkgver = 0.1.0-7\nplatform = old\narch = old\n", "0.1.0", "7", "all", "all");
    assert!(out.contains("pkgver = 0.1.0"));
    assert!(out.contains("pkgrel = 7"));
    assert!(out.contains("platform = all"));
    assert!(out.contains("arch = all"));
    assert!(!out.contains("platform = old"));
}

#[test]
fn rewrite_rewrite_manifest_for_build_replaces_runtime_fields() {
    let out = rewrite_case(
        "pkgname = hello\nplatform = old\narch = old\npkgver = 0.0.1\npkgrel = 1\nsize = 1\nbuilddate = 1\n",
        "1.2.3",
        "4",
        "all",
        "arm64",
    );
    assert!(out.contains("pkgname = hello"));
    assert!(out.contains("pkgver = 1.2.3"));
    assert!(out.contains("pkgrel = 4"));
    assert!(out.contains("platform = all"));
    assert!(out.contains("arch = arm64"));
    assert!(out.contains("builddate = "));
    assert!(!out.contains("size = 1"));
    assert!(!out.contains("platform = old"));
}

#[test]
fn rewrite_rewrite_manifest_supports_legacy_pkgver_without_pkgrel() {
    let out = rewrite_case("pkgname = hello\npkgver = 0.1.0-7\nplatform = old\narch = old\n", "0.1.0", "7", "all", "all");
    assert!(out.contains("pkgver = 0.1.0"));
    assert!(out.contains("pkgrel = 7"));
    assert!(out.contains("platform = all"));
    assert!(out.contains("arch = all"));
    assert!(!out.contains("platform = old"));
}

#[test]
fn rewrite_keeps_comments_and_plain_lines_exactly() {
    let out = rewrite_manifest_text(
        "# size = 9\r\npkgname = hello\r\nnote without equals\n  uname = x\n",
        "1",
        "2",
        "ramips",
        "mipsel",
        1700000000,
    );
    assert_eq!(
        out,
        "# size = 9\npkgname = hello\nnote without equals\nbuilddate = 1700000000\npkgver = 1\npkgrel = 2\nplatform = ramips\narch = mipsel\n"
    );
}

#[test]
fn appended_size_line() {
    assert_eq!(append_manifest_kv("a = 1", "size", "10"), "a = 1\nsize = 10\n");
    assert_eq!(append_manifest_kv("a = 1\n", "size", "10"), "a = 1\nsize = 10\n");
    assert_eq!(append_manifest_kv("", "size", "10"), "\nsize = 10\n");
}

#[test]
fn checksum_list_replaces_the_entry_and_sorts() {
    let existing = "ffff  b.pkg.tar.gz\n0000  a.pkg.tar.gz  \ncccc  c.pkg.tar.gz\n";
    assert_eq!(
        sha256sums_with_entry(existing, "a.pkg.tar.gz", "9999"),
        "9999  a.pkg.tar.gz\ncccc  c.pkg.tar.gz\nffff  b.pkg.tar.gz\n"
    );
    assert_eq!(sha256sums_with_entry("", "x.pkg.tar.gz", "abcd"), "abcd  x.pkg.tar.gz\n");
}

#[test]
fn digests_from_command_output() {
    assert_eq!(digest_from_sha256sum("  abc123  /tmp/file\n"), Some("abc123".to_string()));
    assert_eq!(digest_from_sha256sum(" \n"), None);
    assert_eq!(digest_from_openssl("SHA2-256(/tmp/a= b)= deadbeef\n"), Some("deadbeef".to_string()));
    assert_eq!(digest_from_openssl("no marker"), None);
    assert_eq!(digest_from_openssl("x= \n"), None);
    assert_eq!(file_digest(None, Some("SHA256(f)= 12ab")), Ok("12ab".to_string()));
    assert_eq!(file_digest(Some("99 f"), Some("SHA256(f)= 12ab")), Ok("99".to_string()));
    assert_eq!(
        file_digest(None, None),
        Err("cannot compute sha256: need command 'sha256sum' or 'openssl'".to_string())
    );
}

#[test]
fn settings_split_legacy_release() {
    let m = Manifest::from_text("pkgname = hello\npkgver = 0.1.0-7\n");
    let s = build_settings(&m).expect("settings");
    assert_eq!((s.pkgver.as_str(), s.pkgrel.as_str()), ("0.1.0", "7"));
    assert_eq!((s.platform.as_str(), s.arch.as_str()), ("all", "all"));
    let plain = build_settings(&Manifest::from_text("pkgname = a\npkgver = 2\nplatform = x86\n")).unwrap();
    assert_eq!((plain.pkgver.as_str(), plain.pkgrel.as_str(), plain.platform.as_str()), ("2", "1", "x86"));
    let err = build_settings(&Manifest::from_text("pkgname = a\npkgver = 2-\n")).err().unwrap();
    assert_eq!(err, "manifest missing pkgrel");
    let err = build_settings(&Manifest::from_text("pkgver = 2\n")).err().unwrap();
    assert_eq!(err, "manifest missing pkgname");
}

#[test]
fn main_build_requires_os_field() {
    let m = Manifest::from_text(
        "pkgname = hello\nappname = hello\npkgver = 1.0.0\npkgrel = 1\nplatform = amd64\narch = x86_64\n",
    );
    let err = package_build_settings(&m, None).err().expect("missing os must fail");
    assert!(err.contains("manifest missing os"));
    let ok = Manifest::from_text("pkgname = hello\nappname = hello\npkgver = 1.0.0\nos = linux\npkgmgr = apk\n");
    let (settings, targets) = package_build_settings(&ok, None).expect("settings");
    assert_eq!(settings.pkgrel, "1");
    assert!(targets.len() == 1 && targets[0] == BuildBackend::Apk);
}

#[test]
fn package_names_and_contents() {
    assert_eq!(
        package_file_name("hello", "1.0.0", "1", "all", "all", BuildBackend::Apk),
        "hello-1.0.0-1-all-apk.pkg.tar.gz"
    );
    assert_eq!(
        package_file_name("hello", "1.0.0", "1", "mt7621", "arm", BuildBackend::Opkg),
        "hello-1.0.0-1-mt7621-arm.pkg.tar.gz"
    );
    assert_eq!(tar_items(true, false, false, true), strings(&["manifest", "cmd", "binary", "LICENSE"]));
    assert_eq!(pica_requirement(""), "Pica requires: (not specified)");
    assert_eq!(pica_requirement("0.5"), "Pica requires >= 0.5");
}

#[test]
fn main_matrix_detection_and_collection_work() {
    let platforms = collect_names(&vec![strings(&["x86", "mt7621"])]);
    assert_eq!(platforms, strings(&["mt7621", "x86"]));
    let archs = collect_names(&vec![strings(&["arm", "all"])]);
    assert_eq!(archs, strings(&["all", "arm"]));
}

#[test]
fn platform_matrix_detection_and_collection_work() {
    let platforms = collect_names(&vec![strings(&["mt7621", "x86"]), strings(&["x86"])]);
    assert_eq!(platforms, strings(&["mt7621", "x86"]));
    let archs = collect_names(&vec![strings(&["all", "arm"]), vec![]]);
    assert_eq!(archs, strings(&["all", "arm"]));
}

#[test]
fn jobs_cover_every_backend_and_matrix_cell() {
    let backends = vec![BuildBackend::Opkg, BuildBackend::Apk];
    let matrix = vec![("mt7621".to_string(), strings(&["all", "arm"])), ("x86".to_string(), strings(&["all"]))];
    let jobs = build_jobs(&backends, true, &matrix, "all", "all");
    let seen: Vec<(String, String, String)> = jobs
        .iter()
        .map(|j| (j.backend.as_str().to_string(), j.platform.clone(), j.arch.clone()))
        .collect();
    assert_eq!(seen.len(), 6);
    assert_eq!(seen[0], ("opkg".to_string(), "mt7621".to_string(), "all".to_string()));
    assert_eq!(seen[2], ("opkg".to_string(), "x86".to_string(), "all".to_string()));
    assert_eq!(seen[5], ("apk".to_string(), "x86".to_string(), "all".to_string()));
    let single = build_jobs(&backends, false, &matrix, "ramips", "mipsel");
    assert_eq!(single.len(), 2);
    assert_eq!((single[1].platform.as_str(), single[1].arch.as_str()), ("ramips", "mipsel"));
}

#[test]
fn pack_command_line() {
    let args = |items: &[&str]| strings(items);
    match parse_pack_args(&args(&["build", "stage", "--outdir", "a", "--outdir", "b"])).unwrap() {
        PackCommand::Build { staging_dir, outdir } => {
            assert_eq!(staging_dir, "stage");
            assert_eq!(outdir, Some("b".to_string()));
        }
        other => panic!("unexpected {other:?}"),
    }
    assert!(matches!(parse_pack_args(&args(&["build", "stage", "-h"])), Ok(PackCommand::Help)));
    assert!(matches!(parse_pack_args(&args(&["--version"])), Ok(PackCommand::Version)));
    assert_eq!(parse_pack_args(&args(&[])).err().unwrap(), "missing command");
    assert_eq!(parse_pack_args(&args(&["build"])).err().unwrap(), "build requires <staging_dir>");
    assert_eq!(parse_pack_args(&args(&["build", "s", "--outdir"])).err().unwrap(), "--outdir requires DIR");
    assert_eq!(parse_pack_args(&args(&["build", "s", "-x"])).err().unwrap(), "unknown arg: -x");
    assert_eq!(parse_pack_args(&args(&["pack"])).err().unwrap(), "unknown command: pack");
}

#[test]
fn backend_filter_keeps_shared_files_and_target_packages() {
    assert_eq!(file_copy_rule("shared.txt", BuildBackend::Apk), CopyRule::Copy);
    assert_eq!(file_copy_rule("one.apk", BuildBackend::Apk), CopyRule::CopyCounted);
    assert_eq!(file_copy_rule("one.ipk", BuildBackend::Apk), CopyRule::Skip);
    assert_eq!(file_copy_rule("ONE.IPK", BuildBackend::Opkg), CopyRule::CopyCounted);
    assert_eq!(file_copy_rule(".ipk", BuildBackend::Opkg), CopyRule::Copy);
    assert_eq!(file_copy_rule("one.ipk", BuildBackend::Plain), CopyRule::Copy);
    assert_eq!(
        missing_backend_files(0, true, BuildBackend::Apk, "/s"),
        Some("no .apk files found for apk backend in /s".to_string())
    );
    assert_eq!(missing_backend_files(0, false, BuildBackend::Apk, "/s"), None);
    assert_eq!(missing_backend_files(1, true, BuildBackend::Opkg, "/s"), None);
}
