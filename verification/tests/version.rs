use pica::pica_core::version as core_version;
use pica::pica_pkg_core::version as pkg_version;

#[test]
fn compare_dot_versions() {
    assert!(core_version::ver_ge("0.1.5", "0.1.0"));
    assert!(core_version::ver_ge("1.0", "1.0.0"));
    assert!(!core_version::ver_ge("1.0.0", "1.0.1"));
}

#[test]
fn version_compare_dot_versions() {
    assert!(pkg_version::ver_ge("0.1.5", "0.1.0"));
    assert!(pkg_version::ver_ge("1.0", "1.0.0"));
    assert!(!pkg_version::ver_ge("1.0.0", "1.0.1"));
}

#[test]
fn compare_pkgver_rel() {
    assert!(core_version::pkgver_ge("1.2.3-2", "1.2.3-1"));
    assert!(core_version::pkgver_ge("1.2.4-1", "1.2.3-9"));
    assert!(!core_version::pkgver_ge("1.2.3-1", "1.2.3-2"));
    assert!(core_version::pkgver_ge("1.2.3", "1.2.3-0"));
}

#[test]
fn version_compare_pkgver_rel() {
    assert!(pkg_version::pkgver_ge("1.2.3-2", "1.2.3-1"));
    assert!(pkg_version::pkgver_ge("1.2.4-1", "1.2.3-9"));
    assert!(!pkg_version::pkgver_ge("1.2.3-1", "1.2.3-2"));
    assert!(pkg_version::pkgver_ge("1.2.3", "1.2.3-0"));
}

#[test]
fn compare_mixed_pkgver_rel() {
    assert!(!pkg_version::pkgver_ge("9.0-1", "10.0-1"));
    assert!(pkg_version::pkgver_ge("1.0.0-rc10", "1.0.0-rc2"));
    assert!(pkg_version::pkgver_ge("1.0.0", "1.0.0-rc1"));
}

#[test]
fn cmp_key_compose() {
    assert_eq!(core_version::pkgver_cmp_key("1.2.3", "1"), "1.2.3-1");
    assert_eq!(core_version::pkgver_cmp_key("1.2.3", ""), "1.2.3");
}

#[test]
fn version_cmp_key_compose() {
    assert_eq!(pkg_version::pkgver_cmp_key("1.2.3", "1"), "1.2.3-1");
    assert_eq!(pkg_version::pkgver_cmp_key("1.2.3", ""), "1.2.3");
}

#[test]
fn version_order_is_reflexive_and_empty_is_met() {
    assert!(pkg_version::pkgver_ge("2.0-1", "2.0-1"));
    assert!(pkg_version::pkgver_ge("", ""));
    assert!(pkg_version::pkgver_ge("abc", ""));
    assert!(!pkg_version::pkgver_ge("", "1.0"));
    assert!(core_version::pkgver_ge("beta", "alpha"));
    assert!(!core_version::pkgver_ge("alpha", "beta"));
}

#[test]
fn core_versions_compare_segment_by_segment() {
    assert!(!core_version::pkgver_ge("1.9a", "1.10a"));
    assert!(core_version::pkgver_ge("1.10a", "1.9a"));
    assert!(!core_version::pkgver_ge("9.0", "10.0"));
}
