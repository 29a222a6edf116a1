use pica::json::JsonValue;
use pica::pica_cli::query::{query_files, query_info, query_installed};
use pica::pica_cli::size::format_size_display;

fn s(v: &str) -> JsonValue {
    JsonValue::String(v.to_string())
}

fn obj(entries: Vec<(&str, JsonValue)>) -> JsonValue {
    JsonValue::Object(entries.into_iter().map(|(k, v)| (k.to_string(), v)).collect())
}

#[test]
fn format_size_display_handles_empty_and_invalid() {
    assert_eq!(format_size_display(""), "");
    assert_eq!(format_size_display("not-a-number"), "not-a-number");
}

#[test]
fn format_size_display_converts_units() {
    assert_eq!(format_size_display("999"), "999 (999 B)");
    assert_eq!(format_size_display("1024"), "1024 (1.00 KiB)");
    assert_eq!(format_size_display("1048576"), "1048576 (1.00 MiB)");
}

#[test]
fn size_display_rounds_like_float_formatting() {
    // 1152 bytes are exactly 1.125 KiB: the tie goes to the even hundredth.
    assert_eq!(format_size_display("1152"), "1152 (1.12 KiB)");
    assert_eq!(format_size_display("1160"), "1160 (1.13 KiB)");
    assert_eq!(format_size_display("1536"), "1536 (1.50 KiB)");
    assert_eq!(format_size_display("1073741824"), "1073741824 (1.00 GiB)");
    assert_eq!(format_size_display("+1023"), "1023 (1023 B)");
    assert_eq!(format_size_display("0"), "0 (0 B)");
    assert_eq!(format_size_display("-1"), "-1");
}

#[test]
fn size_display_matches_float_at_the_extremes() {
    for n in [1023u64, 1025, 123456789, 987654321012, 9007199254740993, u64::MAX] {
        let v = n as f64;
        let human = if v >= 1073741824.0 {
            format!("{:.2} GiB", v / 1073741824.0)
        } else if v >= 1048576.0 {
            format!("{:.2} MiB", v / 1048576.0)
        } else if v >= 1024.0 {
            format!("{:.2} KiB", v / 1024.0)
        } else {
            format!("{} B", n)
        };
        assert_eq!(format_size_display(&n.to_string()), format!("{} ({})", n, human));
    }
}

fn sample_db() -> JsonValue {
    obj(vec![
        (
            "installed",
            obj(vec![
                (
                    "zeta",
                    obj(vec![(
                        "manifest",
                        obj(vec![("pkgver", s("2.0")), ("platform", s("x86"))]),
                    )]),
                ),
                (
                    "alpha",
                    obj(vec![
                        ("files", JsonValue::Array(vec![s("/usr/bin/alpha"), JsonValue::Null, s("/etc/alpha")])),
                        ("installed_at", JsonValue::Number("1700000000".to_string())),
                        (
                            "manifest",
                            obj(vec![
                                ("appname", s("alpha-app")),
                                ("origin", s("https://example.test/alpha")),
                                ("pkgrel", s("3")),
                                ("pkgver", s("1.2")),
                                ("size", s("2048")),
                            ]),
                        ),
                        ("pkgfile", s("/tmp/alpha.pkg.tar.gz")),
                    ]),
                ),
            ]),
        ),
        ("schema", JsonValue::Number("1".to_string())),
    ])
}

#[test]
fn installed_list_is_sorted_by_name() {
    let rows = query_installed(&sample_db()).expect("installed list");
    assert_eq!(rows, vec!["alpha\t1.2-3\t".to_string(), "zeta\t2.0\tx86".to_string()]);
    let err = query_installed(&obj(vec![("installed", JsonValue::Array(vec![]))])).expect_err("not an object");
    assert_eq!(err.code, "E_DB_INVALID");
    assert_eq!(err.message, "db installed is not object");
}

#[test]
fn info_lines_show_manifest_fields() {
    let lines = query_info(&sample_db(), "alpha").expect("info");
    assert_eq!(lines.len(), 25);
    assert_eq!(lines[0], "Name            : alpha");
    assert_eq!(lines[1], "Version         : 1.2-3");
    assert_eq!(lines[4], "AppName         : alpha-app");
    assert_eq!(lines[5], "Program URL     : https://example.test/alpha");
    assert_eq!(lines[20], "Size            : 2048 (2.00 KiB)");
    assert_eq!(lines[21], "Installed At    : 1700000000");
    assert_eq!(lines[22], "Installed From  : /tmp/alpha.pkg.tar.gz");
    let err = query_info(&sample_db(), "missing").expect_err("not installed");
    assert_eq!(err.code, "E_ARG_INVALID");
    assert_eq!(err.message, "not installed: missing");
}

#[test]
fn files_lists_only_paths() {
    let files = query_files(&sample_db(), "alpha").expect("files");
    assert_eq!(files, vec!["/usr/bin/alpha".to_string(), "/etc/alpha".to_string()]);
    assert!(query_files(&sample_db(), "zeta").expect("files").is_empty());
    assert!(query_files(&sample_db(), "nope").is_err());
}
