use pica::json::{push_json_text, JsonValue};
use pica::pica_pkg_cli::state::{default_document, install_report_entry, prepare_report, set_field_entry, StateFile};
use pica::pica_pkg_cli::sync::{prepare_index, repo_record, store_repo};
use pica::pica_pkg_cli::types::{App, CliError, FeedPolicy, JsonMode, Options, Paths};

fn s(v: &str) -> JsonValue {
    JsonValue::String(v.to_string())
}

fn obj(entries: Vec<(&str, JsonValue)>) -> JsonValue {
    JsonValue::Object(entries.into_iter().map(|(k, v)| (k.to_string(), v)).collect())
}

fn text(v: &JsonValue) -> String {
    let mut out = String::new();
    push_json_text(&mut out, v);
    out
}

#[test]
fn default_documents() {
    assert_eq!(text(&default_document(StateFile::Conf)), "{\"i18n\":\"zh-cn\",\"repos\":[]}");
    assert_eq!(text(&default_document(StateFile::Db)), "{\"installed\":{},\"schema\":1}");
    assert_eq!(text(&default_document(StateFile::Index)), "{\"repos\":{},\"schema\":1}");
    assert_eq!(text(&default_document(StateFile::Report)), "{\"reports\":{},\"schema\":1}");
}

#[test]
fn sync_updates_the_index() {
    let mut index = prepare_index(JsonValue::Array(vec![])).unwrap();
    assert_eq!(text(&index), "{\"repos\":{},\"schema\":1}");
    let data = obj(vec![("packages", JsonValue::Array(vec![]))]);
    let rec = repo_record("main", "https://r.test", 1700, "", "x86", data);
    assert_eq!(
        text(&rec),
        "{\"data\":{\"packages\":[]},\"name\":\"main\",\"platform\":\"x86\",\"updated_at\":1700,\"url\":\"https://r.test\"}"
    );
    store_repo(&mut index, "main", rec).unwrap();
    assert!(text(&index).starts_with("{\"repos\":{\"main\":{\"data\""));
    let kept = prepare_index(obj(vec![("extra", s("x")), ("schema", JsonValue::Number("7".to_string()))])).unwrap();
    assert_eq!(text(&kept), "{\"extra\":\"x\",\"repos\":{},\"schema\":1}");
    let bad = prepare_index(obj(vec![("repos", JsonValue::Array(vec![]))])).err().unwrap();
    assert_eq!(bad.message, "json field 'repos' is not object");
    let own = repo_record("r", "u", 1, "mt7621", "x86", JsonValue::Null);
    assert!(text(&own).contains("\"platform\":\"mt7621\""));
}

#[test]
fn install_report_entry_layout() {
    let manifest = obj(vec![
        ("appname", s("hello-app")),
        ("origin", s("https://o.test")),
        ("pkgname", s("hello")),
        ("pkgver", s("1.0")),
    ]);
    let entry = install_report_entry(
        "hello",
        &manifest,
        JsonValue::Null,
        &vec!["a".to_string()],
        &vec![],
        1700,
    );
    assert_eq!(
        text(&entry),
        "{\"dependency_diff\":{\"app_stage_added\":[],\"transaction_added\":[\"a\"]},\"package\":{\"appname\":\"hello-app\",\"branch\":\"\",\"luci_url\":\"\",\"os\":\"\",\"pkgname\":\"hello\",\"pkgrel\":\"\",\"pkgver\":\"1.0\",\"protocol\":\"\",\"url\":\"https://o.test\"},\"precheck\":null,\"selector\":\"hello\",\"updated_at\":1700}"
    );
    let mut report = prepare_report(None).unwrap();
    set_field_entry(&mut report, "reports", "hello", Some(entry)).unwrap();
    assert!(text(&report).starts_with("{\"reports\":{\"hello\":{"));
}

fn app(mode: JsonMode) -> App {
    App::new(
        Paths::from_env(&vec![]),
        Options {
            json_mode: mode,
            non_interactive: false,
            feed_policy: FeedPolicy::Ask,
            fetch_timeout: 30,
            fetch_retry: 2,
            fetch_retry_delay: 1,
        },
    )
}

#[test]
fn output_lines_and_reports() {
    let mut a = app(JsonMode::All);
    assert_eq!(a.emit_success("-Q", "installed"), Some("{\"command\":\"-Q\",\"ok\":true,\"target\":\"installed\"}".to_string()));
    assert_eq!(a.log_info("hello"), ":: hello");
    assert_eq!(a.emit_success("-Q", "installed"), Some("{\"command\":\"-Q\",\"ok\":true,\"target\":\"installed\"}".to_string()));
    assert_eq!(a.log_warn("careful"), "warning: careful");
    let err = CliError::new("E_IO", "disk \"full\"");
    let lines = a.emit_error(&err);
    assert_eq!(
        lines,
        vec![
            "{\"code\":\"E_IO\",\"message\":\"disk \\\"full\\\"\",\"ok\":false,\"phase\":\"unknown\"}".to_string(),
            "pica: disk \"full\"".to_string(),
        ]
    );
    a.set_phase("sync");
    assert!(a.emit_error(&err)[0].ends_with("\"phase\":\"sync\"}"));
    assert_eq!(app(JsonMode::Off).emit_error(&err), vec!["pica: disk \"full\"".to_string()]);
    assert_eq!(app(JsonMode::Errors).emit_success("-Q", "x"), None);
}
