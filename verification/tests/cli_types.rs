use pica::pica_cli::types as cli;
use pica::pica_pkg_cli::types::{
    parse_options, require_arg, App, FeedPolicy, JsonMode, Options, Paths, E_ARG_INVALID,
};

fn strings(items: &[&str]) -> Vec<String> {
    items.iter().map(|s| s.to_string()).collect()
}

#[test]
fn parse_options_fetch_settings() {
    let input = strings(&["--fetch-timeout", "15", "--fetch-retry", "4", "--fetch-retry-delay", "2", "-S"]);
    let (options, positional) = parse_options(&input).expect("parse options");
    assert_eq!(options.fetch_timeout, 15);
    assert_eq!(options.fetch_retry, 4);
    assert_eq!(options.fetch_retry_delay, 2);
    assert_eq!(options.feed_policy, FeedPolicy::Ask);
    assert_eq!(positional, vec!["-S".to_string()]);
}

#[test]
fn parse_options_rejects_invalid_fetch_timeout() {
    let input = strings(&["--fetch-timeout", "0"]);
    let err = parse_options(&input).expect_err("must reject zero timeout");
    assert!(err.message.contains("--fetch-timeout"));
}

#[test]
fn parse_options_rejects_invalid_fetch_retry() {
    let input = strings(&["--fetch-retry", "x"]);
    let err = parse_options(&input).expect_err("must reject invalid retry");
    assert!(err.message.contains("--fetch-retry"));
}

#[test]
fn parse_options_rejects_invalid_fetch_retry_delay() {
    let input = strings(&["--fetch-retry-delay", "-1"]);
    let err = parse_options(&input).expect_err("must reject invalid retry delay");
    assert!(err.message.contains("--fetch-retry-delay"));
}

#[test]
fn parse_options_modes_and_policy() {
    let input = strings(&["--json", "-Si", "--feed-policy", "feed-only", "--non-interactive", "app"]);
    let (options, positional) = parse_options(&input).expect("parse options");
    assert_eq!(options.json_mode, JsonMode::All);
    assert!(options.non_interactive);
    assert_eq!(options.feed_policy, FeedPolicy::FeedOnly);
    assert_eq!(positional, strings(&["-Si", "app"]));
    let err = parse_options(&strings(&["--feed-policy", "sometimes"])).unwrap_err();
    assert_eq!(err.code, "E_POLICY_INVALID");
    assert_eq!(err.message, "invalid --feed-policy: sometimes");
    let err = parse_options(&strings(&["--feed-policy"])).unwrap_err();
    assert_eq!(err.message, "--feed-policy requires <mode>");
    let err = parse_options(&strings(&["--fetch-retry", "4294967296"])).unwrap_err();
    assert_eq!(err.code, "E_CONFIG_INVALID");
    assert_eq!(err.message, "invalid --fetch-retry: 4294967296");
}

#[test]
fn feed_policy_names() {
    assert_eq!(FeedPolicy::parse("ask"), Some(FeedPolicy::Ask));
    assert_eq!(FeedPolicy::parse("packaged-first"), Some(FeedPolicy::PackagedFirst));
    assert_eq!(FeedPolicy::parse("Ask"), None);
}

#[test]
fn paths_follow_environment() {
    let paths = Paths::from_env(&vec![]);
    assert_eq!(paths.etc_dir, "/etc/pica");
    assert_eq!(paths.conf_file, "/etc/pica/pica.json");
    assert_eq!(paths.db_file, "/var/lib/pica/db.json");
    assert_eq!(paths.repos_cache_dir, "/var/lib/pica/cache/repos");
    assert_eq!(paths.lock_file, "/var/lib/pica/db.lck");
    let env = vec![
        ("PICA_STATE_DIR".to_string(), "/tmp/state/".to_string()),
        ("PICA_CACHE_DIR".to_string(), "/c".to_string()),
    ];
    let paths = Paths::from_env(&env);
    assert_eq!(paths.db_file, "/tmp/state/db.json");
    assert_eq!(paths.cache_dir, "/c");
    assert_eq!(paths.repos_cache_dir, "/c/repos");
}

#[test]
fn app_and_required_args() {
    let options = Options {
        json_mode: JsonMode::Off,
        non_interactive: false,
        feed_policy: FeedPolicy::Ask,
        fetch_timeout: 30,
        fetch_retry: 2,
        fetch_retry_delay: 1,
    };
    let mut app = App::new(Paths::from_env(&vec![]), options);
    assert!(app.json_last_phase.is_empty());
    app.set_phase("install");
    assert_eq!(app.json_last_phase, "install");
    let args = vec!["-S".to_string()];
    assert_eq!(require_arg(&args, 0, "need").unwrap(), "-S");
    let err = require_arg(&args, 1, "missing selector").unwrap_err();
    assert_eq!(err.code, E_ARG_INVALID);
    assert_eq!(err.message, "missing selector");
}

#[test]
fn repository_tool_options() {
    let (options, positional) =
        cli::parse_options(strings(&["--json-errors", "-Q"])).expect("parse options");
    assert_eq!(options.json_mode, cli::JsonMode::Errors);
    assert_eq!(positional, strings(&["-Q"]));
    let err = cli::require_arg(&positional, 3, "missing").unwrap_err();
    assert_eq!(err.code, "E_RUNTIME");
}
