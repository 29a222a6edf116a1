use pica::pica_pkg_cli::feed::{
    install_via_feeds_or_ipk, ipk_install_plan, pkg_list_diff_added, reorder_app_list, should_use_feeds,
    FeedInstall, FeedStep,
};
use pica::pica_pkg_cli::types::{App, FeedPolicy, JsonMode, Options, Paths};

fn app_with(policy: FeedPolicy, non_interactive: bool) -> App {
    App::new(
        Paths::from_env(&vec![]),
        Options {
            json_mode: JsonMode::Off,
            non_interactive,
            feed_policy: policy,
            fetch_timeout: 30,
            fetch_retry: 2,
            fetch_retry_delay: 1,
        },
    )
}

fn decided(step: Option<FeedStep>) -> i8 {
    match step {
        Some(FeedStep::Decided(d)) => d,
        _ => panic!("no decision"),
    }
}

fn reorder_case() {
    let input = vec![
        "luci-i18n-foo-zh-cn".to_string(),
        "foo-core".to_string(),
        "luci-app-foo".to_string(),
        "foo-helper".to_string(),
    ];
    let output = reorder_app_list(input);
    assert_eq!(
        output,
        vec![
            "foo-core".to_string(),
            "foo-helper".to_string(),
            "luci-app-foo".to_string(),
            "luci-i18n-foo-zh-cn".to_string(),
        ]
    );
}

#[test]
fn feed_reorder_app_list_moves_luci_and_i18n_last() {
    reorder_case();
}

#[test]
fn helpers_reorder_app_list_moves_luci_and_i18n_last() {
    reorder_case();
}

fn diff_case() {
    let before = vec!["a".to_string(), "b".to_string()];
    let after = vec!["a".to_string(), "b".to_string(), "c".to_string()];
    let added = pkg_list_diff_added(&before, &after);
    assert_eq!(added, vec!["c".to_string()]);
}

#[test]
fn feed_pkg_list_diff_added_returns_only_new_items() {
    diff_case();
}

#[test]
fn helpers_pkg_list_diff_added_returns_only_new_items() {
    diff_case();
}

fn policy_matrix() {
    let one = vec!["a".to_string()];
    let base = app_with(FeedPolicy::FeedOnly, true);
    assert_eq!(decided(should_use_feeds(&base, "app", &one, true, None, None)), 1);
    assert_eq!(decided(should_use_feeds(&base, "app", &[], true, None, None)), -1);
    let packaged_only = app_with(FeedPolicy::PackagedOnly, true);
    assert_eq!(decided(should_use_feeds(&packaged_only, "app", &one, true, None, None)), 0);
    let feed_first = app_with(FeedPolicy::FeedFirst, true);
    assert_eq!(decided(should_use_feeds(&feed_first, "app", &one, true, None, None)), 1);
    let packaged_first = app_with(FeedPolicy::PackagedFirst, true);
    assert_eq!(decided(should_use_feeds(&packaged_first, "app", &one, true, None, None)), 0);
}

#[test]
fn feed_should_use_feeds_policy_matrix_basics() {
    policy_matrix();
}

#[test]
fn helpers_should_use_feeds_policy_matrix_basics() {
    policy_matrix();
}

#[test]
fn ask_policy_probes_then_asks() {
    let app = app_with(FeedPolicy::Ask, false);
    let list = vec!["a".to_string(), "".to_string(), "b".to_string()];
    assert!(matches!(should_use_feeds(&app, "base", &list, true, None, None), Some(FeedStep::ProbeFeeds)));
    let probe = vec![true, false];
    match should_use_feeds(&app, "base", &list, true, Some(&probe), None) {
        Some(FeedStep::Ask(q)) => assert_eq!(
            q,
            "Found 1/2 base packages in opkg feeds. Use feeds instead of packaged ipks?"
        ),
        _ => panic!("expected a question"),
    }
    assert_eq!(decided(should_use_feeds(&app, "base", &list, true, Some(&probe), Some(false))), 0);
    assert_eq!(decided(should_use_feeds(&app, "base", &list, true, Some(&vec![false, false]), None)), 0);
    assert!(should_use_feeds(&app, "base", &list, true, Some(&vec![true]), None).is_none());
    let batch = app_with(FeedPolicy::Ask, true);
    assert_eq!(decided(should_use_feeds(&batch, "base", &list, true, Some(&probe), None)), 1);
    assert_eq!(decided(should_use_feeds(&batch, "base", &list, false, None, None)), 1);
}

fn skip_case() {
    let app = app_with(FeedPolicy::Ask, true);
    let result = install_via_feeds_or_ipk(&app, "base", &[], "/nonexistent", false, 0);
    assert!(result.is_ok());
    assert!(matches!(result, Ok(FeedInstall::Skip)));
}

#[test]
fn feed_install_via_feeds_or_ipk_skips_empty_optional_group() {
    skip_case();
}

#[test]
fn helpers_install_via_feeds_or_ipk_skips_empty_optional_group() {
    skip_case();
}

#[test]
fn install_plans_by_decision() {
    let app = app_with(FeedPolicy::Ask, true);
    let list = vec!["a".to_string(), "".to_string(), "b".to_string()];
    match install_via_feeds_or_ipk(&app, "base", &list, "/d", true, 1) {
        Ok(FeedInstall::Feeds(names)) => assert_eq!(names, vec!["a", "b"]),
        _ => panic!("expected feeds"),
    }
    assert!(matches!(install_via_feeds_or_ipk(&app, "base", &list, "/d", true, 0), Ok(FeedInstall::IpkDir(_))));
    let err = install_via_feeds_or_ipk(&app, "base", &list, "/d", true, -1).err().unwrap();
    assert_eq!(err.code, "E_POLICY_INVALID");
    assert_eq!(err.message, "base requires feed packages under feed-only policy");
    let err = install_via_feeds_or_ipk(&app, "app", &list, "/d", false, 0).err().unwrap();
    assert_eq!(err.message, "app not available in feeds and no packaged ipks provided");
    let err = install_via_feeds_or_ipk(&app, "kmod", &[], "/d", true, 1).err().unwrap();
    assert_eq!(err.message, "kmod packages not defined in manifest");
}

#[test]
fn ipk_plan_keeps_ipk_files() {
    let entries = vec!["/d/a.ipk".to_string(), "/d/readme".to_string(), "/d/b.ipk".to_string()];
    assert_eq!(ipk_install_plan("base", "/d", &entries).ok().unwrap(), vec!["/d/a.ipk", "/d/b.ipk"]);
    let err = ipk_install_plan("base", "/d", &vec!["/d/x.txt".to_string()]).err().unwrap();
    assert_eq!(err.message, "no ipk files found in base dir: /d");
}
