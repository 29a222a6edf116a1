use pica::pica_cli::dispatch as cli;
use pica::pica_cli::types::JsonMode as CliJsonMode;
use pica::pica_pkg_cli::dispatch::{entry, plan_command, Action, Entry, Step};
use pica::pica_pkg_cli::types::JsonMode;

fn args(items: &[&str]) -> Vec<String> {
    items.iter().map(|s| s.to_string()).collect()
}

fn describe(steps: &[Step]) -> Vec<String> {
    steps
        .iter()
        .map(|s| match s {
            Step::Phase(p) => format!("phase {p}"),
            Step::Need(c) => format!("need {c}"),
            Step::MissingArg(m) => format!("fail {m}"),
            Step::Run(a) => format!("run {a:?}"),
        })
        .collect()
}

#[test]
fn sync_or_install_by_selector() {
    let p = plan_command(&args(&["-S"])).unwrap();
    assert_eq!((p.name, p.target.as_str()), ("-S", "repos"));
    assert_eq!(describe(&p.steps), vec!["phase sync", "run SyncRepos"]);
    let p = plan_command(&args(&["-S", "hello(stable)"])).unwrap();
    assert_eq!((p.name, p.target.as_str()), ("-S", "hello(stable)"));
    assert_eq!(describe(&p.steps), vec!["phase install", "need opkg", "run InstallAuto"]);
}

#[test]
fn commands_check_tools_before_arguments() {
    let p = plan_command(&args(&["-Sp"])).unwrap();
    assert_eq!(p.target, "");
    assert_eq!(
        describe(&p.steps),
        vec!["phase install", "need opkg", "need tar", "fail -Sp requires <selector>"]
    );
    let p = plan_command(&args(&["-Syu"])).unwrap();
    assert_eq!(
        describe(&p.steps),
        vec!["phase sync", "need opkg", "run SyncRepos", "phase upgrade", "run UpgradeAll"]
    );
    let p = plan_command(&args(&["-Ql", "hello"])).unwrap();
    assert!(matches!(p.steps[1], Step::Run(Action::QueryFiles)));
}

#[test]
fn unknown_command_is_an_argument_error() {
    let err = plan_command(&args(&["-X"])).err().unwrap();
    assert_eq!(err.code, "E_ARG_INVALID");
    assert_eq!(err.message, "unknown arg: -X");
}

#[test]
fn entry_decisions() {
    assert!(matches!(entry(&args(&[]), JsonMode::Off, false), Entry::Usage));
    assert!(matches!(entry(&args(&["help"]), JsonMode::All, false), Entry::Help));
    assert!(matches!(entry(&args(&["-V"]), JsonMode::All, false), Entry::Version));
    assert!(matches!(entry(&args(&["-Q"]), JsonMode::Off, false), Entry::Run));
    match entry(&args(&["-Q"]), JsonMode::Errors, false) {
        Entry::Fail(e) => {
            assert_eq!(e.code, "E_MISSING_COMMAND");
            assert_eq!(e.message, "--json/--json-errors requires command: jq");
        }
        _ => panic!("json output needs jq"),
    }
    assert!(matches!(entry(&args(&["-Q"]), JsonMode::Errors, true), Entry::Run));
}

#[test]
fn repository_tool_commands() {
    let p = cli::plan_command(&args(&["-Si", "app"])).unwrap();
    assert_eq!((p.name, p.target.as_str()), ("-Si", "app"));
    assert!(matches!(p.steps[0], cli::Step::Phase("query")));
    assert!(matches!(p.steps[1], cli::Step::Run(cli::Action::SyncInfo)));
    let p = cli::plan_command(&args(&["-Si"])).unwrap();
    assert_eq!(p.steps.len(), 2);
    assert!(matches!(p.steps[1], cli::Step::MissingArg("-Si requires <selector>")));
    let p = cli::plan_command(&args(&["-S", "app"])).unwrap();
    assert_eq!(p.target, "app");
    assert!(matches!(p.steps[2], cli::Step::Run(cli::Action::InstallAuto)));
    let p = cli::plan_command(&args(&["-S"])).unwrap();
    assert_eq!(p.target, "repos");
    let p = cli::plan_command(&args(&["-Ql", "hello"])).unwrap();
    assert!(matches!(p.steps[1], cli::Step::Run(cli::Action::QueryFiles)));
    let err = cli::plan_command(&args(&["--bogus"])).err().unwrap();
    assert_eq!(err.code, "E_RUNTIME");
    assert!(matches!(cli::entry(&args(&["-V"]), CliJsonMode::Off, false), cli::Entry::Run));
    assert!(matches!(cli::entry(&args(&["--version"]), CliJsonMode::Off, false), cli::Entry::Version));
}
