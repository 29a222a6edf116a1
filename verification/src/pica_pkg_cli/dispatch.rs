//! What a command line asks for: the steps of a command, in the order the
//! tool takes them, each run by the caller until one fails.
use vstd::prelude::*;
use crate::text::{str_eq, copy_str};
use crate::pica_pkg_cli::types::{JsonMode, CliError, E_MISSING_COMMAND};

verus! {

/// The work a command does once its checks pass.
#[derive(Debug, Clone, Copy)]
pub enum Action {
    InstallAuto,
    SyncRepos,
    UpgradeAll,
    QueryInstalled,
    QueryInfo,
    QueryFiles,
    InstallViaOpkg,
    SyncInfo,
    InstallFromRepo,
    InstallSource,
    Remove,
}

/// One step of a command.
#[derive(Debug, Clone, Copy)]
pub enum Step {
    /// The phase that errors are reported under from here on.
    Phase(&'static str),
    /// A command that must be available, else the command fails.
    Need(&'static str),
    /// The argument the command needs is missing: it fails with this message.
    MissingArg(&'static str),
    /// The command's work, on the plan's target.
    Run(Action),
}

/// A command: its name, its target and its steps.
#[derive(Debug)]
pub struct CommandPlan {
    pub name: &'static str,
    pub target: String,
    pub steps: Vec<Step>,
}

/// The plan of a command that takes an argument: the steps before it, then
/// the work, or the failure when the argument is missing.
pub open spec fn with_arg(
    name: Seq<char>,
    pre: Seq<Step>,
    arg: Option<Seq<char>>,
    message: &'static str,
    action: Action,
) -> (Seq<char>, Seq<char>, Seq<Step>) {
    match arg {
        Some(a) => (name, a, pre.push(Step::Run(action))),
        None => (name, Seq::empty(), pre.push(Step::MissingArg(message))),
    }
}

/// The plan of each command the tool knows, `None` for any other.
pub open spec fn command_plan(args: Seq<Seq<char>>) -> Option<(Seq<char>, Seq<char>, Seq<Step>)> {
    let c = args[0];
    let arg = if args.len() > 1 {
        Some(args[1])
    } else {
        None
    };
    if c == "-S"@ {
        match arg {
            Some(s) => Some(
                ("-S"@, s, seq![Step::Phase("install"), Step::Need("opkg"), Step::Run(Action::InstallAuto)]),
            ),
            None => Some(("-S"@, "repos"@, seq![Step::Phase("sync"), Step::Run(Action::SyncRepos)])),
        }
    } else if c == "-Su"@ {
        Some(("-Su"@, "all"@, seq![Step::Phase("upgrade"), Step::Need("opkg"), Step::Run(Action::UpgradeAll)]))
    } else if c == "-Syu"@ {
        Some(
            (
                "-Syu"@,
                "all"@,
                seq![
                    Step::Phase("sync"),
                    Step::Need("opkg"),
                    Step::Run(Action::SyncRepos),
                    Step::Phase("upgrade"),
                    Step::Run(Action::UpgradeAll),
                ],
            ),
        )
    } else if c == "-Q"@ {
        Some(("-Q"@, "installed"@, seq![Step::Phase("query"), Step::Run(Action::QueryInstalled)]))
    } else if c == "-Qi"@ {
        Some(with_arg("-Qi"@, seq![Step::Phase("query")], arg, "-Qi requires <pkgname>", Action::QueryInfo))
    } else if c == "-Ql"@ {
        Some(with_arg("-Ql"@, seq![Step::Phase("query")], arg, "-Ql requires <pkgname>", Action::QueryFiles))
    } else if c == "-So"@ {
        Some(
            with_arg(
                "-So"@,
                seq![Step::Phase("install"), Step::Need("opkg")],
                arg,
                "-So requires <selector>",
                Action::InstallViaOpkg,
            ),
        )
    } else if c == "-Si"@ {
        Some(with_arg("-Si"@, seq![Step::Phase("query")], arg, "-Si requires <selector>", Action::SyncInfo))
    } else if c == "-Sp"@ {
        Some(
            with_arg(
                "-Sp"@,
                seq![Step::Phase("install"), Step::Need("opkg"), Step::Need("tar")],
                arg,
                "-Sp requires <selector>",
                Action::InstallFromRepo,
            ),
        )
    } else if c == "-U"@ {
        Some(
            with_arg(
                "-U"@,
                seq![Step::Phase("install"), Step::Need("opkg"), Step::Need("tar")],
                arg,
                "-U requires <pkgfile|url>",
                Action::InstallSource,
            ),
        )
    } else if c == "-R"@ {
        Some(
            with_arg(
                "-R"@,
                seq![Step::Phase("remove"), Step::Need("opkg")],
                arg,
                "-R requires <pkgname>",
                Action::Remove,
            ),
        )
    } else {
        None
    }
}

fn plan_of(name: &'static str, target: String, steps: Vec<Step>) -> (r: CommandPlan)
    ensures
        r.name == name,
        r.target == target,
        r.steps == steps,
{
    CommandPlan { name, target, steps }
}

fn plan_with_arg(
    name: &'static str,
    pre: Vec<Step>,
    args: &Vec<String>,
    message: &'static str,
    action: Action,
) -> (r: CommandPlan)
    ensures
        ({
            let p = with_arg(
                name@,
                pre@,
                if args@.len() > 1 {
                    Some(args@[1]@)
                } else {
                    None
                },
                message,
                action,
            );
            r.name@ == p.0 && r.target@ == p.1 && r.steps@ == p.2
        }),
{
    let mut steps = pre;
    if args.len() > 1 {
        steps.push(Step::Run(action));
        plan_of(name, copy_str(args[1].as_str()), steps)
    } else {
        steps.push(Step::MissingArg(message));
        proof {
            reveal_strlit("");
        }
        let t = String::new();
        assert(t@ =~= Seq::<char>::empty());
        plan_of(name, t, steps)
    }
}

/// The plan of the command `args[0]`; an unknown command is an argument
/// error.
pub fn plan_command(args: &Vec<String>) -> (r: Result<CommandPlan, CliError>)
    requires
        args@.len() > 0,
    ensures
        match command_plan(args@.map_values(|a: String| a@)) {
            Some(p) => r matches Ok(c) && c.name@ == p.0 && c.target@ == p.1 && c.steps@ == p.2,
            None => r matches Err(e) && e.code == crate::pica_pkg_cli::types::E_ARG_INVALID
                && e.message@ == "unknown arg: "@ + args@[0]@,
        },
{
    let ghost av = args@.map_values(|a: String| a@);
    assert(av[0] == args@[0]@);
    assert(args@.len() > 1 ==> av[1] == args@[1]@);
    let c = args[0].as_str();
    if str_eq(c, "-S") {
        if args.len() > 1 {
            let steps = vec![Step::Phase("install"), Step::Need("opkg"), Step::Run(Action::InstallAuto)];
            Ok(plan_of("-S", copy_str(args[1].as_str()), steps))
        } else {
            let steps = vec![Step::Phase("sync"), Step::Run(Action::SyncRepos)];
            Ok(plan_of("-S", copy_str("repos"), steps))
        }
    } else if str_eq(c, "-Su") {
        let steps = vec![Step::Phase("upgrade"), Step::Need("opkg"), Step::Run(Action::UpgradeAll)];
        Ok(plan_of("-Su", copy_str("all"), steps))
    } else if str_eq(c, "-Syu") {
        let steps = vec![
            Step::Phase("sync"),
            Step::Need("opkg"),
            Step::Run(Action::SyncRepos),
            Step::Phase("upgrade"),
            Step::Run(Action::UpgradeAll),
        ];
        Ok(plan_of("-Syu", copy_str("all"), steps))
    } else if str_eq(c, "-Q") {
        let steps = vec![Step::Phase("query"), Step::Run(Action::QueryInstalled)];
        Ok(plan_of("-Q", copy_str("installed"), steps))
    } else if str_eq(c, "-Qi") {
        Ok(plan_with_arg("-Qi", vec![Step::Phase("query")], args, "-Qi requires <pkgname>", Action::QueryInfo))
    } else if str_eq(c, "-Ql") {
        Ok(plan_with_arg("-Ql", vec![Step::Phase("query")], args, "-Ql requires <pkgname>", Action::QueryFiles))
    } else if str_eq(c, "-So") {
        Ok(
            plan_with_arg(
                "-So",
                vec![Step::Phase("install"), Step::Need("opkg")],
                args,
                "-So requires <selector>",
                Action::InstallViaOpkg,
            ),
        )
    } else if str_eq(c, "-Si") {
        Ok(plan_with_arg("-Si", vec![Step::Phase("query")], args, "-Si requires <selector>", Action::SyncInfo))
    } else if str_eq(c, "-Sp") {
        Ok(
            plan_with_arg(
                "-Sp",
                vec![Step::Phase("install"), Step::Need("opkg"), Step::Need("tar")],
                args,
                "-Sp requires <selector>",
                Action::InstallFromRepo,
            ),
        )
    } else if str_eq(c, "-U") {
        Ok(
            plan_with_arg(
                "-U",
                vec![Step::Phase("install"), Step::Need("opkg"), Step::Need("tar")],
                args,
                "-U requires <pkgfile|url>",
                Action::InstallSource,
            ),
        )
    } else if str_eq(c, "-R") {
        Ok(
            plan_with_arg(
                "-R",
                vec![Step::Phase("remove"), Step::Need("opkg")],
                args,
                "-R requires <pkgname>",
                Action::Remove,
            ),
        )
    } else {
        let mut m = copy_str("unknown arg: ");
        crate::text::append_str(&mut m, c);
        Err(CliError::new(crate::pica_pkg_cli::types::E_ARG_INVALID, m.as_str()))
    }
}

/// What the tool does before it takes the lock.
#[derive(Debug)]
pub enum Entry {
    /// No command: print the usage and exit with status 2.
    Usage,
    /// Print the usage and report success.
    Help,
    /// Print the version and report success.
    Version,
    /// JSON output was asked for without `jq`.
    Fail(CliError),
    /// Take the lock and run the command.
    Run,
}

/// The decision before the lock: usage, help, version, the check that JSON
/// output has `jq`, else the command.
pub fn entry(args: &Vec<String>, json_mode: JsonMode, has_jq: bool) -> (r: Entry)
    ensures
        args@.len() == 0 ==> r is Usage,
        args@.len() > 0 && (args@[0]@ == "-h"@ || args@[0]@ == "--help"@ || args@[0]@ == "help"@)
            ==> r is Help,
        args@.len() > 0 && !(args@[0]@ == "-h"@ || args@[0]@ == "--help"@ || args@[0]@ == "help"@)
            && (args@[0]@ == "-V"@ || args@[0]@ == "--version"@) ==> r is Version,
        args@.len() > 0 && !(args@[0]@ == "-h"@ || args@[0]@ == "--help"@ || args@[0]@ == "help"@
            || args@[0]@ == "-V"@ || args@[0]@ == "--version"@) ==> (if json_mode != JsonMode::Off
            && !has_jq {
            r matches Entry::Fail(e) && e.code == E_MISSING_COMMAND && e.message@
                == "--json/--json-errors requires command: jq"@
        } else {
            r is Run
        }),
{
    if args.len() == 0 {
        return Entry::Usage;
    }
    let c = args[0].as_str();
    if str_eq(c, "-h") || str_eq(c, "--help") || str_eq(c, "help") {
        return Entry::Help;
    }
    if str_eq(c, "-V") || str_eq(c, "--version") {
        return Entry::Version;
    }
    let json_on = match json_mode {
        JsonMode::Off => false,
        _ => true,
    };
    if json_on && !has_jq {
        return Entry::Fail(CliError::new(E_MISSING_COMMAND, "--json/--json-errors requires command: jq"));
    }
    Entry::Run
}

} // verus!
