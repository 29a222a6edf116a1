//! Options, paths, errors and the application state of the command-line tool.
use vstd::prelude::*;
use crate::text::{str_eq, copy_str, append_str, chars_of, parse_u64_chars, parse_u64_spec, parse_u32_spec};


verus! {

pub const DEFAULT_ETC_DIR: &'static str = "/etc/pica";
pub const DEFAULT_STATE_DIR: &'static str = "/var/lib/pica";
pub const E_RUNTIME: &'static str = "E_RUNTIME";
pub const E_ARG_INVALID: &'static str = "E_ARG_INVALID";
pub const E_IO: &'static str = "E_IO";
pub const E_JSON_INVALID: &'static str = "E_JSON_INVALID";
pub const E_DB_INVALID: &'static str = "E_DB_INVALID";
pub const E_INDEX_INVALID: &'static str = "E_INDEX_INVALID";
pub const E_CONFIG_INVALID: &'static str = "E_CONFIG_INVALID";
pub const E_POLICY_INVALID: &'static str = "E_POLICY_INVALID";
pub const E_REPO_INVALID: &'static str = "E_REPO_INVALID";
pub const E_MISSING_COMMAND: &'static str = "E_MISSING_COMMAND";
pub const E_LOCK_BUSY: &'static str = "E_LOCK_BUSY";
pub const E_OPKG_INSTALL: &'static str = "E_OPKG_INSTALL";
pub const E_OPKG_REMOVE: &'static str = "E_OPKG_REMOVE";
pub const E_NO_SPACE: &'static str = "E_NO_SPACE";
pub const E_MANIFEST_INVALID: &'static str = "E_MANIFEST_INVALID";
pub const E_PACKAGE_INVALID: &'static str = "E_PACKAGE_INVALID";
pub const E_PLATFORM_UNSUPPORTED: &'static str = "E_PLATFORM_UNSUPPORTED";
pub const E_VERSION_INCOMPATIBLE: &'static str = "E_VERSION_INCOMPATIBLE";
pub const E_INTEGRITY_INVALID: &'static str = "E_INTEGRITY_INVALID";

/// When machine-readable output is written.
#[derive(Debug, Clone, Copy, PartialEq, Eq, Structural)]
pub enum JsonMode {
    Off,
    Errors,
    All,
}

/// Whether packages come from the distribution feeds or from the bundle.
#[derive(Debug, Clone, Copy, PartialEq, Eq, Structural)]
pub enum FeedPolicy {
    Ask,
    FeedFirst,
    PackagedFirst,
    FeedOnly,
    PackagedOnly,
}

/// The policy named by a `--feed-policy` value.
pub open spec fn feed_policy_of(s: Seq<char>) -> Option<FeedPolicy> {
    if s == "ask"@ {
        Some(FeedPolicy::Ask)
    } else if s == "feed-first"@ {
        Some(FeedPolicy::FeedFirst)
    } else if s == "packaged-first"@ {
        Some(FeedPolicy::PackagedFirst)
    } else if s == "feed-only"@ {
        Some(FeedPolicy::FeedOnly)
    } else if s == "packaged-only"@ {
        Some(FeedPolicy::PackagedOnly)
    } else {
        None
    }
}

impl FeedPolicy {
    pub fn parse(value: &str) -> (r: Option<FeedPolicy>)
        ensures
            r == feed_policy_of(value@),
    {
        if str_eq(value, "ask") {
            Some(FeedPolicy::Ask)
        } else if str_eq(value, "feed-first") {
            Some(FeedPolicy::FeedFirst)
        } else if str_eq(value, "packaged-first") {
            Some(FeedPolicy::PackagedFirst)
        } else if str_eq(value, "feed-only") {
            Some(FeedPolicy::FeedOnly)
        } else if str_eq(value, "packaged-only") {
            Some(FeedPolicy::PackagedOnly)
        } else {
            None
        }
    }
}

/// The files and directories the tool works with.
#[derive(Debug, Clone)]
pub struct Paths {
    pub etc_dir: String,
    pub conf_file: String,
    pub state_dir: String,
    pub db_file: String,
    pub index_file: String,
    pub cache_dir: String,
    pub repos_cache_dir: String,
    pub report_file: String,
    pub lock_file: String,
}

/// The value of the first variable named `key`.
pub open spec fn env_value(vars: Seq<(String, String)>, key: Seq<char>) -> Option<Seq<char>>
    decreases vars.len(),
{
    if vars.len() == 0 {
        None
    } else if vars[0].0@ == key {
        Some(vars[0].1@)
    } else {
        env_value(vars.drop_first(), key)
    }
}

/// The variable's value when it is set, else the default.
pub open spec fn env_or(vars: Seq<(String, String)>, key: Seq<char>, default: Seq<char>) -> Seq<char> {
    match env_value(vars, key) {
        Some(v) => v,
        None => default,
    }
}

/// `base.join(name)` for a relative `name`: a separator is put between them
/// unless `base` is empty or already ends with one.
pub open spec fn path_join(base: Seq<char>, name: Seq<char>) -> Seq<char> {
    if base.len() == 0 {
        name
    } else if base.last() == '/' {
        base + name
    } else {
        base + seq!['/'] + name
    }
}

/// Looks a variable up among the environment's variables.
pub fn env_lookup(vars: &Vec<(String, String)>, key: &str) -> (r: Option<String>)
    ensures
        match r {
            Some(v) => env_value(vars@, key@) == Some(v@),
            None => env_value(vars@, key@) == None::<Seq<char>>,
        },
{
    let mut i: usize = 0;
    assert(vars@.skip(0) =~= vars@);
    while i < vars.len()
        invariant
            i <= vars@.len(),
            env_value(vars@, key@) == env_value(vars@.skip(i as int), key@),
        decreases vars.len() - i,
    {
        assert(vars@.skip(i as int).drop_first() =~= vars@.skip(i + 1));
        if str_eq(vars[i].0.as_str(), key) {
            return Some(copy_str(vars[i].1.as_str()));
        }
        i += 1;
    }
    None
}

fn env_path_or(vars: &Vec<(String, String)>, key: &str, default: &str) -> (r: String)
    ensures
        r@ == env_or(vars@, key@, default@),
{
    match env_lookup(vars, key) {
        Some(v) => v,
        None => copy_str(default),
    }
}

/// `base.join(name)` for a relative `name`.
pub fn join_path(base: &str, name: &str) -> (r: String)
    ensures
        r@ == path_join(base@, name@),
{
    let bc = chars_of(base);
    let mut out = copy_str(base);
    if bc.len() > 0 && bc[bc.len() - 1] != '/' {
        crate::text::push_char(&mut out, '/');
    }
    append_str(&mut out, name);
    out
}

impl Paths {
    /// The paths, each from its environment variable where that is set,
    /// else under the default directories. `vars` holds the environment.
    pub fn from_env(vars: &Vec<(String, String)>) -> (r: Paths)
        ensures
            r.etc_dir@ == env_or(vars@, "PICA_ETC_DIR"@, DEFAULT_ETC_DIR@),
            r.conf_file@ == env_or(vars@, "PICA_CONF_FILE"@, path_join(r.etc_dir@, "pica.json"@)),
            r.state_dir@ == env_or(vars@, "PICA_STATE_DIR"@, DEFAULT_STATE_DIR@),
            r.db_file@ == env_or(vars@, "PICA_DB_FILE"@, path_join(r.state_dir@, "db.json"@)),
            r.index_file@ == env_or(vars@, "PICA_INDEX_FILE"@, path_join(r.state_dir@, "index.json"@)),
            r.cache_dir@ == env_or(vars@, "PICA_CACHE_DIR"@, path_join(r.state_dir@, "cache"@)),
            r.repos_cache_dir@ == env_or(vars@, "PICA_REPOS_CACHE_DIR"@, path_join(r.cache_dir@, "repos"@)),
            r.report_file@ == env_or(
                vars@,
                "PICA_REPORT_FILE"@,
                path_join(r.state_dir@, "install-report.json"@),
            ),
            r.lock_file@ == env_or(vars@, "PICA_LOCK_FILE"@, path_join(r.state_dir@, "db.lck"@)),
    {
        let etc_dir = env_path_or(vars, "PICA_ETC_DIR", DEFAULT_ETC_DIR);
        let conf_default = join_path(etc_dir.as_str(), "pica.json");
        let conf_file = env_path_or(vars, "PICA_CONF_FILE", conf_default.as_str());
        let state_dir = env_path_or(vars, "PICA_STATE_DIR", DEFAULT_STATE_DIR);
        let db_default = join_path(state_dir.as_str(), "db.json");
        let db_file = env_path_or(vars, "PICA_DB_FILE", db_default.as_str());
        let index_default = join_path(state_dir.as_str(), "index.json");
        let index_file = env_path_or(vars, "PICA_INDEX_FILE", index_default.as_str());
        let cache_default = join_path(state_dir.as_str(), "cache");
        let cache_dir = env_path_or(vars, "PICA_CACHE_DIR", cache_default.as_str());
        let repos_default = join_path(cache_dir.as_str(), "repos");
        let repos_cache_dir = env_path_or(vars, "PICA_REPOS_CACHE_DIR", repos_default.as_str());
        let report_default = join_path(state_dir.as_str(), "install-report.json");
        let report_file = env_path_or(vars, "PICA_REPORT_FILE", report_default.as_str());
        let lock_default = join_path(state_dir.as_str(), "db.lck");
        let lock_file = env_path_or(vars, "PICA_LOCK_FILE", lock_default.as_str());
        Paths {
            etc_dir,
            conf_file,
            state_dir,
            db_file,
            index_file,
            cache_dir,
            repos_cache_dir,
            report_file,
            lock_file,
        }
    }
}

/// Global command-line options.
#[derive(Debug, Clone, Copy, PartialEq, Eq, Structural)]
pub struct Options {
    pub json_mode: JsonMode,
    pub non_interactive: bool,
    pub feed_policy: FeedPolicy,
    pub fetch_timeout: u64,
    pub fetch_retry: u32,
    pub fetch_retry_delay: u64,
}

/// An error with its machine-readable code.
#[derive(Debug)]
pub struct CliError {
    pub code: &'static str,
    pub message: String,
}

impl CliError {
    pub fn new(code: &'static str, message: &str) -> (r: CliError)
        ensures
            r.code == code,
            r.message@ == message@,
    {
        CliError { code, message: copy_str(message) }
    }
}

/// The state of one run of the tool.
pub struct App {
    pub paths: Paths,
    pub options: Options,
    pub json_last_phase: String,
    pub json_has_text: bool,
}

impl App {
    pub fn new(paths: Paths, options: Options) -> (r: App)
        ensures
            r.paths == paths,
            r.options == options,
            r.json_last_phase@ == Seq::<char>::empty(),
            !r.json_has_text,
    {
        App { paths, options, json_last_phase: String::new(), json_has_text: false }
    }

    pub fn set_phase(&mut self, phase: &str)
        ensures
            final(self).json_last_phase@ == phase@,
            final(self).paths == old(self).paths,
            final(self).options == old(self).options,
            final(self).json_has_text == old(self).json_has_text,
    {
        self.json_last_phase = copy_str(phase);
    }
}

/// The positional argument at `index`, or an argument error with `message`.
pub fn require_arg<'a>(args: &'a [String], index: usize, message: &str) -> (r: Result<&'a str, CliError>)
    ensures
        index < args@.len() ==> r is Ok && r->Ok_0@ == args@[index as int]@,
        index >= args@.len() ==> r is Err && r->Err_0.code == E_ARG_INVALID
            && r->Err_0.message@ == message@,
{
    if index < args.len() {
        Ok(args[index].as_str())
    } else {
        Err(CliError::new(E_ARG_INVALID, message))
    }
}

/// The options before any argument is read.
pub open spec fn default_options() -> Options {
    Options {
        json_mode: JsonMode::Off,
        non_interactive: false,
        feed_policy: FeedPolicy::Ask,
        fetch_timeout: 30,
        fetch_retry: 2,
        fetch_retry_delay: 1,
    }
}

/// What `parse_options` returns, as code, message and values.
pub enum ParseOutcome {
    Done(Options, Seq<Seq<char>>),
    Failed(&'static str, Seq<char>),
}

/// The message of an invalid numeric option.
pub open spec fn invalid_msg(flag: Seq<char>, value: Seq<char>) -> Seq<char> {
    "invalid "@ + flag + ": "@ + value
}

/// Reads the arguments from position `i` on, with options `o` and the
/// positional arguments `pos` gathered so far.
pub open spec fn parse_from(args: Seq<Seq<char>>, i: int, o: Options, pos: Seq<Seq<char>>) -> ParseOutcome
    decreases args.len() - i,
{
    if i < 0 || i >= args.len() {
        ParseOutcome::Done(o, pos)
    } else {
        let a = args[i];
        if a == "--json"@ {
            parse_from(args, i + 1, Options { json_mode: JsonMode::All, ..o }, pos)
        } else if a == "--json-errors"@ {
            parse_from(args, i + 1, Options { json_mode: JsonMode::Errors, ..o }, pos)
        } else if a == "--non-interactive"@ {
            parse_from(args, i + 1, Options { non_interactive: true, ..o }, pos)
        } else if a == "--feed-policy"@ {
            if i + 1 >= args.len() {
                ParseOutcome::Failed(E_POLICY_INVALID, "--feed-policy requires <mode>"@)
            } else {
                match feed_policy_of(args[i + 1]) {
                    Some(p) => parse_from(args, i + 2, Options { feed_policy: p, ..o }, pos),
                    None => ParseOutcome::Failed(
                        E_POLICY_INVALID,
                        "invalid --feed-policy: "@ + args[i + 1],
                    ),
                }
            }
        } else if a == "--fetch-timeout"@ {
            if i + 1 >= args.len() {
                ParseOutcome::Failed(E_CONFIG_INVALID, "--fetch-timeout requires <seconds>"@)
            } else {
                match parse_u64_spec(args[i + 1]) {
                    Some(v) if v > 0 => parse_from(args, i + 2, Options { fetch_timeout: v, ..o }, pos),
                    _ => ParseOutcome::Failed(
                        E_CONFIG_INVALID,
                        invalid_msg("--fetch-timeout"@, args[i + 1]),
                    ),
                }
            }
        } else if a == "--fetch-retry"@ {
            if i + 1 >= args.len() {
                ParseOutcome::Failed(E_CONFIG_INVALID, "--fetch-retry requires <count>"@)
            } else {
                match parse_u32_spec(args[i + 1]) {
                    Some(v) => parse_from(args, i + 2, Options { fetch_retry: v, ..o }, pos),
                    None => ParseOutcome::Failed(
                        E_CONFIG_INVALID,
                        invalid_msg("--fetch-retry"@, args[i + 1]),
                    ),
                }
            }
        } else if a == "--fetch-retry-delay"@ {
            if i + 1 >= args.len() {
                ParseOutcome::Failed(E_CONFIG_INVALID, "--fetch-retry-delay requires <seconds>"@)
            } else {
                match parse_u64_spec(args[i + 1]) {
                    Some(v) => parse_from(args, i + 2, Options { fetch_retry_delay: v, ..o }, pos),
                    None => ParseOutcome::Failed(
                        E_CONFIG_INVALID,
                        invalid_msg("--fetch-retry-delay"@, args[i + 1]),
                    ),
                }
            }
        } else {
            parse_from(args, i + 1, o, pos.push(a))
        }
    }
}

fn invalid_option(flag: &str, value: &str) -> (r: CliError)
    ensures
        r.code == E_CONFIG_INVALID,
        r.message@ == invalid_msg(flag@, value@),
{
    let mut m = String::new();
    append_str(&mut m, "invalid ");
    append_str(&mut m, flag);
    append_str(&mut m, ": ");
    append_str(&mut m, value);
    CliError { code: E_CONFIG_INVALID, message: m }
}

fn parse_u64_option(flag: &str, value: &str) -> (r: Result<u64, CliError>)
    ensures
        match parse_u64_spec(value@) {
            Some(v) => r == Ok::<u64, CliError>(v),
            None => r is Err && r->Err_0.code == E_CONFIG_INVALID && r->Err_0.message@
                == invalid_msg(flag@, value@),
        },
{
    let cs = chars_of(value);
    match parse_u64_chars(&cs) {
        Some(v) => Ok(v),
        None => Err(invalid_option(flag, value)),
    }
}

fn parse_positive_u64_option(flag: &str, value: &str) -> (r: Result<u64, CliError>)
    ensures
        match parse_u64_spec(value@) {
            Some(v) if v > 0 => r == Ok::<u64, CliError>(v),
            _ => r is Err && r->Err_0.code == E_CONFIG_INVALID && r->Err_0.message@
                == invalid_msg(flag@, value@),
        },
{
    let parsed = parse_u64_option(flag, value)?;
    if parsed == 0 {
        return Err(invalid_option(flag, value));
    }
    Ok(parsed)
}

fn parse_u32_option(flag: &str, value: &str) -> (r: Result<u32, CliError>)
    ensures
        match parse_u32_spec(value@) {
            Some(v) => r == Ok::<u32, CliError>(v),
            None => r is Err && r->Err_0.code == E_CONFIG_INVALID && r->Err_0.message@
                == invalid_msg(flag@, value@),
        },
{
    let cs = chars_of(value);
    match parse_u64_chars(&cs) {
        Some(v) => {
            if v <= 4294967295u64 {
                Ok(v as u32)
            } else {
                Err(invalid_option(flag, value))
            }
        },
        None => Err(invalid_option(flag, value)),
    }
}

/// The views of a list of strings.
pub open spec fn arg_views(args: Seq<String>) -> Seq<Seq<char>> {
    args.map_values(|s: String| s@)
}

/// Splits the arguments into global options and positional arguments.
pub fn parse_options(args: &[String]) -> (r: Result<(Options, Vec<String>), CliError>)
    ensures
        match parse_from(arg_views(args@), 0, default_options(), Seq::empty()) {
            ParseOutcome::Done(o, pos) => r is Ok && r->Ok_0.0 == o && arg_views(r->Ok_0.1@)
                == pos,
            ParseOutcome::Failed(code, msg) => r is Err && r->Err_0.code == code
                && r->Err_0.message@ == msg,
        },
{
    let ghost views = arg_views(args@);
    let mut opts = Options {
        json_mode: JsonMode::Off,
        non_interactive: false,
        feed_policy: FeedPolicy::Ask,
        fetch_timeout: 30,
        fetch_retry: 2,
        fetch_retry_delay: 1,
    };
    let mut positional: Vec<String> = Vec::new();
    let mut index: usize = 0;
    assert(arg_views(positional@) =~= Seq::<Seq<char>>::empty());
    assert(opts == default_options());
    while index < args.len()
        invariant
            views == arg_views(args@),
            index <= args@.len(),
            parse_from(views, 0, default_options(), Seq::empty()) == parse_from(
                views,
                index as int,
                opts,
                arg_views(positional@),
            ),
        decreases args.len() - index,
    {
        let a = args[index].as_str();
        assert(views[index as int] == a@);
        let n = args.len();
        if str_eq(a, "--json") {
            opts = Options { json_mode: JsonMode::All, ..opts };
            index += 1;
        } else if str_eq(a, "--json-errors") {
            opts = Options { json_mode: JsonMode::Errors, ..opts };
            index += 1;
        } else if str_eq(a, "--non-interactive") {
            opts = Options { non_interactive: true, ..opts };
            index += 1;
        } else if str_eq(a, "--feed-policy") {
            if index + 1 >= n {
                return Err(CliError::new(E_POLICY_INVALID, "--feed-policy requires <mode>"));
            }
            let value = args[index + 1].as_str();
            assert(views[index + 1] == value@);
            match FeedPolicy::parse(value) {
                Some(p) => {
                    opts = Options { feed_policy: p, ..opts };
                },
                None => {
                    let mut m = String::new();
                    append_str(&mut m, "invalid --feed-policy: ");
                    append_str(&mut m, value);
                    return Err(CliError { code: E_POLICY_INVALID, message: m });
                },
            }
            index += 2;
        } else if str_eq(a, "--fetch-timeout") {
            if index + 1 >= n {
                return Err(CliError::new(E_CONFIG_INVALID, "--fetch-timeout requires <seconds>"));
            }
            let value = args[index + 1].as_str();
            assert(views[index + 1] == value@);
            let v = parse_positive_u64_option("--fetch-timeout", value)?;
            opts = Options { fetch_timeout: v, ..opts };
            index += 2;
        } else if str_eq(a, "--fetch-retry") {
            if index + 1 >= n {
                return Err(CliError::new(E_CONFIG_INVALID, "--fetch-retry requires <count>"));
            }
            let value = args[index + 1].as_str();
            assert(views[index + 1] == value@);
            let v = parse_u32_option("--fetch-retry", value)?;
            opts = Options { fetch_retry: v, ..opts };
            index += 2;
        } else if str_eq(a, "--fetch-retry-delay") {
            if index + 1 >= n {
                return Err(
                    CliError::new(E_CONFIG_INVALID, "--fetch-retry-delay requires <seconds>"),
                );
            }
            let value = args[index + 1].as_str();
            assert(views[index + 1] == value@);
            let v = parse_u64_option("--fetch-retry-delay", value)?;
            opts = Options { fetch_retry_delay: v, ..opts };
            index += 2;
        } else {
            let ghost before = positional@;
            positional.push(copy_str(a));
            assert(arg_views(positional@) =~= arg_views(before).push(a@));
            index += 1;
        }
    }
    Ok((opts, positional))
}


/// The machine-readable report of a successful command.
pub open spec fn success_payload(command: Seq<char>, target: Seq<char>) -> Seq<char> {
    "{\"command\":"@ + crate::json::quoted(command) + ",\"ok\":true,\"target\":"@ + crate::json::quoted(target) + "}"@
}

/// The machine-readable report of a failed command.
pub open spec fn error_payload(code: Seq<char>, message: Seq<char>, phase: Seq<char>) -> Seq<char> {
    "{\"code\":"@ + crate::json::quoted(code) + ",\"message\":"@ + crate::json::quoted(message)
        + ",\"ok\":false,\"phase\":"@ + crate::json::quoted(phase) + "}"@
}

/// `{"command":…,"ok":true,"target":…}` as compact JSON.
pub fn success_payload_text(command: &str, target: &str) -> (r: String)
    ensures
        r@ == success_payload(command@, target@),
{
    let mut out = copy_str("{\"command\":");
    crate::json::push_quoted(&mut out, command);
    append_str(&mut out, ",\"ok\":true,\"target\":");
    crate::json::push_quoted(&mut out, target);
    append_str(&mut out, "}");
    out
}

/// `{"code":…,"message":…,"ok":false,"phase":…}` as compact JSON.
pub fn error_payload_text(code: &str, message: &str, phase: &str) -> (r: String)
    ensures
        r@ == error_payload(code@, message@, phase@),
{
    let mut out = copy_str("{\"code\":");
    crate::json::push_quoted(&mut out, code);
    append_str(&mut out, ",\"message\":");
    crate::json::push_quoted(&mut out, message);
    append_str(&mut out, ",\"ok\":false,\"phase\":");
    crate::json::push_quoted(&mut out, phase);
    append_str(&mut out, "}");
    out
}

impl App {
    /// The line of an informational message; the run now has printed text.
    pub fn log_info(&mut self, message: &str) -> (r: String)
        ensures
            r@ == ":: "@ + message@,
            final(self).json_has_text,
            final(self).paths == old(self).paths,
            final(self).options == old(self).options,
            final(self).json_last_phase == old(self).json_last_phase,
    {
        self.json_has_text = true;
        let mut line = copy_str(":: ");
        append_str(&mut line, message);
        line
    }

    /// The line of a warning; the run now has printed text.
    pub fn log_warn(&mut self, message: &str) -> (r: String)
        ensures
            r@ == "warning: "@ + message@,
            final(self).json_has_text,
            final(self).paths == old(self).paths,
            final(self).options == old(self).options,
            final(self).json_last_phase == old(self).json_last_phase,
    {
        self.json_has_text = true;
        let mut line = copy_str("warning: ");
        append_str(&mut line, message);
        line
    }

    /// The success report, printed with full JSON output, in addition to any
    /// text printed before it.
    pub fn emit_success(&self, command: &str, target: &str) -> (r: Option<String>)
        ensures
            self.options.json_mode == JsonMode::All ==> (r matches Some(t) && t@
                == success_payload(command@, target@)),
            self.options.json_mode != JsonMode::All ==> r is None,
    {
        match self.options.json_mode {
            JsonMode::All => Some(success_payload_text(command, target)),
            _ => None,
        }
    }

    /// The lines of an error report: the JSON report whenever JSON output
    /// is on (phase `unknown` before any phase), then `pica: message`.
    pub fn emit_error(&self, err: &CliError) -> (r: Vec<String>)
        ensures
            self.options.json_mode == JsonMode::Off ==> r@.len() == 1 && r@[0]@ == "pica: "@ + err.message@,
            self.options.json_mode != JsonMode::Off ==> r@.len() == 2 && r@[0]@ == error_payload(
                err.code@,
                err.message@,
                if self.json_last_phase@.len() == 0 {
                    "unknown"@
                } else {
                    self.json_last_phase@
                },
            ) && r@[1]@ == "pica: "@ + err.message@,
    {
        let mut lines: Vec<String> = Vec::new();
        match self.options.json_mode {
            JsonMode::Off => {},
            _ => {
                let phase = if self.json_last_phase.as_str().is_empty() {
                    "unknown"
                } else {
                    self.json_last_phase.as_str()
                };
                lines.push(error_payload_text(err.code, err.message.as_str(), phase));
            },
        }
        let mut last = copy_str("pica: ");
        append_str(&mut last, err.message.as_str());
        lines.push(last);
        lines
    }
}

} // verus!
