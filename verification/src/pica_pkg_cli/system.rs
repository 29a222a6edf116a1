//! Decisions around the commands the tool runs: whether a needed command is
//! there, whether a hook runs, what a failed command reports, how a
//! download is fetched.
use vstd::prelude::*;
use crate::text::{chars_of, trim, trim_chars, string_of, copy_str, append_str, decimal, decimal_string};
use crate::pica_core::repo::{supported_url, is_supported_url};
use crate::pica_pkg_cli::types::{CliError, E_MISSING_COMMAND, E_CONFIG_INVALID, E_RUNTIME};

verus! {

/// Ok when the command is available, else the missing-command error.
pub fn need_cmd(name: &str, available: bool) -> (r: Result<(), CliError>)
    ensures
        available ==> r is Ok,
        !available ==> r is Err && r->Err_0.code == E_MISSING_COMMAND && r->Err_0.message@
            == "missing required command: "@ + name@,
{
    if available {
        Ok(())
    } else {
        let mut m = copy_str("missing required command: ");
        append_str(&mut m, name);
        Err(CliError { code: E_MISSING_COMMAND, message: m })
    }
}

/// What to do for a hook of a package.
pub enum HookStep {
    /// The package declares no such hook.
    Skip,
    /// Run the hook script with `sh`, after logging this line.
    Run(String),
}

/// The step for hook `hook_rel` of the unpacked package, given whether the
/// script exists there as a file.
pub fn run_hook(hook_rel: &str, label: &str, hook_is_file: bool) -> (r: Result<HookStep, CliError>)
    ensures
        hook_rel@.len() == 0 ==> r matches Ok(HookStep::Skip),
        hook_rel@.len() > 0 && !hook_is_file ==> r is Err && r->Err_0.code == E_CONFIG_INVALID
            && r->Err_0.message@ == label@ + " hook not found: "@ + hook_rel@,
        hook_rel@.len() > 0 && hook_is_file ==> (r matches Ok(HookStep::Run(line)) && line@
            == "Running "@ + label@ + " hook: "@ + hook_rel@),
{
    if hook_rel.is_empty() {
        return Ok(HookStep::Skip);
    }
    if !hook_is_file {
        let mut m = copy_str(label);
        append_str(&mut m, " hook not found: ");
        append_str(&mut m, hook_rel);
        return Err(CliError { code: E_CONFIG_INVALID, message: m });
    }
    let mut line = copy_str("Running ");
    append_str(&mut line, label);
    append_str(&mut line, " hook: ");
    append_str(&mut line, hook_rel);
    Ok(HookStep::Run(line))
}

/// The detail of a failed command: its error output trimmed, else its
/// standard output trimmed, else `unknown error`.
pub open spec fn failure_detail(stdout: Seq<char>, stderr: Seq<char>) -> Seq<char> {
    if trim(stderr).len() > 0 {
        trim(stderr)
    } else if trim(stdout).len() > 0 {
        trim(stdout)
    } else {
        "unknown error"@
    }
}

/// The detail of a failed command, from its decoded outputs.
pub fn stderr_or_stdout(stdout: &str, stderr: &str) -> (r: String)
    ensures
        r@ == failure_detail(stdout@, stderr@),
{
    let e = chars_of(stderr);
    let et = trim_chars(&e);
    if et.len() > 0 {
        return string_of(&et);
    }
    let o = chars_of(stdout);
    let ot = trim_chars(&o);
    if ot.len() == 0 {
        copy_str("unknown error")
    } else {
        string_of(&ot)
    }
}

/// The error after every download attempt failed.
pub fn fetch_failure(max_attempts: u32, timeout_secs: u64, url: &str, last_error: &str) -> (r: CliError)
    ensures
        r.code == E_RUNTIME,
        r.message@ == "download failed after "@ + decimal(max_attempts as nat) + " attempts (timeout="@
            + decimal(timeout_secs as nat) + "s): "@ + url@ + " detail=["@ + last_error@ + "]"@,
{
    let mut m = copy_str("download failed after ");
    append_str(&mut m, decimal_string(max_attempts as u64).as_str());
    append_str(&mut m, " attempts (timeout=");
    append_str(&mut m, decimal_string(timeout_secs).as_str());
    append_str(&mut m, "s): ");
    append_str(&mut m, url);
    append_str(&mut m, " detail=[");
    append_str(&mut m, last_error);
    append_str(&mut m, "]");
    CliError { code: E_RUNTIME, message: m }
}

/// How a download is fetched.
pub enum FetchPlan {
    /// Read the local file at this path.
    LocalFile(String),
    /// Run a fetch tool, up to `attempts` times.
    Remote { attempts: u32 },
}

/// The plan of `fetch_url`: unsupported addresses and a zero timeout are
/// refused, `file://` is read directly, anything else is tried once more
/// than the retry count (saturating).
pub fn fetch_plan(url: &str, timeout_secs: u64, retry: u32) -> (r: Result<FetchPlan, CliError>)
    ensures
        !supported_url(url@) ==> r is Err && r->Err_0.code == E_RUNTIME && r->Err_0.message@
            == "unsupported URL: "@ + url@,
        supported_url(url@) && timeout_secs == 0 ==> r is Err && r->Err_0.code == E_CONFIG_INVALID
            && r->Err_0.message@ == "invalid --fetch-timeout: "@ + decimal(0),
        supported_url(url@) && timeout_secs > 0 && crate::text::starts_with(url@, "file://"@) ==> (r matches Ok(
            FetchPlan::LocalFile(p),
        ) && p@ == url@.skip(7)),
        supported_url(url@) && timeout_secs > 0 && !crate::text::starts_with(url@, "file://"@) ==> (r matches Ok(
            FetchPlan::Remote { attempts },
        ) && attempts == (if retry == u32::MAX {
            u32::MAX as int
        } else {
            retry + 1
        })),
{
    if !is_supported_url(url) {
        let mut m = copy_str("unsupported URL: ");
        append_str(&mut m, url);
        return Err(CliError { code: E_RUNTIME, message: m });
    }
    if timeout_secs == 0 {
        let mut m = copy_str("invalid --fetch-timeout: ");
        append_str(&mut m, decimal_string(0).as_str());
        return Err(CliError { code: E_CONFIG_INVALID, message: m });
    }
    let cs = chars_of(url);
    proof {
        reveal_strlit("file://");
    }
    if crate::text::starts_with_str(&cs, "file://") {
        let p = crate::text::sub_chars(&cs, 7, cs.len());
        assert(p@ =~= url@.skip(7));
        return Ok(FetchPlan::LocalFile(string_of(&p)));
    }
    let attempts = if retry == u32::MAX {
        u32::MAX
    } else {
        retry + 1
    };
    Ok(FetchPlan::Remote { attempts })
}

} // verus!
