//! Decisions around the commands the repository tool runs.
use vstd::prelude::*;
use crate::text::{copy_str, append_str};
use crate::pica_cli::types::{CliError, E_MISSING_COMMAND};

verus! {

/// Ok when the command is available, else the missing-command error.
pub fn need_cmd(name: &str, available: bool) -> (r: Result<(), CliError>)
    ensures
        available ==> r is Ok,
        !available ==> r is Err && r->Err_0.code == E_MISSING_COMMAND && r->Err_0.message@
            == "missing required command: "@ + name@,
{
    if available {
        Ok(())
    } else {
        let mut m = copy_str("missing required command: ");
        append_str(&mut m, name);
        Err(CliError { code: E_MISSING_COMMAND, message: m })
    }
}

} // verus!
