//! The remove of the repository tool: the remove command it runs from the
//! installed command tree, the command files and the `opkg` packages it
//! takes out.
use vstd::prelude::*;
use crate::text::{chars_of, copy_str, append_str, string_views};
use crate::json::{JsonValue, str_or};
use crate::pica_pkg_cli::helpers::{string_items, manifest_get_array, manifest_get_scalar};
use crate::pica_pkg_cli::lifecycle::installed_manifest;
use crate::pica_cli::types::{CliError, DEFAULT_ERROR_CODE};

verus! {

/// What removing a package does.
pub struct RemoveSteps {
    /// The remove command, relative to the installed command tree.
    pub remove_target: String,
    /// The command files to delete.
    pub cmd_files: Vec<String>,
    /// The `opkg` packages to remove, in the order the manifest lists them.
    pub opkg_names: Vec<String>,
}

/// The non-empty texts, in order.
pub open spec fn nonempty_texts(l: Seq<Seq<char>>) -> Seq<Seq<char>> {
    l.filter(|s: Seq<char>| s.len() > 0)
}

/// The installed path of each command.
pub open spec fn bin_paths(l: Seq<Seq<char>>) -> Seq<Seq<char>> {
    l.map_values(|s: Seq<char>| "/usr/bin/"@ + s)
}

fn nonempty_of(items: &Vec<String>) -> (r: Vec<String>)
    ensures
        string_views(r@) == nonempty_texts(string_views(items@)),
{
    let ghost src = string_views(items@);
    let mut out: Vec<String> = Vec::new();
    let mut i: usize = 0;
    while i < items.len()
        invariant
            i <= items@.len(),
            src == string_views(items@),
            string_views(out@) == nonempty_texts(src.take(i as int)),
        decreases items.len() - i,
    {
        proof {
            let t = src.take(i + 1);
            assert(t.drop_last() =~= src.take(i as int));
            assert(t.last() == items@[i as int]@);
            reveal(Seq::filter);
        }
        if !items[i].as_str().is_empty() {
            let ghost before = string_views(out@);
            out.push(items[i].clone());
            assert(string_views(out@) =~= before.push(items@[i as int]@));
        }
        i += 1;
    }
    assert(src.take(items@.len() as int) =~= src);
    out
}

/// The steps of removing `pkgname`: its remove command is always looked up
/// under the package's directory of the command tree.
pub fn remove_steps(db: &JsonValue, pkgname: &str) -> (r: Result<RemoveSteps, CliError>)
    ensures
        match installed_manifest(*db, pkgname@) {
            None => r is Err && r->Err_0.code == DEFAULT_ERROR_CODE && r->Err_0.message@ == "not installed: "@
                + pkgname@,
            Some(m) => r is Ok && r->Ok_0.remove_target@ == pkgname@ + "/"@ + str_or(m, "cmd_remove"@, Seq::empty())
                && string_views(r->Ok_0.cmd_files@) == bin_paths(nonempty_texts(string_items(m, "cmd"@)))
                && string_views(r->Ok_0.opkg_names@) == nonempty_texts(string_items(m, "opkg"@)),
        },
{
    let manifest = match db.get("installed") {
        Some(inst) => match inst {
            JsonValue::Object(_) => match inst.get(pkgname) {
                Some(entry) => entry.get("manifest"),
                None => None,
            },
            _ => None,
        },
        None => None,
    };
    let manifest = match manifest {
        Some(m) => m,
        None => {
            let mut msg = copy_str("not installed: ");
            append_str(&mut msg, pkgname);
            return Err(CliError { code: DEFAULT_ERROR_CODE, message: msg });
        },
    };
    let cmd_remove = manifest_get_scalar(manifest, "cmd_remove");
    let mut remove_target = copy_str(pkgname);
    append_str(&mut remove_target, "/");
    append_str(&mut remove_target, cmd_remove.as_str());
    let cmds = nonempty_of(&manifest_get_array(manifest, "cmd"));
    let mut cmd_files: Vec<String> = Vec::new();
    let mut i: usize = 0;
    while i < cmds.len()
        invariant
            i <= cmds@.len(),
            string_views(cmd_files@) == bin_paths(string_views(cmds@).take(i as int)),
        decreases cmds.len() - i,
    {
        let mut p = copy_str("/usr/bin/");
        append_str(&mut p, cmds[i].as_str());
        let ghost before = string_views(cmd_files@);
        cmd_files.push(p);
        assert(string_views(cmd_files@) =~= before.push("/usr/bin/"@ + cmds@[i as int]@));
        assert(bin_paths(string_views(cmds@).take(i + 1)) =~= bin_paths(string_views(cmds@).take(i as int)).push(
            "/usr/bin/"@ + cmds@[i as int]@,
        ));
        i += 1;
    }
    assert(string_views(cmds@).take(cmds@.len() as int) =~= string_views(cmds@));
    let opkg_names = nonempty_of(&manifest_get_array(manifest, "opkg"));
    Ok(RemoveSteps { remove_target, cmd_files, opkg_names })
}

/// The path of a command of the installed tree: absolute paths as given,
/// others under `/usr/lib/pica/cmd/`.
pub open spec fn tree_path(cmd_rel: Seq<char>) -> Seq<char> {
    if cmd_rel.len() > 0 && cmd_rel[0] == '/' {
        cmd_rel
    } else {
        "/usr/lib/pica/cmd/"@ + cmd_rel
    }
}

/// What to do for a command of the installed tree.
pub enum TreeCommand {
    /// No command.
    Skip,
    /// Run the file at `path` with `bash`, after logging `line`.
    Run { path: String, line: String },
}

/// The path of command `cmd_rel` of the installed tree.
pub fn tree_command_path(cmd_rel: &str) -> (r: String)
    ensures
        r@ == tree_path(cmd_rel@),
{
    let cs = chars_of(cmd_rel);
    if cs.len() > 0 && cs[0] == '/' {
        copy_str(cmd_rel)
    } else {
        let mut p = copy_str("/usr/lib/pica/cmd/");
        append_str(&mut p, cmd_rel);
        p
    }
}

/// The step for command `cmd_rel` of the installed tree, run for `label`,
/// given whether its file exists: a missing file is an error.
pub fn run_cmd_install_tree(cmd_rel: &str, label: &str, is_file: bool) -> (r: Result<TreeCommand, CliError>)
    ensures
        cmd_rel@.len() == 0 ==> r matches Ok(TreeCommand::Skip),
        cmd_rel@.len() > 0 && !is_file ==> r is Err && r->Err_0.code == DEFAULT_ERROR_CODE
            && r->Err_0.message@ == label@ + " cmd not found: "@ + cmd_rel@ + " (expected at "@
            + tree_path(cmd_rel@) + ")"@,
        cmd_rel@.len() > 0 && is_file ==> (r matches Ok(TreeCommand::Run { path, line }) && path@
            == tree_path(cmd_rel@) && line@ == "Running "@ + label@ + " cmd: "@ + cmd_rel@),
{
    if cmd_rel.is_empty() {
        return Ok(TreeCommand::Skip);
    }
    let path = tree_command_path(cmd_rel);
    if !is_file {
        let mut m = copy_str(label);
        append_str(&mut m, " cmd not found: ");
        append_str(&mut m, cmd_rel);
        append_str(&mut m, " (expected at ");
        append_str(&mut m, path.as_str());
        append_str(&mut m, ")");
        return Err(CliError { code: DEFAULT_ERROR_CODE, message: m });
    }
    let mut line = copy_str("Running ");
    append_str(&mut line, label);
    append_str(&mut line, " cmd: ");
    append_str(&mut line, cmd_rel);
    Ok(TreeCommand::Run { path, line })
}

} // verus!
