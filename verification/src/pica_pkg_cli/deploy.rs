//! Where an install puts the files of a package, and the list of installed
//! files it records: the commands under `/usr/bin`, the sources under
//! `/usr/lib/pica/src/<pkgname>`, the environment file under
//! `/etc/pica/env.d`, and the kept hooks under `/usr/lib/pica/cmd/<pkgname>`;
//! and the order of the stages of an install.
use vstd::prelude::*;
use crate::text::{copy_str, append_str, str_eq, string_views};
use crate::pica_pkg_cli::pipeline::item_views;
use crate::pica_pkg_cli::types::{CliError, E_PACKAGE_INVALID};

verus! {

/// The installed paths of the command files, leaving out `.env`.
pub open spec fn cmd_targets(names: Seq<Seq<char>>) -> Seq<Seq<char>> {
    names.filter(|n: Seq<char>| n != ".env"@).map_values(|n: Seq<char>| "/usr/bin/"@ + n)
}

/// Where the sources of a package go.
pub open spec fn src_target(pkgname: Seq<char>) -> Seq<char> {
    "/usr/lib/pica/src/"@ + pkgname
}

/// Where the environment file of a package goes.
pub open spec fn env_target(pkgname: Seq<char>) -> Seq<char> {
    "/etc/pica/env.d/"@ + pkgname + ".env"@
}

/// The installed paths of the kept hook files.
pub open spec fn hook_targets(pkgname: Seq<char>, names: Seq<Seq<char>>) -> Seq<Seq<char>> {
    names.map_values(|n: Seq<char>| "/usr/lib/pica/cmd/"@ + pkgname + "/"@ + n)
}

/// The files an install records, in order: the command files (from the
/// names of the regular files of `cmd/`), the source directory when the
/// package has `src/`, the environment file when it has `cmd/.env`, then
/// the hook files kept (from the names of the regular files of the hook
/// directory).
pub open spec fn deployed(
    pkgname: Seq<char>,
    cmd_names: Seq<Seq<char>>,
    has_src: bool,
    has_env: bool,
    hook_names: Seq<Seq<char>>,
) -> Seq<Seq<char>> {
    cmd_targets(cmd_names) + (if has_src {
        seq![src_target(pkgname)]
    } else {
        Seq::empty()
    }) + (if has_env {
        seq![env_target(pkgname)]
    } else {
        Seq::empty()
    }) + hook_targets(pkgname, hook_names)
}

/// The directory the sources of `pkgname` are copied to.
pub fn src_target_dir(pkgname: &str) -> (r: String)
    ensures
        r@ == src_target(pkgname@),
{
    let mut p = copy_str("/usr/lib/pica/src/");
    append_str(&mut p, pkgname);
    p
}

/// The file the environment of `pkgname` is copied to.
pub fn env_target_file(pkgname: &str) -> (r: String)
    ensures
        r@ == env_target(pkgname@),
{
    let mut p = copy_str("/etc/pica/env.d/");
    append_str(&mut p, pkgname);
    append_str(&mut p, ".env");
    p
}

/// The list of installed files recorded for a package.
pub fn deployed_files(
    pkgname: &str,
    cmd_names: &Vec<String>,
    has_src: bool,
    has_env: bool,
    hook_names: &Vec<String>,
) -> (r: Vec<String>)
    ensures
        string_views(r@) == deployed(pkgname@, string_views(cmd_names@), has_src, has_env, string_views(hook_names@)),
{
    let ghost cs = string_views(cmd_names@);
    let ghost hs = string_views(hook_names@);
    let mut out: Vec<String> = Vec::new();
    let mut i: usize = 0;
    while i < cmd_names.len()
        invariant
            i <= cmd_names@.len(),
            cs == string_views(cmd_names@),
            string_views(out@) == cmd_targets(cs.take(i as int)),
        decreases cmd_names.len() - i,
    {
        proof {
            let t = cs.take(i + 1);
            assert(t.drop_last() =~= cs.take(i as int));
            assert(t.last() == cmd_names@[i as int]@);
            reveal(Seq::filter);
        }
        if !str_eq(cmd_names[i].as_str(), ".env") {
            let mut p = copy_str("/usr/bin/");
            append_str(&mut p, cmd_names[i].as_str());
            let ghost before = string_views(out@);
            out.push(p);
            assert(string_views(out@) =~= before.push("/usr/bin/"@ + cmd_names@[i as int]@));
            assert(cmd_targets(cs.take(i + 1)) =~= cmd_targets(cs.take(i as int)).push(
                "/usr/bin/"@ + cmd_names@[i as int]@,
            ));
        } else {
            assert(cmd_targets(cs.take(i + 1)) =~= cmd_targets(cs.take(i as int)));
        }
        i += 1;
    }
    assert(cs.take(cmd_names@.len() as int) =~= cs);
    let ghost after_cmds = string_views(out@);
    if has_src {
        out.push(src_target_dir(pkgname));
    }
    if has_env {
        out.push(env_target_file(pkgname));
    }
    let ghost base = string_views(out@);
    assert(base =~= after_cmds + (if has_src {
        seq![src_target(pkgname@)]
    } else {
        Seq::<Seq<char>>::empty()
    }) + (if has_env {
        seq![env_target(pkgname@)]
    } else {
        Seq::<Seq<char>>::empty()
    }));
    let mut k: usize = 0;
    while k < hook_names.len()
        invariant
            k <= hook_names@.len(),
            hs == string_views(hook_names@),
            string_views(out@) == base + hook_targets(pkgname@, hs.take(k as int)),
        decreases hook_names.len() - k,
    {
        let mut p = copy_str("/usr/lib/pica/cmd/");
        append_str(&mut p, pkgname);
        append_str(&mut p, "/");
        append_str(&mut p, hook_names[k].as_str());
        let ghost before = string_views(out@);
        out.push(p);
        assert(string_views(out@) =~= before.push("/usr/lib/pica/cmd/"@ + pkgname@ + "/"@ + hook_names@[k as int]@));
        assert(hook_targets(pkgname@, hs.take(k + 1)) =~= hook_targets(pkgname@, hs.take(k as int)).push(
            "/usr/lib/pica/cmd/"@ + pkgname@ + "/"@ + hook_names@[k as int]@,
        ));
        k += 1;
    }
    assert(hs.take(hook_names@.len() as int) =~= hs);
    out
}

/// A stage of installing a package file.
#[derive(Debug, Clone, Copy, PartialEq, Eq, Structural)]
pub enum InstallStage {
    /// Unpack the file and read its manifest and hook settings.
    ReadPackage,
    /// The client version the package asks for.
    CheckVersion,
    /// The host checks: uname, os, arch, package manager, visibility, LuCI.
    CheckHost,
    /// Precheck and install the dependencies through the package manager.
    Dependencies,
    /// Run the install or update hook and keep the hook files.
    Hooks,
    /// Copy the commands, sources and environment file into place.
    Deploy,
    /// Write the install report and the database entry.
    Record,
}

/// The stages of an install, in order.
pub open spec fn install_stages_spec() -> Seq<InstallStage> {
    seq![
        InstallStage::ReadPackage,
        InstallStage::CheckVersion,
        InstallStage::CheckHost,
        InstallStage::Dependencies,
        InstallStage::Hooks,
        InstallStage::Deploy,
        InstallStage::Record,
    ]
}

/// A stage that only reads and checks.
pub open spec fn is_check(s: InstallStage) -> bool {
    s == InstallStage::ReadPackage || s == InstallStage::CheckVersion || s == InstallStage::CheckHost
}

/// The stages of an install, in the order they are taken; the caller stops
/// at the first that fails.
pub fn install_stages() -> (r: Vec<InstallStage>)
    ensures
        r@ == install_stages_spec(),
{
    let r = vec![
        InstallStage::ReadPackage,
        InstallStage::CheckVersion,
        InstallStage::CheckHost,
        InstallStage::Dependencies,
        InstallStage::Hooks,
        InstallStage::Deploy,
        InstallStage::Record,
    ];
    assert(r@ =~= install_stages_spec());
    r
}

/// Every check of an install comes before any stage that changes the
/// system: no package-manager call, hook, file copy or record is made for
/// a package that fails its version gate or its host checks.
pub proof fn law_checks_before_changes()
    ensures
        forall|i: int, j: int|
            0 <= i < j < install_stages_spec().len() && !is_check(#[trigger] install_stages_spec()[i])
                ==> !is_check(#[trigger] install_stages_spec()[j]),
        forall|i: int|
            0 <= i < install_stages_spec().len() ==> (is_check(#[trigger] install_stages_spec()[i])
                <==> i < 3),
{
}

/// The names of the hooks to keep, in order.
pub open spec fn kept_names(items: Seq<(Seq<char>, bool)>) -> Seq<Seq<char>> {
    items.filter(|x: (Seq<char>, bool)| x.1).map_values(|x: (Seq<char>, bool)| x.0)
}

/// What keeping the hook files of a package comes to: the hooks copied into
/// the hook directory, in order; the hook whose script the package lacks,
/// if any, which ends the install with an error after those copies; and
/// whether the hook directory is removed because no hook is kept.
#[derive(Debug)]
pub struct HookPlan {
    pub copies: Vec<String>,
    pub missing: Option<String>,
    pub remove_dir: bool,
}

/// The error for a hook script the package lacks.
pub open spec fn missing_hook_message(hook: Seq<char>) -> Seq<char> {
    "cmd script not found in package: "@ + hook
}

impl HookPlan {
    /// The error the install ends with, when a hook script is missing.
    pub fn failure(&self) -> (r: Option<CliError>)
        ensures
            match self.missing {
                Some(m) => r matches Some(e) && e.code == E_PACKAGE_INVALID && e.message@
                    == missing_hook_message(m@),
                None => r is None,
            },
    {
        match &self.missing {
            Some(m) => {
                let mut msg = copy_str("cmd script not found in package: ");
                append_str(&mut msg, m.as_str());
                Some(CliError::new(E_PACKAGE_INVALID, msg.as_str()))
            },
            None => None,
        }
    }
}

/// The plan for the hook files of a package, from its hook items (name and
/// whether it is kept) and whether the package holds each hook's script.
/// The items are taken in order: a missing script stops the plan; a kept
/// hook is copied.  The hook directory is removed when the plan ends with
/// no hook kept.
pub fn hook_copy_plan(items: &Vec<(String, bool)>, present: &Vec<bool>) -> (r: HookPlan)
    requires
        items@.len() == present@.len(),
    ensures
        match r.missing {
            Some(m) => exists|k: int|
                0 <= k < items@.len() && !present@[k] && (forall|j: int| 0 <= j < k ==> present@[j])
                    && m@ == items@[k].0@ && string_views(r.copies@) == kept_names(
                    item_views(items@).take(k),
                ),
            None => (forall|j: int| 0 <= j < items@.len() ==> present@[j]) && string_views(r.copies@)
                == kept_names(item_views(items@)),
        },
        r.remove_dir == (r.missing is None && r.copies@.len() == 0),
{
    let ghost iv = item_views(items@);
    let mut copies: Vec<String> = Vec::new();
    let mut i: usize = 0;
    while i < items.len()
        invariant
            i <= items@.len(),
            items@.len() == present@.len(),
            iv == item_views(items@),
            forall|j: int| 0 <= j < i ==> present@[j],
            string_views(copies@) == kept_names(iv.take(i as int)),
        decreases items.len() - i,
    {
        if !present[i] {
            return HookPlan { copies, missing: Some(items[i].0.clone()), remove_dir: false };
        }
        proof {
            let t = iv.take(i + 1);
            assert(t.drop_last() =~= iv.take(i as int));
            assert(t.last() == iv[i as int]);
            reveal(Seq::filter);
        }
        if items[i].1 {
            let ghost before = string_views(copies@);
            copies.push(items[i].0.clone());
            assert(string_views(copies@) =~= before.push(items@[i as int].0@));
            assert(kept_names(iv.take(i + 1)) =~= kept_names(iv.take(i as int)).push(
                items@[i as int].0@,
            ));
        } else {
            assert(kept_names(iv.take(i + 1)) =~= kept_names(iv.take(i as int)));
        }
        i += 1;
    }
    assert(iv.take(items@.len() as int) =~= iv);
    let remove_dir = copies.len() == 0;
    HookPlan { copies, missing: None, remove_dir }
}

} // verus!
