//! The install steps of the repository tool where it decides otherwise than
//! the package tool: which errors it reports, how it runs hooks, and that it
//! does not skip an empty dependency group.
use vstd::prelude::*;
use crate::text::{copy_str, append_str, string_views};
use crate::pica_pkg_core::manifest::{Manifest, first_text};
use crate::pica_pkg_cli::feed::{FeedInstall, nonempty_names};
use crate::pica_pkg_cli::pipeline::{PackageFields, missing_field, fields_read};
use crate::pica_pkg_cli::sync::{RepoSource, first_repo_fault};
use crate::json::{JsonValue, json_get, str_or};
use crate::text::trim;
use crate::pica_cli::types::{CliError, DEFAULT_ERROR_CODE, E_POLICY_INVALID};

verus! {

/// A manifest field that must not be empty.
pub fn required_manifest_field(manifest: &Manifest, key: &str) -> (r: Result<String, CliError>)
    ensures
        first_text(manifest.value, key@).len() == 0 ==> r is Err && r->Err_0.code == DEFAULT_ERROR_CODE
            && r->Err_0.message@ == "manifest missing "@ + key@,
        first_text(manifest.value, key@).len() > 0 ==> r is Ok && r->Ok_0@ == first_text(manifest.value, key@),
{
    let value = manifest.get_first(key);
    if value.as_str().is_empty() {
        let mut m = copy_str("manifest missing ");
        append_str(&mut m, key);
        Err(CliError { code: DEFAULT_ERROR_CODE, message: m })
    } else {
        Ok(value)
    }
}

/// The fields read from a manifest, or the first required one missing.
pub fn package_fields(manifest: &Manifest) -> (r: Result<PackageFields, CliError>)
    ensures
        match missing_field(manifest.value) {
            Some(k) => r is Err && r->Err_0.code == DEFAULT_ERROR_CODE && r->Err_0.message@
                == "manifest missing "@ + k,
            None => r is Ok && fields_read(r->Ok_0, manifest.value),
        },
{
    match crate::pica_pkg_cli::pipeline::package_fields(manifest) {
        Ok(p) => Ok(p),
        Err(e) => Err(CliError { code: DEFAULT_ERROR_CODE, message: e.message }),
    }
}

/// The repositories of the configuration, each with trimmed name, address
/// and platform; a runtime error when there are none (the configuration
/// file is named in it), a configuration error when one lacks a name or an
/// address.
pub fn configured_repos(conf: &JsonValue, conf_file: &str) -> (r: Result<Vec<RepoSource>, CliError>)
    ensures
        match json_get(*conf, "repos"@) {
            Some(JsonValue::Array(items)) => if items@.len() == 0 {
                r is Err && r->Err_0.code == DEFAULT_ERROR_CODE && r->Err_0.message@
                    == "no repos configured in "@ + conf_file@
            } else {
                match first_repo_fault(items@, 0) {
                    Some(m) => r is Err && r->Err_0.code == crate::pica_pkg_cli::types::E_CONFIG_INVALID
                        && r->Err_0.message@ == m,
                    None => r is Ok && r->Ok_0@.len() == items@.len() && forall|k: int|
                        0 <= k < items@.len() ==> (#[trigger] r->Ok_0@[k]).name@ == trim(
                            str_or(items@[k], "name"@, Seq::empty()),
                        ) && r->Ok_0@[k].url@ == trim(str_or(items@[k], "url"@, Seq::empty()))
                            && r->Ok_0@[k].platform@ == trim(
                            str_or(items@[k], "platform"@, Seq::empty()),
                        ),
                }
            },
            _ => r is Err && r->Err_0.code == DEFAULT_ERROR_CODE && r->Err_0.message@
                == "no repos configured in "@ + conf_file@,
        },
{
    let none = match conf.get("repos") {
        Some(JsonValue::Array(items)) => items.len() == 0,
        _ => true,
    };
    if none {
        let mut m = copy_str("no repos configured in ");
        append_str(&mut m, conf_file);
        return Err(CliError { code: DEFAULT_ERROR_CODE, message: m });
    }
    match crate::pica_pkg_cli::sync::configured_repos(conf, conf_file) {
        Ok(v) => Ok(v),
        Err(e) => Err(CliError { code: e.code, message: e.message }),
    }
}

/// What to do for a hook of a package.
pub enum HookStep {
    /// The package declares no such hook.
    Skip,
    /// Run the hook script with `bash`, after logging this line.
    Run(String),
}

/// The step for hook `hook_rel` of the unpacked package, given whether the
/// script exists there as a file.
pub fn run_hook(hook_rel: &str, label: &str, hook_is_file: bool) -> (r: Result<HookStep, CliError>)
    ensures
        hook_rel@.len() == 0 ==> r matches Ok(HookStep::Skip),
        hook_rel@.len() > 0 && !hook_is_file ==> r is Err && r->Err_0.code == DEFAULT_ERROR_CODE
            && r->Err_0.message@ == label@ + " hook not found: "@ + hook_rel@,
        hook_rel@.len() > 0 && hook_is_file ==> (r matches Ok(HookStep::Run(line)) && line@
            == "Running "@ + label@ + " hook: "@ + hook_rel@),
{
    if hook_rel.is_empty() {
        return Ok(HookStep::Skip);
    }
    if !hook_is_file {
        let mut m = copy_str(label);
        append_str(&mut m, " hook not found: ");
        append_str(&mut m, hook_rel);
        return Err(CliError { code: DEFAULT_ERROR_CODE, message: m });
    }
    let mut line = copy_str("Running ");
    append_str(&mut line, label);
    append_str(&mut line, " hook: ");
    append_str(&mut line, hook_rel);
    Ok(HookStep::Run(line))
}

/// How to install a dependency group, given the feed decision `use_feeds`;
/// an empty group without bundled files is not skipped but decided like
/// any other.
pub fn install_via_feeds_or_ipk(
    label: &str,
    pkg_list: &[String],
    ipk_dir: &str,
    have_ipk_dir: bool,
    use_feeds: i8,
) -> (r: Result<FeedInstall, CliError>)
    ensures
        use_feeds == -1 ==> r is Err && r->Err_0.code == E_POLICY_INVALID && r->Err_0.message@ == label@
            + " requires feed packages under feed-only policy"@,
        use_feeds == 1 && pkg_list@.len() == 0 ==> r is Err && r->Err_0.code == DEFAULT_ERROR_CODE
            && r->Err_0.message@ == label@ + " packages not defined in manifest"@,
        use_feeds == 1 && pkg_list@.len() > 0 ==> (r matches Ok(FeedInstall::Feeds(v)) && string_views(
            v@,
        ) == nonempty_names(string_views(pkg_list@))),
        use_feeds != -1 && use_feeds != 1 && have_ipk_dir ==> (r matches Ok(FeedInstall::IpkDir(d))
            && d@ == ipk_dir@),
        use_feeds != -1 && use_feeds != 1 && !have_ipk_dir ==> r is Err && r->Err_0.code
            == DEFAULT_ERROR_CODE && r->Err_0.message@ == label@
            + " not available in feeds and no packaged ipks provided"@,
{
    if use_feeds == -1 {
        let mut m = copy_str(label);
        append_str(&mut m, " requires feed packages under feed-only policy");
        return Err(CliError { code: E_POLICY_INVALID, message: m });
    }
    if use_feeds == 1 {
        if pkg_list.len() == 0 {
            let mut m = copy_str(label);
            append_str(&mut m, " packages not defined in manifest");
            return Err(CliError { code: DEFAULT_ERROR_CODE, message: m });
        }
        let mut names: Vec<String> = Vec::new();
        let mut i: usize = 0;
        while i < pkg_list.len()
            invariant
                i <= pkg_list@.len(),
                string_views(names@) == nonempty_names(string_views(pkg_list@).take(i as int)),
            decreases pkg_list.len() - i,
        {
            proof {
                let t = string_views(pkg_list@).take(i + 1);
                assert(t.drop_last() =~= string_views(pkg_list@).take(i as int));
                assert(t.last() == pkg_list@[i as int]@);
                reveal(Seq::filter);
            }
            if !pkg_list[i].as_str().is_empty() {
                let ghost before = string_views(names@);
                names.push(pkg_list[i].clone());
                assert(string_views(names@) =~= before.push(pkg_list@[i as int]@));
            }
            i += 1;
        }
        assert(string_views(pkg_list@).take(pkg_list@.len() as int) =~= string_views(pkg_list@));
        return Ok(FeedInstall::Feeds(names));
    }
    if have_ipk_dir {
        return Ok(FeedInstall::IpkDir(copy_str(ipk_dir)));
    }
    let mut m = copy_str(label);
    append_str(&mut m, " not available in feeds and no packaged ipks provided");
    Err(CliError { code: DEFAULT_ERROR_CODE, message: m })
}

} // verus!
