//! The decisions of removing and upgrading installed packages.
use vstd::prelude::*;
use crate::text::{chars_of, trim, trim_chars, string_of, copy_str, append_str, push_char, string_views, str_eq, starts_with, ends_with};
use crate::json::{JsonValue, json_get, find_key, find_key_exec, lemma_find_key_some};
use crate::strset::{sorted_unique, strictly_sorted};
use crate::pica_pkg_core::manifest::{first_text, get_first, version_display};
use crate::pica_pkg_core::version::{version_key, pkgver_ge_spec, pkgver_ge, law_pkgver_ge_reflexive, law_pkgver_ge_total};
use crate::pica_pkg_core::version_order::{release_is_number, law_pkgver_ge_transitive};
use crate::pica_pkg_cli::helpers::{string_items, manifest_get_array, manifest_get_scalar};
use crate::text::{replace_all, replace_exec};
use crate::pica_pkg_cli::types::{CliError, E_ARG_INVALID};
use crate::json::str_or;

verus! {

/// What removing a package does.
pub struct RemovePlan {
    /// The remove hook to run, as given (empty for none).
    pub remove_target: String,
    /// The package manager the package was installed through.
    pub pkgmgr: String,
    /// The system packages to remove, sorted, each once.
    pub remove_set: Vec<String>,
}

/// The manifest of an installed package in the database.
pub open spec fn installed_manifest(db: JsonValue, pkgname: Seq<char>) -> Option<JsonValue> {
    match json_get(db, "installed"@) {
        Some(inst) => match inst {
            JsonValue::Object(_) => match json_get(inst, pkgname) {
                Some(entry) => json_get(entry, "manifest"@),
                None => None,
            },
            _ => None,
        },
        None => None,
    }
}

/// The remove hook as run: an absolute path or nothing as given, else under
/// the package's hook directory.
pub open spec fn remove_target_of(pkgname: Seq<char>, cmd: Seq<char>) -> Seq<char> {
    if cmd.len() == 0 || cmd[0] == '/' {
        cmd
    } else {
        pkgname + "/"@ + cmd
    }
}

/// The names the remove takes out: the trimmed non-empty `app` names and,
/// for `zh-cn`, the translation named by `app_i18n`.
pub open spec fn remove_names(m: JsonValue, lang: Seq<char>) -> Seq<Seq<char>> {
    let apps = string_items(m, "app"@).map_values(|a: Seq<char>| trim(a)).filter(|a: Seq<char>| a.len() > 0);
    let tpl = str_or(m, "app_i18n"@, Seq::empty());
    if tpl.len() > 0 && lang == "zh-cn"@ {
        apps.push(replace_all(tpl, "{lang}"@, lang))
    } else {
        apps
    }
}

/// The plan of removing `pkgname`, with `lang` the configured language.
#[verifier::loop_isolation(false)]
pub fn remove_plan(db: &JsonValue, pkgname: &str, lang: &str) -> (r: Result<RemovePlan, CliError>)
    ensures
        match installed_manifest(*db, pkgname@) {
            None => r is Err && r->Err_0.code == E_ARG_INVALID && r->Err_0.message@ == "not installed: "@
                + pkgname@,
            Some(m) => r is Ok && r->Ok_0.remove_target@ == remove_target_of(
                pkgname@,
                str_or(m, "cmd_remove"@, Seq::empty()),
            ) && r->Ok_0.pkgmgr@ == (if str_or(m, "pkgmgr"@, Seq::empty()).len() == 0 {
                "opkg"@
            } else {
                str_or(m, "pkgmgr"@, Seq::empty())
            }) && strictly_sorted(string_views(r->Ok_0.remove_set@)) && forall|x: Seq<char>|
                string_views(r->Ok_0.remove_set@).contains(x) <==> remove_names(m, lang@).contains(x),
        },
{
    let manifest = match db.get("installed") {
        Some(inst) => match inst {
            JsonValue::Object(_) => match inst.get(pkgname) {
                Some(entry) => entry.get("manifest"),
                None => None,
            },
            _ => None,
        },
        None => None,
    };
    let manifest = match manifest {
        Some(m) => m,
        None => {
            let mut msg = copy_str("not installed: ");
            append_str(&mut msg, pkgname);
            return Err(CliError { code: E_ARG_INVALID, message: msg });
        },
    };
    let cmd_remove = manifest_get_scalar(manifest, "cmd_remove");
    let raw_mgr = manifest_get_scalar(manifest, "pkgmgr");
    let pkgmgr = if raw_mgr.as_str().is_empty() {
        copy_str("opkg")
    } else {
        raw_mgr
    };
    let cc = chars_of(cmd_remove.as_str());
    let remove_target = if cc.len() == 0 || cc[0] == '/' {
        cmd_remove
    } else {
        let mut t = copy_str(pkgname);
        append_str(&mut t, "/");
        append_str(&mut t, cmd_remove.as_str());
        t
    };
    let apps = manifest_get_array(manifest, "app");
    let ghost src = string_views(apps@);
    let mut names: Vec<String> = Vec::new();
    let mut i: usize = 0;
    while i < apps.len()
        invariant
            i <= apps@.len(),
            src == string_views(apps@),
            string_views(names@) == src.take(i as int).map_values(|a: Seq<char>| trim(a)).filter(
                |a: Seq<char>| a.len() > 0,
            ),
        decreases apps.len() - i,
    {
        proof {
            let t = src.take(i + 1).map_values(|a: Seq<char>| trim(a));
            assert(t.drop_last() =~= src.take(i as int).map_values(|a: Seq<char>| trim(a)));
            assert(t.last() == trim(apps@[i as int]@));
            reveal(Seq::filter);
        }
        let tc = trim_chars(&chars_of(apps[i].as_str()));
        if tc.len() > 0 {
            let ghost before = string_views(names@);
            names.push(string_of(&tc));
            assert(string_views(names@) =~= before.push(tc@));
        }
        i += 1;
    }
    assert(src.take(apps@.len() as int) =~= src);
    let tpl = manifest_get_scalar(manifest, "app_i18n");
    if !tpl.as_str().is_empty() && str_eq(lang, "zh-cn") {
        proof {
            reveal_strlit("{lang}");
        }
        let ghost before = string_views(names@);
        let item = replace_exec(tpl.as_str(), "{lang}", lang);
        names.push(item);
        assert(string_views(names@) =~= before.push(item@));
    }
    let remove_set = sorted_unique(&names);
    Ok(RemovePlan { remove_target, pkgmgr, remove_set })
}

/// The path of a command run from the installed hook tree, if it is run:
/// nothing for an empty name or a directory; absolute paths as given.
pub open spec fn cmd_tree_path(cmd_rel: Seq<char>) -> Option<Seq<char>> {
    if cmd_rel.len() == 0 || cmd_rel.last() == '/' {
        None
    } else if cmd_rel[0] == '/' {
        Some(cmd_rel)
    } else {
        Some("/usr/lib/pica/cmd/"@ + cmd_rel)
    }
}

pub fn run_cmd_install_tree(cmd_rel: &str) -> (r: Option<String>)
    ensures
        match r {
            Some(p) => cmd_tree_path(cmd_rel@) == Some(p@),
            None => cmd_tree_path(cmd_rel@) is None,
        },
{
    let cs = chars_of(cmd_rel);
    if cs.len() == 0 || cs[cs.len() - 1] == '/' {
        return None;
    }
    if cs[0] == '/' {
        return Some(copy_str(cmd_rel));
    }
    let mut p = copy_str("/usr/lib/pica/cmd/");
    append_str(&mut p, cmd_rel);
    Some(p)
}

/// An installed package the upgrade looks at.
pub struct UpgradeCandidate {
    pub pkgname: String,
    pub selector: String,
    pub installed_ver: String,
}

/// The app name an upgrade selects a package by.
pub open spec fn upgrade_appname(pkgname: Seq<char>, m: JsonValue) -> Seq<char> {
    if first_text(m, "appname"@).len() > 0 {
        first_text(m, "appname"@)
    } else if first_text(m, "pkgname"@).len() > 0 {
        first_text(m, "pkgname"@)
    } else {
        pkgname
    }
}

/// The upgrade entries of the installed packages that came from the
/// repositories, in the order of their names.
pub open spec fn upgrade_entries(es: Seq<(String, JsonValue)>) -> Seq<(Seq<char>, Seq<char>, Seq<char>)>
    decreases es.len(),
{
    if es.len() == 0 {
        Seq::empty()
    } else {
        let rest = upgrade_entries(es.drop_last());
        let (name, entry) = es.last();
        let m = match json_get(entry, "manifest"@) {
            Some(v) => v,
            None => JsonValue::Null,
        };
        if first_text(m, "source"@) == "pica"@ {
            let app = upgrade_appname(name@, m);
            let branch = first_text(m, "branch"@);
            let sel = if branch.len() == 0 {
                app
            } else {
                app + "("@ + branch + ")"@
            };
            rest.push((name@, sel, version_key(first_text(m, "pkgver"@), first_text(m, "pkgrel"@))))
        } else {
            rest
        }
    }
}

pub open spec fn candidate_views(v: Seq<UpgradeCandidate>) -> Seq<(Seq<char>, Seq<char>, Seq<char>)> {
    v.map_values(|c: UpgradeCandidate| (c.pkgname@, c.selector@, c.installed_ver@))
}

/// The installed packages from the repositories, with the selector of their
/// app and branch and their installed version.
#[verifier::loop_isolation(false)]
pub fn upgrade_candidates(db: &JsonValue) -> (r: Vec<UpgradeCandidate>)
    ensures
        match json_get(*db, "installed"@) {
            Some(JsonValue::Object(es)) => candidate_views(r@) == upgrade_entries(es@),
            _ => r@.len() == 0,
        },
{
    let mut out: Vec<UpgradeCandidate> = Vec::new();
    let es = match db.get("installed") {
        Some(JsonValue::Object(es)) => es,
        _ => {
            return out;
        },
    };
    let mut i: usize = 0;
    while i < es.len()
        invariant
            i <= es@.len(),
            candidate_views(out@) == upgrade_entries(es@.take(i as int)),
        decreases es.len() - i,
    {
        assert(es@.take(i + 1).drop_last() =~= es@.take(i as int));
        assert(es@.take(i + 1).last() == es@[i as int]);
        let name = &es[i].0;
        let null = JsonValue::Null;
        let m = match es[i].1.get("manifest") {
            Some(v) => v,
            None => &null,
        };
        let source = get_first(m, "source");
        if str_eq(source.as_str(), "pica") {
            let appname = get_first(m, "appname");
            let appname = if !appname.as_str().is_empty() {
                appname
            } else {
                let fallback = get_first(m, "pkgname");
                if !fallback.as_str().is_empty() {
                    fallback
                } else {
                    name.clone()
                }
            };
            let branch = get_first(m, "branch");
            let installed_ver = version_display(m);
            let mut selector = appname;
            if !branch.as_str().is_empty() {
                append_str(&mut selector, "(");
                append_str(&mut selector, branch.as_str());
                append_str(&mut selector, ")");
            }
            assert(selector@ == (if branch@.len() == 0 {
                upgrade_appname(name@, *m)
            } else {
                upgrade_appname(name@, *m) + "("@ + branch@ + ")"@
            }));
            let ghost before = candidate_views(out@);
            let c = UpgradeCandidate { pkgname: name.clone(), selector, installed_ver };
            let ghost cv = (c.pkgname@, c.selector@, c.installed_ver@);
            out.push(c);
            assert(candidate_views(out@) =~= before.push(cv));
        }
        i += 1;
    }
    assert(es@.take(es@.len() as int) =~= es@);
    out
}

/// The manifest of an installed entry, or null.
pub open spec fn entry_manifest_or_null(entry: JsonValue) -> JsonValue {
    match json_get(entry, "manifest"@) {
        Some(v) => v,
        None => JsonValue::Null,
    }
}

proof fn lemma_upgrade_entries_prefix(es: Seq<(String, JsonValue)>, k: int)
    requires
        0 <= k <= es.len(),
    ensures
        upgrade_entries(es.take(k)).len() <= upgrade_entries(es).len(),
        forall|j: int|
            0 <= j < upgrade_entries(es.take(k)).len() ==> #[trigger] upgrade_entries(es)[j]
                == upgrade_entries(es.take(k))[j],
    decreases es.len(),
{
    if k == es.len() {
        assert(es.take(k) =~= es);
    } else {
        lemma_upgrade_entries_prefix(es.drop_last(), k);
        assert(es.drop_last().take(k) =~= es.take(k));
    }
}

/// An upgrade stays on the branch a package was installed from: every
/// installed package from the repositories whose manifest names a branch
/// `b` is looked up as `app(b)`, its app name followed by the branch in
/// brackets, under its own package name and with its installed version.
pub proof fn law_upgrade_keeps_branch(es: Seq<(String, JsonValue)>, i: int)
    requires
        0 <= i < es.len(),
        first_text(entry_manifest_or_null(es[i].1), "source"@) == "pica"@,
        first_text(entry_manifest_or_null(es[i].1), "branch"@).len() > 0,
    ensures
        ({
            let m = entry_manifest_or_null(es[i].1);
            exists|j: int|
                0 <= j < upgrade_entries(es).len() && #[trigger] upgrade_entries(es)[j] == (
                    es[i].0@,
                    upgrade_appname(es[i].0@, m) + "("@ + first_text(m, "branch"@) + ")"@,
                    version_key(first_text(m, "pkgver"@), first_text(m, "pkgrel"@)),
                )
        }),
{
    let m = entry_manifest_or_null(es[i].1);
    let t = es.take(i + 1);
    assert(t.drop_last() =~= es.take(i));
    assert(t.last() == es[i]);
    let j = upgrade_entries(es.take(i)).len() as int;
    assert(upgrade_entries(t)[j] == (
        es[i].0@,
        upgrade_appname(es[i].0@, m) + "("@ + first_text(m, "branch"@) + ")"@,
        version_key(first_text(m, "pkgver"@), first_text(m, "pkgrel"@)),
    ));
    lemma_upgrade_entries_prefix(es, i + 1);
}

/// An upgrade looks only at packages installed from the repositories: each
/// package it considers is an installed one whose manifest says it came
/// from `pica`, listed under that package's name.
pub proof fn law_upgrade_only_repository_packages(es: Seq<(String, JsonValue)>)
    ensures
        forall|j: int| 0 <= j < upgrade_entries(es).len() ==> exists|i: int|
            0 <= i < es.len() && es[i].0@ == (#[trigger] upgrade_entries(es)[j]).0 && first_text(
                entry_manifest_or_null(es[i].1),
                "source"@,
            ) == "pica"@,
    decreases es.len(),
{
    if es.len() > 0 {
        let d = es.drop_last();
        law_upgrade_only_repository_packages(d);
        let rest = upgrade_entries(d);
        let all = upgrade_entries(es);
        assert forall|j: int| 0 <= j < all.len() implies exists|i: int|
            0 <= i < es.len() && es[i].0@ == (#[trigger] all[j]).0 && first_text(
                entry_manifest_or_null(es[i].1),
                "source"@,
            ) == "pica"@ by {
            if j < rest.len() {
                assert(all[j] == rest[j]);
                let i = choose|i: int|
                    0 <= i < d.len() && d[i].0@ == rest[j].0 && first_text(
                        entry_manifest_or_null(d[i].1),
                        "source"@,
                    ) == "pica"@;
                assert(es[i] == d[i]);
            } else {
                assert(es[es.len() - 1] == es.last());
            }
        }
    }
}

/// The selector an upgrade looks a package up by, `app(b)`, reads back as
/// that app and branch, with no version, wherever the app name and the
/// branch hold no selector syntax of their own.
pub proof fn law_upgrade_selector_reads_back(a: Seq<char>, b: Seq<char>)
    requires
        a.len() > 0,
        b.len() > 0,
        crate::pica_core::selector::free_of_markers(a),
        crate::pica_core::selector::free_of_markers(b),
        forall|i: int| 0 <= i < a.len() ==> a[i] != ':',
        forall|i: int| 0 <= i < b.len() ==> b[i] != '(' && b[i] != ':',
    ensures
        crate::pica_core::selector::selector_parts(
            crate::pica_core::selector::normalize(a + "("@ + b + ")"@),
        ) == (a, Seq::<char>::empty(), b),
{
    reveal_strlit("(");
    reveal_strlit(")");
    crate::pica_core::selector::law_canonical_selector_round_trip(a, Seq::empty(), b);
    assert(crate::pica_core::selector::canonical(a, Seq::empty(), b) =~= a + "("@ + b + ")"@);
}

/// The newest version among the candidates: a later one replaces the best
/// when it is not below it.
pub open spec fn newest(vers: Seq<Seq<char>>) -> Seq<char>
    decreases vers.len(),
{
    if vers.len() == 0 {
        Seq::empty()
    } else {
        let b = newest(vers.drop_last());
        if pkgver_ge_spec(vers.last(), b) {
            vers.last()
        } else {
            b
        }
    }
}

/// The version to upgrade to, when the newest version in the repositories
/// is above the installed one.
pub fn upgrade_target(installed_ver: &str, candidate_vers: &Vec<String>) -> (r: Option<String>)
    ensures
        match r {
            Some(v) => v@ == newest(string_views(candidate_vers@)) && !pkgver_ge_spec(installed_ver@, v@),
            None => pkgver_ge_spec(installed_ver@, newest(string_views(candidate_vers@))),
        },
{
    let mut best = String::new();
    let mut i: usize = 0;
    while i < candidate_vers.len()
        invariant
            i <= candidate_vers@.len(),
            best@ == newest(string_views(candidate_vers@).take(i as int)),
        decreases candidate_vers.len() - i,
    {
        assert(string_views(candidate_vers@).take(i + 1).drop_last() =~= string_views(candidate_vers@).take(i as int));
        assert(string_views(candidate_vers@).take(i + 1).last() == candidate_vers@[i as int]@);
        if pkgver_ge(candidate_vers[i].as_str(), best.as_str()) {
            best = candidate_vers[i].clone();
        }
        i += 1;
    }
    assert(string_views(candidate_vers@).take(candidate_vers@.len() as int) =~= string_views(candidate_vers@));
    if pkgver_ge(installed_ver, best.as_str()) {
        None
    } else {
        Some(best)
    }
}

/// The version an upgrade goes to is the newest of the repositories: at
/// least every candidate version, and one of them, when the releases of the
/// candidate versions are numbers.
pub proof fn law_newest_is_highest(vers: Seq<Seq<char>>)
    requires
        forall|i: int| 0 <= i < vers.len() ==> release_is_number(#[trigger] vers[i]),
    ensures
        forall|i: int| 0 <= i < vers.len() ==> pkgver_ge_spec(newest(vers), #[trigger] vers[i]),
        vers.len() > 0 ==> vers.contains(newest(vers)),
    decreases vers.len(),
{
    if vers.len() > 0 {
        let vp = vers.drop_last();
        assert forall|i: int| 0 <= i < vp.len() implies release_is_number(#[trigger] vp[i]) by {
            assert(vp[i] == vers[i]);
        }
        law_newest_is_highest(vp);
        let b = newest(vp);
        let n = vers.len() - 1;
        let last = vers[n];
        assert(vers.last() == last);
        if vp.len() > 0 {
            let j = choose|j: int| 0 <= j < vp.len() && vp[j] == b;
            assert(release_is_number(vp[j]));
            assert(vers[j] == vp[j]);
        }
        if pkgver_ge_spec(last, b) {
            law_pkgver_ge_reflexive(last);
            assert forall|i: int| 0 <= i < vers.len() implies pkgver_ge_spec(
                newest(vers),
                #[trigger] vers[i],
            ) by {
                if i < n {
                    assert(vers[i] == vp[i]);
                    law_pkgver_ge_transitive(last, b, vp[i]);
                }
            }
        } else {
            law_pkgver_ge_total(last, b);
            assert(vp.len() > 0);
            assert forall|i: int| 0 <= i < vers.len() implies pkgver_ge_spec(
                newest(vers),
                #[trigger] vers[i],
            ) by {
                if i < n {
                    assert(vers[i] == vp[i]);
                }
            }
            let j = choose|j: int| 0 <= j < vp.len() && vp[j] == b;
            assert(vers[j] == b);
        }
    }
}

} // verus!
