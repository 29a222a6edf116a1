//! Checks before an install: the package against the host, and the
//! report of where each dependency would come from.
use vstd::prelude::*;
use crate::text::{chars_of, str_eq, copy_str, append_str, string_views, join, join_exec};
use crate::json::{JsonValue, json_get, str_or, get_str_or};
use crate::pica_pkg_core::manifest::{Manifest, array_texts, first_text};
use crate::pica_pkg_cli::helpers::{uname_name, normalize_uname};
use crate::pica_pkg_cli::pipeline::PackageFields;
use crate::pica_pkg_cli::types::{
    CliError, E_CONFIG_INVALID, E_PACKAGE_INVALID, E_PLATFORM_UNSUPPORTED, E_RUNTIME,
};

verus! {


/// What the checks know of the host.
pub struct HostFacts {
    pub platform: String,
    pub os: String,
    /// The output of `uname -m`, or `unknown`.
    pub uname_raw: String,
    /// The architectures opkg installs for.
    pub arches: Vec<String>,
    /// `lua1`, `js2` or `unknown`.
    pub luci_variant: String,
    /// The unpacked package has a `binary/` directory.
    pub has_binary_dir: bool,
}

/// Why the package does not fit the host, as code and message, if it does not.
pub open spec fn package_fault(pkg: PackageFields, luci_type: bool, host: HostFacts) -> Option<(&'static str, Seq<char>)> {
    let host_uname = uname_name(host.uname_raw@);
    if pkg.uname@.len() > 0 && uname_name(pkg.uname@) != host_uname {
        Some((E_PLATFORM_UNSUPPORTED, "unsupported uname: pkg="@ + pkg.uname@ + " host="@ + host.uname_raw@))
    } else if pkg.os@ != "all"@ && pkg.os@ != host.os@ {
        Some((E_PLATFORM_UNSUPPORTED, "unsupported os: pkg="@ + pkg.os@ + " host="@ + host.os@))
    } else if pkg.arch@ != "all"@ && !string_views(host.arches@).contains(pkg.arch@) {
        Some(
            (
                E_PLATFORM_UNSUPPORTED,
                "unsupported arch: pkg="@ + pkg.arch@ + " (opkg arches: "@ + join(string_views(host.arches@), " "@) + ")"@,
            ),
        )
    } else if pkg.pkgmgr@ != "opkg"@ && pkg.pkgmgr@ != "none"@ {
        Some((E_CONFIG_INVALID, "invalid pkgmgr value: "@ + pkg.pkgmgr@ + " (supported: opkg, none)"@))
    } else if pkg.pkgmgr@ == "opkg"@ && !host.has_binary_dir {
        Some((E_PACKAGE_INVALID, "package missing binary/"@))
    } else if pkg.visibility@ != "open"@ && pkg.visibility@ != "mix"@ && pkg.visibility@ != "closed"@ {
        Some(
            (
                E_CONFIG_INVALID,
                "invalid visibility value: "@ + pkg.visibility@ + " (supported: open, mix, closed)"@,
            ),
        )
    } else if luci_type && pkg.luci@.len() == 0 {
        Some((E_CONFIG_INVALID, "type=luci requires luci=<lua1|js2>"@))
    } else if luci_type && pkg.luci@ != "lua1"@ && pkg.luci@ != "js2"@ {
        Some((E_CONFIG_INVALID, "invalid luci value: "@ + pkg.luci@))
    } else if luci_type && host.luci_variant@ == "unknown"@ {
        Some((E_PLATFORM_UNSUPPORTED, "luci variant required ("@ + pkg.luci@ + ") but cannot detect host"@))
    } else if luci_type && host.luci_variant@ != pkg.luci@ {
        Some(
            (
                E_PLATFORM_UNSUPPORTED,
                "unsupported luci variant: pkg="@ + pkg.luci@ + " host="@ + host.luci_variant@,
            ),
        )
    } else {
        None
    }
}

/// A package that passes the checks fits the host: its uname (when given)
/// names the host's machine, its OS is `all` or the host's, its
/// architecture is `all` or one opkg installs for, its package manager is
/// `opkg` (with bundled `binary/`) or `none`, its visibility is known, and a
/// LuCI package names the LuCI variant the host runs.
pub proof fn law_accepted_package_fits(pkg: PackageFields, luci_type: bool, host: HostFacts)
    requires
        package_fault(pkg, luci_type, host) is None,
    ensures
        pkg.uname@.len() > 0 ==> uname_name(pkg.uname@) == uname_name(host.uname_raw@),
        pkg.os@ == "all"@ || pkg.os@ == host.os@,
        pkg.arch@ == "all"@ || string_views(host.arches@).contains(pkg.arch@),
        pkg.pkgmgr@ == "opkg"@ || pkg.pkgmgr@ == "none"@,
        pkg.pkgmgr@ == "opkg"@ ==> host.has_binary_dir,
        pkg.visibility@ == "open"@ || pkg.visibility@ == "mix"@ || pkg.visibility@ == "closed"@,
        luci_type ==> (pkg.luci@ == "lua1"@ || pkg.luci@ == "js2"@) && host.luci_variant@ == pkg.luci@,
{
}

/// A package for an architecture the host does not install for (neither
/// `all` nor one of opkg's architectures) is refused as unsupported on the
/// platform, whatever else it declares.
pub proof fn law_foreign_arch_refused(pkg: PackageFields, luci_type: bool, host: HostFacts)
    requires
        pkg.arch@ != "all"@,
        !string_views(host.arches@).contains(pkg.arch@),
    ensures
        package_fault(pkg, luci_type, host) matches Some((code, _)) && code == E_PLATFORM_UNSUPPORTED,
{
}

fn contains_name(v: &Vec<String>, x: &str) -> (r: bool)
    ensures
        r == string_views(v@).contains(x@),
{
    let mut i: usize = 0;
    while i < v.len()
        invariant
            i <= v@.len(),
            forall|j: int| 0 <= j < i ==> v@[j]@ != x@,
        decreases v.len() - i,
    {
        if str_eq(v[i].as_str(), x) {
            assert(string_views(v@)[i as int] == x@);
            return true;
        }
        i += 1;
    }
    assert(!string_views(v@).contains(x@)) by {
        if string_views(v@).contains(x@) {
            let j = choose|j: int| 0 <= j < string_views(v@).len() && string_views(v@)[j] == x@;
            assert(v@[j]@ == x@);
        }
    }
    false
}

/// Checks the package against the host: uname, OS, architecture, package
/// manager, bundled files, visibility and LuCI variant, in that order.
pub fn validate_package(manifest: &Manifest, pkg: &PackageFields, host: &HostFacts) -> (r: Result<(), CliError>)
    ensures
        match package_fault(*pkg, array_texts(manifest.value, "type"@).contains("luci"@), *host) {
            Some((code, msg)) => r is Err && r->Err_0.code == code && r->Err_0.message@ == msg,
            None => r is Ok,
        },
{
    let host_uname = normalize_uname(host.uname_raw.as_str());
    let pkg_uname = normalize_uname(pkg.uname.as_str());
    if !pkg.uname.as_str().is_empty() && !str_eq(pkg_uname.as_str(), host_uname.as_str()) {
        let mut m = String::new();
        append_str(&mut m, "unsupported uname: pkg=");
        append_str(&mut m, pkg.uname.as_str());
        append_str(&mut m, " host=");
        append_str(&mut m, host.uname_raw.as_str());
        return Err(CliError { code: E_PLATFORM_UNSUPPORTED, message: m });
    }
    if !str_eq(pkg.os.as_str(), "all") && !str_eq(pkg.os.as_str(), host.os.as_str()) {
        let mut m = String::new();
        append_str(&mut m, "unsupported os: pkg=");
        append_str(&mut m, pkg.os.as_str());
        append_str(&mut m, " host=");
        append_str(&mut m, host.os.as_str());
        return Err(CliError { code: E_PLATFORM_UNSUPPORTED, message: m });
    }
    if !str_eq(pkg.arch.as_str(), "all") && !contains_name(&host.arches, pkg.arch.as_str()) {
        let list = join_exec(&host.arches, " ");
        let mut m = String::new();
        append_str(&mut m, "unsupported arch: pkg=");
        append_str(&mut m, pkg.arch.as_str());
        append_str(&mut m, " (opkg arches: ");
        append_str(&mut m, list.as_str());
        append_str(&mut m, ")");
        return Err(CliError { code: E_PLATFORM_UNSUPPORTED, message: m });
    }
    let is_opkg = str_eq(pkg.pkgmgr.as_str(), "opkg");
    if !is_opkg && !str_eq(pkg.pkgmgr.as_str(), "none") {
        let mut m = String::new();
        append_str(&mut m, "invalid pkgmgr value: ");
        append_str(&mut m, pkg.pkgmgr.as_str());
        append_str(&mut m, " (supported: opkg, none)");
        return Err(CliError { code: E_CONFIG_INVALID, message: m });
    }
    if is_opkg && !host.has_binary_dir {
        return Err(CliError::new(E_PACKAGE_INVALID, "package missing binary/"));
    }
    if !str_eq(pkg.visibility.as_str(), "open") && !str_eq(pkg.visibility.as_str(), "mix")
        && !str_eq(pkg.visibility.as_str(), "closed") {
        let mut m = String::new();
        append_str(&mut m, "invalid visibility value: ");
        append_str(&mut m, pkg.visibility.as_str());
        append_str(&mut m, " (supported: open, mix, closed)");
        return Err(CliError { code: E_CONFIG_INVALID, message: m });
    }
    if manifest.has_type("luci") {
        if pkg.luci.as_str().is_empty() {
            return Err(CliError::new(E_CONFIG_INVALID, "type=luci requires luci=<lua1|js2>"));
        }
        if !str_eq(pkg.luci.as_str(), "lua1") && !str_eq(pkg.luci.as_str(), "js2") {
            let mut m = String::new();
            append_str(&mut m, "invalid luci value: ");
            append_str(&mut m, pkg.luci.as_str());
            return Err(CliError { code: E_CONFIG_INVALID, message: m });
        }
        if str_eq(host.luci_variant.as_str(), "unknown") {
            let mut m = String::new();
            append_str(&mut m, "luci variant required (");
            append_str(&mut m, pkg.luci.as_str());
            append_str(&mut m, ") but cannot detect host");
            return Err(CliError { code: E_PLATFORM_UNSUPPORTED, message: m });
        }
        if !str_eq(host.luci_variant.as_str(), pkg.luci.as_str()) {
            let mut m = String::new();
            append_str(&mut m, "unsupported luci variant: pkg=");
            append_str(&mut m, pkg.luci.as_str());
            append_str(&mut m, " host=");
            append_str(&mut m, host.luci_variant.as_str());
            return Err(CliError { code: E_PLATFORM_UNSUPPORTED, message: m });
        }
    }
    Ok(())
}

/// The `group:name` entries of the report's groups whose status is
/// `missing` and whose name is not empty, kmod then base then app.
pub open spec fn missing_in_group(entries: Seq<JsonValue>, key: Seq<char>, keep_empty: bool) -> Seq<Seq<char>>
    decreases entries.len(),
{
    if entries.len() == 0 {
        Seq::empty()
    } else {
        let rest = missing_in_group(entries.drop_last(), key, keep_empty);
        let e = entries.last();
        let name = str_or(e, "name"@, Seq::empty());
        if str_or(e, "status"@, Seq::empty()) == "missing"@ && (keep_empty || name.len() > 0) {
            rest.push(key + ":"@ + name)
        } else {
            rest
        }
    }
}

pub open spec fn group_missing(precheck: JsonValue, key: Seq<char>, keep_empty: bool) -> Seq<Seq<char>> {
    match json_get(precheck, key) {
        Some(JsonValue::Array(items)) => missing_in_group(items@, key, keep_empty),
        _ => Seq::empty(),
    }
}

pub open spec fn missing_entries(precheck: JsonValue, keep_empty: bool) -> Seq<Seq<char>> {
    group_missing(precheck, "kmod"@, keep_empty) + group_missing(precheck, "base"@, keep_empty)
        + group_missing(precheck, "app"@, keep_empty)
}

#[verifier::loop_isolation(false)]
fn append_group_missing(out: &mut Vec<String>, precheck: &JsonValue, key: &str, keep_empty: bool)
    ensures
        string_views(final(out)@) == string_views(old(out)@) + group_missing(*precheck, key@, keep_empty),
{
    proof {
        reveal_strlit("");
        reveal_strlit("missing");
        assert(""@ =~= Seq::<char>::empty());
    }
    match precheck.get(key) {
        Some(JsonValue::Array(items)) => {
            let ghost start = string_views(out@);
            let mut i: usize = 0;
            while i < items.len()
                invariant
                    i <= items@.len(),
                    string_views(out@) == start + missing_in_group(items@.take(i as int), key@, keep_empty),
                decreases items.len() - i,
            {
                assert(items@.take(i + 1).drop_last() =~= items@.take(i as int));
                assert(items@.take(i + 1).last() == items@[i as int]);
                let status = get_str_or(&items[i], "status", "");
                let name = get_str_or(&items[i], "name", "");
                if str_eq(status.as_str(), "missing") && (keep_empty || !name.as_str().is_empty()) {
                    let mut entry = copy_str(key);
                    append_str(&mut entry, ":");
                    append_str(&mut entry, name.as_str());
                    let ghost before = string_views(out@);
                    out.push(entry);
                    assert(string_views(out@) =~= before.push(entry@));
                }
                i += 1;
            }
            assert(items@.take(items@.len() as int) =~= items@);
        },
        _ => {
            assert(string_views(out@) =~= string_views(out@) + Seq::<Seq<char>>::empty());
        },
    }
}

/// The missing dependencies of a precheck report, as `group:name`.
pub fn summarize_missing_precheck(precheck: &JsonValue) -> (r: Vec<String>)
    ensures
        string_views(r@) == missing_entries(*precheck, false),
{
    let mut out: Vec<String> = Vec::new();
    assert(string_views(out@) =~= Seq::<Seq<char>>::empty());
    append_group_missing(&mut out, precheck, "kmod", false);
    append_group_missing(&mut out, precheck, "base", false);
    append_group_missing(&mut out, precheck, "app", false);
    out
}

/// The error of a precheck with missing dependencies; entries with an empty
/// name count too.
pub fn precheck_assert_no_missing(precheck: &JsonValue) -> (r: Result<(), CliError>)
    ensures
        missing_entries(*precheck, true).len() == 0 ==> r is Ok,
        missing_entries(*precheck, true).len() > 0 ==> r is Err && r->Err_0.code == E_RUNTIME
            && r->Err_0.message@ == "dependency precheck failed, missing: "@ + join(
            missing_entries(*precheck, true),
            " "@,
        ),
{
    let mut out: Vec<String> = Vec::new();
    assert(string_views(out@) =~= Seq::<Seq<char>>::empty());
    append_group_missing(&mut out, precheck, "kmod", true);
    append_group_missing(&mut out, precheck, "base", true);
    append_group_missing(&mut out, precheck, "app", true);
    if out.len() == 0 {
        Ok(())
    } else {
        let mut m = copy_str("dependency precheck failed, missing: ");
        let j = join_exec(&out, " ");
        append_str(&mut m, j.as_str());
        Err(CliError { code: E_RUNTIME, message: m })
    }
}


/// The dependencies that have a name, each with its status, in order.
pub open spec fn named_checks(deps: Seq<Seq<char>>, statuses: Seq<Seq<char>>) -> Seq<(Seq<char>, Seq<char>)>
    decreases deps.len(),
{
    if deps.len() == 0 || statuses.len() < deps.len() {
        Seq::empty()
    } else if deps.last().len() == 0 {
        named_checks(deps.drop_last(), statuses.take(deps.len() - 1))
    } else {
        named_checks(deps.drop_last(), statuses.take(deps.len() - 1)).push((deps.last(), statuses[deps.len() - 1]))
    }
}

/// `{"name": name, "status": status}`.
pub open spec fn is_check_entry(v: JsonValue, name: Seq<char>, status: Seq<char>) -> bool {
    &&& v is Object
    &&& v->Object_0@.len() == 2
    &&& v->Object_0@[0].0@ == "name"@
    &&& v->Object_0@[0].1 matches JsonValue::String(n) && n@ == name
    &&& v->Object_0@[1].0@ == "status"@
    &&& v->Object_0@[1].1 matches JsonValue::String(t) && t@ == status
}

/// A list of check entries for the given pairs.
pub open spec fn is_check_group(v: JsonValue, pairs: Seq<(Seq<char>, Seq<char>)>) -> bool {
    &&& v is Array
    &&& v->Array_0@.len() == pairs.len()
    &&& forall|k: int| 0 <= k < pairs.len() ==> is_check_entry(#[trigger] v->Array_0@[k], pairs[k].0, pairs[k].1)
}

/// The report entries of one group of dependencies: each dependency that
/// has a name, with its status (`statuses` gives one per dependency).
pub fn precheck_group(deps: &Vec<String>, statuses: &Vec<String>) -> (r: JsonValue)
    requires
        deps@.len() == statuses@.len(),
    ensures
        is_check_group(r, named_checks(string_views(deps@), string_views(statuses@))),
{
    let ghost ds = string_views(deps@);
    let ghost ss = string_views(statuses@);
    let mut items: Vec<JsonValue> = Vec::new();
    let mut i: usize = 0;
    while i < deps.len()
        invariant
            i <= deps@.len(),
            deps@.len() == statuses@.len(),
            ds == string_views(deps@),
            ss == string_views(statuses@),
            is_check_group(JsonValue::Array(items), named_checks(ds.take(i as int), ss.take(i as int))),
        decreases deps.len() - i,
    {
        let ghost prev = named_checks(ds.take(i as int), ss.take(i as int));
        assert(ds.take(i + 1).drop_last() =~= ds.take(i as int));
        assert(ss.take(i + 1).take(i as int) =~= ss.take(i as int));
        assert(ds.take(i + 1).last() == deps@[i as int]@);
        assert(ss.take(i + 1)[i as int] == statuses@[i as int]@);
        if !deps[i].as_str().is_empty() {
            let mut es: Vec<(String, JsonValue)> = Vec::new();
            es.push((copy_str("name"), JsonValue::String(copy_str(deps[i].as_str()))));
            es.push((copy_str("status"), JsonValue::String(copy_str(statuses[i].as_str()))));
            items.push(JsonValue::Object(es));
            proof {
                let next = named_checks(ds.take(i + 1), ss.take(i + 1));
                assert(next == prev.push((deps@[i as int]@, statuses@[i as int]@)));
                assert forall|k: int| 0 <= k < next.len() implies is_check_entry(
                    #[trigger] JsonValue::Array(items)->Array_0@[k],
                    next[k].0,
                    next[k].1,
                ) by {
                    if k < prev.len() {
                        assert(next[k] == prev[k]);
                    }
                }
            }
        } else {
            assert(deps@[i as int]@.len() == 0);
        }
        i += 1;
    }
    assert(ds.take(deps@.len() as int) =~= ds);
    assert(ss.take(statuses@.len() as int) =~= ss);
    JsonValue::Array(items)
}

/// The dependency check of an install: the groups `app`, `base` and
/// `kmod`.
pub fn precheck_report(kmod: JsonValue, base: JsonValue, app: JsonValue) -> (r: JsonValue)
    ensures
        r is Object,
        r->Object_0@.len() == 3,
        r->Object_0@[0].0@ == "app"@ && r->Object_0@[0].1 == app,
        r->Object_0@[1].0@ == "base"@ && r->Object_0@[1].1 == base,
        r->Object_0@[2].0@ == "kmod"@ && r->Object_0@[2].1 == kmod,
{
    let mut es: Vec<(String, JsonValue)> = Vec::new();
    es.push((copy_str("app"), app));
    es.push((copy_str("base"), base));
    es.push((copy_str("kmod"), kmod));
    JsonValue::Object(es)
}

} // verus!
