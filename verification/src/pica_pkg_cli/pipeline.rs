//! The decisions of installing an unpacked package: its fields, its hook
//! settings, the host checks, the app list, the record kept of it.
use vstd::prelude::*;
use crate::text::{
    Order, chars_of, trim, trim_chars, to_lower, to_lower_chars, chars_eq_str, str_eq, copy_str,
    append_str, string_of, sub_chars, split_seq, split_chars, views, string_views, starts_with,
    first_index_of, first_index_of_exec, split_once_spec, decimal, replace_all, replace_exec,
};
use crate::json::{JsonValue, json_get, keys_sorted, find_key, find_key_exec, lemma_find_key_some};
use crate::pica_pkg_core::manifest::{
    Manifest, first_text, scalar_text, array_texts, entry_of, object_insert_absent, defaulted,
};
use crate::pica_pkg_core::version::{version_key, ver_ge_spec, ver_ge};
use crate::pica_pkg_cli::types::{
    CliError, E_CONFIG_INVALID, E_VERSION_INCOMPATIBLE, E_PLATFORM_UNSUPPORTED, E_PACKAGE_INVALID,
};

verus! {

/// A yes/no setting: `1`, `true`, `yes`, `on` or `0`, `false`, `no`, `off`,
/// in any ASCII case, around blanks.
pub open spec fn bool_like(value: Seq<char>) -> Option<bool> {
    let v = to_lower(trim(value));
    if v == "1"@ || v == "true"@ || v == "yes"@ || v == "on"@ {
        Some(true)
    } else if v == "0"@ || v == "false"@ || v == "no"@ || v == "off"@ {
        Some(false)
    } else {
        None
    }
}

pub fn parse_bool_like(value: &str) -> (r: Option<bool>)
    ensures
        r == bool_like(value@),
{
    let cs = chars_of(value);
    let t = trim_chars(&cs);
    let v = to_lower_chars(&t);
    if chars_eq_str(&v, "1") || chars_eq_str(&v, "true") || chars_eq_str(&v, "yes") || chars_eq_str(
        &v,
        "on",
    ) {
        Some(true)
    } else if chars_eq_str(&v, "0") || chars_eq_str(&v, "false") || chars_eq_str(&v, "no")
        || chars_eq_str(&v, "off") {
        Some(false)
    } else {
        None
    }
}

/// `s` with every leading and trailing `c` removed.
pub open spec fn strip_both(s: Seq<char>, c: char) -> Seq<char>
    decreases s.len(),
{
    if s.len() > 0 && s[0] == c {
        strip_both(s.drop_first(), c)
    } else if s.len() > 0 && s.last() == c {
        strip_both(s.drop_last(), c)
    } else {
        s
    }
}

fn strip_both_exec(s: &[char], c: char) -> (r: Vec<char>)
    ensures
        r@ == strip_both(s@, c),
{
    let mut i: usize = 0;
    let mut j: usize = s.len();
    assert(s@.subrange(0, s@.len() as int) =~= s@);
    while i < j && (s[i] == c || s[j - 1] == c)
        invariant
            i <= j <= s@.len(),
            strip_both(s@, c) == strip_both(s@.subrange(i as int, j as int), c),
        decreases j - i,
    {
        let ghost t = s@.subrange(i as int, j as int);
        if s[i] == c {
            assert(t.drop_first() =~= s@.subrange(i + 1, j as int));
            i += 1;
        } else {
            assert(t.drop_last() =~= s@.subrange(i as int, j - 1));
            j -= 1;
        }
    }
    sub_chars(s, i, j)
}

/// The hook settings of a package's `cmd/.env`.
#[derive(Debug, Clone, Copy, PartialEq, Eq, Structural)]
pub struct KeepFlags {
    pub keep_all: Option<bool>,
    pub keep_install: Option<bool>,
    pub keep_update: Option<bool>,
    pub keep_remove: Option<bool>,
}

/// The key and setting of an `.env` line: blank lines, comments and lines
/// without `=` carry none; the value is trimmed and unquoted.
pub open spec fn env_line(raw: Seq<char>) -> Option<(Seq<char>, Option<bool>)> {
    let l = trim(raw);
    if l.len() == 0 || l[0] == '#' {
        None
    } else {
        match split_once_spec(l, '=') {
            None => None,
            Some((k, v)) => Some((trim(k), bool_like(strip_both(strip_both(trim(v), '"'), '\'')))),
        }
    }
}

/// The settings after the lines: a later line for a key replaces an earlier.
pub open spec fn keep_flags_of(lines: Seq<Seq<char>>) -> KeepFlags
    decreases lines.len(),
{
    if lines.len() == 0 {
        KeepFlags { keep_all: None, keep_install: None, keep_update: None, keep_remove: None }
    } else {
        let f = keep_flags_of(lines.drop_last());
        match env_line(lines.last()) {
            None => f,
            Some((k, p)) => if k == "PICA_KEEP_CMD_ALL"@ {
                KeepFlags { keep_all: p, ..f }
            } else if k == "PICA_KEEP_CMD_INSTALL"@ {
                KeepFlags { keep_install: p, ..f }
            } else if k == "PICA_KEEP_CMD_UPDATE"@ {
                KeepFlags { keep_update: p, ..f }
            } else if k == "PICA_KEEP_CMD_REMOVE"@ {
                KeepFlags { keep_remove: p, ..f }
            } else {
                f
            },
        }
    }
}

/// The hook settings in the text of a package's `cmd/.env`.
pub fn read_env_keep_flags(content: &str) -> (r: KeepFlags)
    ensures
        r == keep_flags_of(split_seq(content@, '\n')),
{
    let cs = chars_of(content);
    let lines = split_chars(&cs, '\n');
    let ghost ls = views(lines@);
    let mut flags = KeepFlags { keep_all: None, keep_install: None, keep_update: None, keep_remove: None };
    let mut n: usize = 0;
    while n < lines.len()
        invariant
            n <= lines@.len(),
            ls == views(lines@),
            ls == split_seq(content@, '\n'),
            flags == keep_flags_of(ls.take(n as int)),
        decreases lines.len() - n,
    {
        assert(ls.take(n + 1).drop_last() =~= ls.take(n as int));
        assert(ls.take(n + 1).last() == lines@[n as int]@);
        let l = trim_chars(&lines[n]);
        if l.len() > 0 && l[0] != '#' {
            match first_index_of_exec(&l, '=') {
                None => {},
                Some(i) => {
                    let k = sub_chars(&l, 0, i);
                    let v = sub_chars(&l, i + 1, l.len());
                    assert(k@ =~= l@.take(i as int));
                    assert(v@ =~= l@.skip(i + 1));
                    let key = trim_chars(&k);
                    let vt = trim_chars(&v);
                    let v1 = strip_both_exec(&vt, '"');
                    let v2 = strip_both_exec(&v1, '\'');
                    let vs = string_of(&v2);
                    let parsed = parse_bool_like(vs.as_str());
                    if chars_eq_str(&key, "PICA_KEEP_CMD_ALL") {
                        flags = KeepFlags { keep_all: parsed, ..flags };
                    } else if chars_eq_str(&key, "PICA_KEEP_CMD_INSTALL") {
                        flags = KeepFlags { keep_install: parsed, ..flags };
                    } else if chars_eq_str(&key, "PICA_KEEP_CMD_UPDATE") {
                        flags = KeepFlags { keep_update: parsed, ..flags };
                    } else if chars_eq_str(&key, "PICA_KEEP_CMD_REMOVE") {
                        flags = KeepFlags { keep_remove: parsed, ..flags };
                    }
                },
            }
        }
        n += 1;
    }
    assert(ls.take(lines@.len() as int) =~= ls);
    flags
}

/// The fields of a package that the install checks.
#[derive(Debug)]
pub struct PackageFields {
    pub pkgname: String,
    pub pkgver_display: String,
    pub platform: String,
    pub os: String,
    pub arch: String,
    pub uname: String,
    pub luci: String,
    pub pkgmgr: String,
    pub visibility: String,
}

/// The first required field of the manifest that is empty, in the order
/// the install reads them.
pub open spec fn missing_field(v: JsonValue) -> Option<Seq<char>> {
    if first_text(v, "pkgname"@).len() == 0 {
        Some("pkgname"@)
    } else if first_text(v, "appname"@).len() == 0 {
        Some("appname"@)
    } else if first_text(v, "pkgver"@).len() == 0 {
        Some("pkgver"@)
    } else if first_text(v, "platform"@).len() == 0 {
        Some("platform"@)
    } else if first_text(v, "os"@).len() == 0 {
        Some("os"@)
    } else if first_text(v, "arch"@).len() == 0 {
        Some("arch"@)
    } else {
        None
    }
}

/// The fields of a package as read from the manifest value `v`.
pub open spec fn fields_read(p: PackageFields, v: JsonValue) -> bool {
    &&& p.pkgname@ == first_text(v, "pkgname"@)
    &&& p.pkgver_display@ == version_key(first_text(v, "pkgver"@), first_text(v, "pkgrel"@))
    &&& p.platform@ == first_text(v, "platform"@)
    &&& p.os@ == first_text(v, "os"@)
    &&& p.arch@ == first_text(v, "arch"@)
    &&& p.uname@ == first_text(v, "uname"@)
    &&& p.luci@ == first_text(v, "luci"@)
    &&& p.pkgmgr@ == (if first_text(v, "pkgmgr"@).len() == 0 {
        "opkg"@
    } else {
        first_text(v, "pkgmgr"@)
    })
    &&& p.visibility@ == first_text(v, "visibility"@)
}

/// The fields read from a manifest, or the first required one missing.
pub fn package_fields(manifest: &Manifest) -> (r: Result<PackageFields, CliError>)
    ensures
        match missing_field(manifest.value) {
            Some(k) => r is Err && r->Err_0.code == E_CONFIG_INVALID && r->Err_0.message@
                == "manifest missing "@ + k,
            None => r is Ok && fields_read(r->Ok_0, manifest.value),
        },
{
    let pkgname = crate::pica_pkg_cli::helpers::required_manifest_field(manifest, "pkgname")?;
    let _appname = crate::pica_pkg_cli::helpers::required_manifest_field(manifest, "appname")?;
    let pkgver = crate::pica_pkg_cli::helpers::required_manifest_field(manifest, "pkgver")?;
    let pkgrel = manifest.get_first("pkgrel");
    let pkgmgr_raw = manifest.get_first("pkgmgr");
    let platform = crate::pica_pkg_cli::helpers::required_manifest_field(manifest, "platform")?;
    let os = crate::pica_pkg_cli::helpers::required_manifest_field(manifest, "os")?;
    let arch = crate::pica_pkg_cli::helpers::required_manifest_field(manifest, "arch")?;
    Ok(
        PackageFields {
            pkgname,
            pkgver_display: crate::pica_pkg_core::version::pkgver_cmp_key(pkgver.as_str(), pkgrel.as_str()),
            platform,
            os,
            arch,
            uname: manifest.get_first("uname"),
            luci: manifest.get_first("luci"),
            pkgmgr: if pkgmgr_raw.as_str().is_empty() {
                copy_str("opkg")
            } else {
                pkgmgr_raw
            },
            visibility: manifest.get_first("visibility"),
        },
    )
}

/// The hooks of a package and which of them are kept after the install.
#[derive(Debug)]
pub struct HookConfig {
    pub cmd_install: String,
    pub cmd_update: String,
    pub cmd_remove: String,
    pub keep_all: bool,
    pub keep_install: bool,
    pub keep_update: bool,
    pub keep_remove: bool,
}

/// The hooks from the manifest, the settings from `cmd/.env`: unset
/// settings keep only the remove hook.
pub fn hook_config(manifest: &Manifest, flags: KeepFlags) -> (r: HookConfig)
    ensures
        r.cmd_install@ == scalar_text(manifest.value, "cmd_install"@),
        r.cmd_update@ == scalar_text(manifest.value, "cmd_update"@),
        r.cmd_remove@ == scalar_text(manifest.value, "cmd_remove"@),
        r.keep_all == (flags.keep_all == Some(true)),
        r.keep_install == (flags.keep_install == Some(true)),
        r.keep_update == (flags.keep_update == Some(true)),
        r.keep_remove == (flags.keep_remove != Some(false)),
{
    HookConfig {
        cmd_install: manifest.get_scalar("cmd_install"),
        cmd_update: manifest.get_scalar("cmd_update"),
        cmd_remove: manifest.get_scalar("cmd_remove"),
        keep_all: match flags.keep_all {
            Some(b) => b,
            None => false,
        },
        keep_install: match flags.keep_install {
            Some(b) => b,
            None => false,
        },
        keep_update: match flags.keep_update {
            Some(b) => b,
            None => false,
        },
        keep_remove: match flags.keep_remove {
            Some(b) => b,
            None => true,
        },
    }
}

/// The client must be at least the version the package asks for.
pub fn check_pica_required(manifest: &Manifest, pica_version: &str) -> (r: Result<(), CliError>)
    ensures
        ({
            let req = first_text(manifest.value, "pica"@);
            if req.len() > 0 && !ver_ge_spec(pica_version@, req) {
                r is Err && r->Err_0.code == E_VERSION_INCOMPATIBLE && r->Err_0.message@
                    == "pica too old: pkg requires >= "@ + req + ", cli is "@ + pica_version@
            } else {
                r is Ok
            }
        }),
{
    let req = manifest.get_first("pica");
    if !req.as_str().is_empty() && !ver_ge(pica_version, req.as_str()) {
        let mut m = copy_str("pica too old: pkg requires >= ");
        append_str(&mut m, req.as_str());
        append_str(&mut m, ", cli is ");
        append_str(&mut m, pica_version);
        return Err(CliError { code: E_VERSION_INCOMPATIBLE, message: m });
    }
    Ok(())
}

/// A hook given as a path inside the package (not empty, not absolute).
pub open spec fn relative_hook(h: Seq<char>) -> bool {
    h.len() > 0 && h[0] != '/'
}

/// The hooks to check in the package, each with whether it is kept: install,
/// update, remove, in that order.
pub open spec fn hook_items_spec(h: HookConfig) -> Seq<(Seq<char>, bool)> {
    let a = if relative_hook(h.cmd_install@) {
        seq![(h.cmd_install@, h.keep_all || h.keep_install)]
    } else {
        Seq::empty()
    };
    let b = if relative_hook(h.cmd_update@) {
        seq![(h.cmd_update@, h.keep_all || h.keep_update)]
    } else {
        Seq::empty()
    };
    let c = if relative_hook(h.cmd_remove@) {
        seq![(h.cmd_remove@, h.keep_all || h.keep_remove)]
    } else {
        Seq::empty()
    };
    a + b + c
}

pub open spec fn item_views(v: Seq<(String, bool)>) -> Seq<(Seq<char>, bool)> {
    v.map_values(|x: (String, bool)| (x.0@, x.1))
}

fn is_relative_hook(h: &str) -> (r: bool)
    ensures
        r == relative_hook(h@),
{
    let cs = chars_of(h);
    cs.len() > 0 && cs[0] != '/'
}

/// The hooks to check in the package, and whether each is kept.
pub fn hook_items(h: &HookConfig) -> (r: Vec<(String, bool)>)
    ensures
        item_views(r@) == hook_items_spec(*h),
{
    let mut out: Vec<(String, bool)> = Vec::new();
    if is_relative_hook(h.cmd_install.as_str()) {
        out.push((h.cmd_install.clone(), h.keep_all || h.keep_install));
    }
    let ghost a = item_views(out@);
    if is_relative_hook(h.cmd_update.as_str()) {
        out.push((h.cmd_update.clone(), h.keep_all || h.keep_update));
    }
    let ghost b = item_views(out@);
    if is_relative_hook(h.cmd_remove.as_str()) {
        out.push((h.cmd_remove.clone(), h.keep_all || h.keep_remove));
    }
    assert(item_views(out@) =~= hook_items_spec(*h));
    out
}

/// The hook that runs before the files are deployed: the update hook of an
/// upgrade, else the install hook.
pub fn hook_to_run(h: &HookConfig, is_upgrade: bool) -> (r: (String, &'static str))
    ensures
        r.0@ == (if is_upgrade {
            h.cmd_update@
        } else {
            h.cmd_install@
        }),
        r.1@ == (if is_upgrade {
            "update"@
        } else {
            "install"@
        }),
{
    if is_upgrade {
        (h.cmd_update.clone(), "update")
    } else {
        (h.cmd_install.clone(), "install")
    }
}


/// The app list of a package: its `app` values, with the translation named
/// by `app_i18n` for `zh-cn`, ordered with LuCI apps and translations last.
pub open spec fn app_list_spec(v: JsonValue, lang: Seq<char>) -> Seq<Seq<char>> {
    let apps = array_texts(v, "app"@);
    let tpl = first_text(v, "app_i18n"@);
    let with = if tpl.len() > 0 && lang == "zh-cn"@ {
        apps.push(replace_all(tpl, "{lang}"@, lang))
    } else {
        apps
    };
    crate::pica_pkg_cli::feed::reordered(with)
}

pub fn app_list(manifest: &Manifest, lang: &str) -> (r: Vec<String>)
    ensures
        string_views(r@) == app_list_spec(manifest.value, lang@),
{
    let mut apps = manifest.get_array("app");
    let tpl = manifest.get_first("app_i18n");
    if !tpl.as_str().is_empty() && str_eq(lang, "zh-cn") {
        proof {
            reveal_strlit("{lang}");
        }
        let ghost before = string_views(apps@);
        let item = replace_exec(tpl.as_str(), "{lang}", lang);
        apps.push(item);
        assert(string_views(apps@) =~= before.push(item@));
    }
    crate::pica_pkg_cli::feed::reorder_app_list(apps)
}


fn default_entry(es: &mut Vec<(String, JsonValue)>, key: &str, text: String)
    requires
        keys_sorted(old(es)@),
    ensures
        keys_sorted(final(es)@),
        defaulted(entry_of(old(es)@, key@), entry_of(final(es)@, key@), text@),
        forall|k: Seq<char>| k != key@ ==> entry_of(final(es)@, k) == entry_of(old(es)@, k),
{
    proof {
        lemma_find_key_some(es@, key@);
        crate::pica_pkg_core::manifest::lemma_sorted_entry_pub(es@, key@);
    }
    if find_key_exec(es, key).is_none() {
        object_insert_absent(es, key, JsonValue::String(text));
    } else {
        proof {
            let ghost i = find_key(es@, key@)->Some_0;
            assert(entry_of(es@, key@) is Some);
        }
    }
}

/// The manifest recorded for an install: `source` defaults to `pica`,
/// `url` to the `origin` text, `pkgmgr` to `opkg`, and `branch`,
/// `protocol`, `luci_url`, `luci_desc` and `visibility` to empty texts;
/// everything else is kept.
pub open spec fn stored_manifest_of(m: JsonValue, r: JsonValue) -> bool {
    match m {
        JsonValue::Object(es) => {
            &&& r is Object
            &&& keys_sorted(r->Object_0@)
            &&& defaulted(entry_of(es@, "source"@), entry_of(r->Object_0@, "source"@), "pica"@)
            &&& defaulted(entry_of(es@, "url"@), entry_of(r->Object_0@, "url"@), crate::json::str_or(m, "origin"@, Seq::empty()))
            &&& defaulted(entry_of(es@, "pkgmgr"@), entry_of(r->Object_0@, "pkgmgr"@), "opkg"@)
            &&& defaulted(entry_of(es@, "branch"@), entry_of(r->Object_0@, "branch"@), Seq::empty())
            &&& defaulted(entry_of(es@, "protocol"@), entry_of(r->Object_0@, "protocol"@), Seq::empty())
            &&& defaulted(entry_of(es@, "luci_url"@), entry_of(r->Object_0@, "luci_url"@), Seq::empty())
            &&& defaulted(entry_of(es@, "luci_desc"@), entry_of(r->Object_0@, "luci_desc"@), Seq::empty())
            &&& defaulted(entry_of(es@, "visibility"@), entry_of(r->Object_0@, "visibility"@), Seq::empty())
            &&& forall|k: Seq<char>|
                k != "source"@ && k != "url"@ && k != "pkgmgr"@ && k != "branch"@ && k != "protocol"@ && k
                    != "luci_url"@ && k != "luci_desc"@ && k != "visibility"@ ==> entry_of(r->Object_0@, k)
                    == entry_of(es@, k)
        },
        _ => r == m,
    }
}

/// The manifest recorded for an install.
pub fn stored_manifest(manifest: Manifest) -> (r: JsonValue)
    requires
        manifest.value is Object ==> keys_sorted(manifest.value->Object_0@),
    ensures
        stored_manifest_of(manifest.value, r),
{
    let ghost m = manifest.value;
    let origin = crate::json::get_str_or(&manifest.value, "origin", "");
    match manifest.value {
        JsonValue::Object(mut es) => {
            proof {
                reveal_strlit("source");
                reveal_strlit("url");
                reveal_strlit("pkgmgr");
                reveal_strlit("branch");
                reveal_strlit("protocol");
                reveal_strlit("luci_url");
                reveal_strlit("luci_desc");
                reveal_strlit("visibility");
                reveal_strlit("");
                assert("source"@[0] == 's' && "url"@[0] == 'u' && "pkgmgr"@[0] == 'p' && "branch"@[0] == 'b'
                    && "protocol"@[0] == 'p' && "luci_url"@[0] == 'l' && "luci_desc"@[0] == 'l'
                    && "visibility"@[0] == 'v' && "pkgmgr"@[1] == 'k' && "protocol"@[1] == 'r'
                    && "luci_url"@[5] == 'u' && "luci_desc"@[5] == 'd');
            }
            let ghost e0 = es@;
            default_entry(&mut es, "source", copy_str("pica"));
            default_entry(&mut es, "url", origin);
            default_entry(&mut es, "pkgmgr", copy_str("opkg"));
            default_entry(&mut es, "branch", String::new());
            default_entry(&mut es, "protocol", String::new());
            default_entry(&mut es, "luci_url", String::new());
            default_entry(&mut es, "luci_desc", String::new());
            default_entry(&mut es, "visibility", String::new());
            proof {
                assert(""@ =~= Seq::<char>::empty());
            }
            JsonValue::Object(es)
        },
        other => other,
    }
}

/// The names that are not empty, in order.
pub open spec fn named_only(names: Seq<Seq<char>>) -> Seq<Seq<char>> {
    names.filter(|n: Seq<char>| n.len() > 0)
}

/// The dependencies an install resolves through opkg: the kernel modules and
/// base packages the manifest names, without empty names, and the app list.
#[derive(Debug)]
pub struct DependencyPlan {
    pub kmods: Vec<String>,
    pub base: Vec<String>,
    pub apps: Vec<String>,
}

/// A step of resolving the dependencies of an install.
#[derive(Debug, Clone, Copy, PartialEq, Eq, Structural)]
pub enum DependencyStage {
    /// Refresh the package lists, ignoring a failure.
    UpdateLists,
    /// Find where each dependency would come from; stop if any is missing.
    Precheck,
    /// Install the kernel modules that are not installed yet.
    Kmods,
    /// Install the base packages, from the feeds or the package's `depend/`.
    Base,
    /// Install the app list, from the feeds or the package's `binary/`.
    Apps,
}

/// The stages of resolving dependencies, in order.
pub open spec fn dependency_stages_spec() -> Seq<DependencyStage> {
    seq![
        DependencyStage::UpdateLists,
        DependencyStage::Precheck,
        DependencyStage::Kmods,
        DependencyStage::Base,
        DependencyStage::Apps,
    ]
}

fn named_names(names: &Vec<String>) -> (r: Vec<String>)
    ensures
        string_views(r@) == named_only(string_views(names@)),
{
    let ghost nv = string_views(names@);
    let mut out: Vec<String> = Vec::new();
    let mut i: usize = 0;
    while i < names.len()
        invariant
            i <= names@.len(),
            nv == string_views(names@),
            string_views(out@) == named_only(nv.take(i as int)),
        decreases names.len() - i,
    {
        proof {
            let t = nv.take(i + 1);
            assert(t.drop_last() =~= nv.take(i as int));
            assert(t.last() == names@[i as int]@);
            reveal(Seq::filter);
        }
        proof {
            reveal_strlit("");
        }
        if !str_eq(names[i].as_str(), "") {
            let ghost before = string_views(out@);
            out.push(names[i].clone());
            assert(string_views(out@) =~= before.push(names@[i as int]@));
            assert(names@[i as int]@.len() > 0) by {
                if names@[i as int]@.len() == 0 {
                    assert(names@[i as int]@ =~= ""@);
                }
            }
            assert(named_only(nv.take(i + 1)) =~= named_only(nv.take(i as int)).push(names@[i as int]@));
        } else {
            assert(names@[i as int]@.len() == 0);
            assert(named_only(nv.take(i + 1)) =~= named_only(nv.take(i as int)));
        }
        i += 1;
    }
    assert(nv.take(names@.len() as int) =~= nv);
    out
}

/// The dependencies to resolve: none unless the package manager is opkg;
/// else the non-empty kernel modules and base packages, and the app list as
/// it is.
pub fn dependency_plan(pkgmgr: &str, kmod_all: &Vec<String>, base_all: &Vec<String>, apps: Vec<String>) -> (r: Option<DependencyPlan>)
    ensures
        (pkgmgr@ == "opkg"@) == r is Some,
        r matches Some(p) ==> string_views(p.kmods@) == named_only(string_views(kmod_all@))
            && string_views(p.base@) == named_only(string_views(base_all@)) && p.apps@ == apps@,
{
    if !str_eq(pkgmgr, "opkg") {
        return None;
    }
    Some(DependencyPlan { kmods: named_names(kmod_all), base: named_names(base_all), apps })
}

/// The stages of resolving dependencies, in the order they are taken; the
/// caller stops at the first that fails.
pub fn dependency_stages() -> (r: Vec<DependencyStage>)
    ensures
        r@ == dependency_stages_spec(),
{
    let r = vec![
        DependencyStage::UpdateLists,
        DependencyStage::Precheck,
        DependencyStage::Kmods,
        DependencyStage::Base,
        DependencyStage::Apps,
    ];
    assert(r@ =~= dependency_stages_spec());
    r
}

/// The kernel modules to install: those of the plan that are not installed,
/// in order.
pub fn kmods_to_install(kmods: &Vec<String>, installed: &Vec<bool>) -> (r: Vec<String>)
    requires
        kmods@.len() == installed@.len(),
    ensures
        string_views(r@) == string_views(kmods@).zip_with(installed@).filter(
            |x: (Seq<char>, bool)| !x.1,
        ).map_values(|x: (Seq<char>, bool)| x.0),
{
    let ghost z = string_views(kmods@).zip_with(installed@);
    let mut out: Vec<String> = Vec::new();
    let mut i: usize = 0;
    while i < kmods.len()
        invariant
            i <= kmods@.len(),
            kmods@.len() == installed@.len(),
            z == string_views(kmods@).zip_with(installed@),
            string_views(out@) == z.take(i as int).filter(|x: (Seq<char>, bool)| !x.1).map_values(
                |x: (Seq<char>, bool)| x.0,
            ),
        decreases kmods.len() - i,
    {
        proof {
            let t = z.take(i + 1);
            assert(t.drop_last() =~= z.take(i as int));
            assert(t.last() == (kmods@[i as int]@, installed@[i as int]));
            reveal(Seq::filter);
        }
        if !installed[i] {
            let ghost before = string_views(out@);
            out.push(kmods[i].clone());
            assert(string_views(out@) =~= before.push(kmods@[i as int]@));
        }
        i += 1;
    }
    assert(z.take(kmods@.len() as int) =~= z);
    out
}

/// The rank of a dependency stage: the precheck, the kernel modules, the
/// base packages and the app list, in that order.
pub open spec fn stage_rank(s: DependencyStage) -> int {
    match s {
        DependencyStage::UpdateLists => 0,
        DependencyStage::Precheck => 1,
        DependencyStage::Kmods => 2,
        DependencyStage::Base => 3,
        DependencyStage::Apps => 4,
    }
}

/// Nothing is installed before the precheck; kernel modules are installed
/// before base packages, and base packages before the app list; each stage
/// is taken once.
pub proof fn law_dependency_order()
    ensures
        forall|i: int, j: int|
            0 <= i < j < dependency_stages_spec().len() ==> stage_rank(
                #[trigger] dependency_stages_spec()[i],
            ) < stage_rank(#[trigger] dependency_stages_spec()[j]),
        forall|s: DependencyStage| #[trigger] dependency_stages_spec().contains(s),
{
    assert forall|s: DependencyStage| #[trigger] dependency_stages_spec().contains(s) by {
        assert(dependency_stages_spec()[stage_rank(s)] == s);
    }
}

} // verus!
