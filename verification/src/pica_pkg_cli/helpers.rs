//! Small decisions of the tool: host names, LuCI variant, where a
//! dependency comes from, answers to questions, manifest fields, JSON
//! documents of the state directory.
use vstd::prelude::*;
use crate::text::{
    chars_of, str_eq, copy_str, append_str, string_views, trim, to_lower, trim_chars,
    to_lower_chars, chars_eq_str, starts_with, starts_with_str, contains_seq, contains_str,
};
use crate::json::{JsonValue, json_get, json_str, str_or, get_str, find_key, find_key_exec, keys_sorted, lemma_find_key_some};
use crate::pica_pkg_core::manifest::{Manifest, first_text, entry_of, object_insert_absent};
use crate::pica_pkg_cli::types::{CliError, E_CONFIG_INVALID, E_RUNTIME};

verus! {

/// `uname -m` names as packages use them.
pub open spec fn uname_name(v: Seq<char>) -> Seq<char> {
    if v == "x86_64"@ {
        "amd64"@
    } else if v == "aarch64"@ {
        "arm64"@
    } else {
        v
    }
}

pub fn normalize_uname(value: &str) -> (r: String)
    ensures
        r@ == uname_name(value@),
{
    if str_eq(value, "x86_64") {
        copy_str("amd64")
    } else if str_eq(value, "aarch64") {
        copy_str("arm64")
    } else {
        copy_str(value)
    }
}

/// The host OS from the text of `/etc/openwrt_release`, when it was read.
pub open spec fn os_name(release: Option<Seq<char>>) -> Seq<char> {
    match release {
        Some(t) => if contains_seq(t, "DISTRIB_ID='OpenWrt'"@) || contains_seq(
            t,
            "DISTRIB_ID=\"OpenWrt\""@,
        ) || contains_seq(t, "DISTRIB_ID=OpenWrt"@) {
            "openwrt"@
        } else {
            "linux"@
        },
        None => "linux"@,
    }
}

pub fn detect_os(release: Option<&str>) -> (r: String)
    ensures
        r@ == os_name(match release {
            Some(t) => Some(t@),
            None => None,
        }),
{
    match release {
        Some(t) => {
            let cs = chars_of(t);
            if contains_str(&cs, "DISTRIB_ID='OpenWrt'") || contains_str(&cs, "DISTRIB_ID=\"OpenWrt\"")
                || contains_str(&cs, "DISTRIB_ID=OpenWrt") {
                copy_str("openwrt")
            } else {
                copy_str("linux")
            }
        },
        None => copy_str("linux"),
    }
}

/// The LuCI variant of the host: `lua1` with `luci` installed, else `js2`
/// with `luci2`, else `unknown`.
pub fn detect_luci_variant(luci_installed: bool, luci2_installed: bool) -> (r: String)
    ensures
        r@ == (if luci_installed {
            "lua1"@
        } else if luci2_installed {
            "js2"@
        } else {
            "unknown"@
        }),
{
    if luci_installed {
        copy_str("lua1")
    } else if luci2_installed {
        copy_str("js2")
    } else {
        copy_str("unknown")
    }
}

/// Where a dependency would come from: already installed, the feeds, the
/// bundled files, or nowhere.
pub fn precheck_dep_source(installed: bool, in_feeds: bool, packaged: bool) -> (r: String)
    ensures
        r@ == (if installed {
            "installed"@
        } else if in_feeds {
            "feed"@
        } else if packaged {
            "packaged"@
        } else {
            "missing"@
        }),
{
    if installed {
        copy_str("installed")
    } else if in_feeds {
        copy_str("feed")
    } else if packaged {
        copy_str("packaged")
    } else {
        copy_str("missing")
    }
}

/// A bundled file name belongs to package `pkg`: `pkg_...` or `pkg-...`.
pub open spec fn file_of_pkg(name: Seq<char>, pkg: Seq<char>) -> bool {
    starts_with(name, pkg + "_"@) || starts_with(name, pkg + "-"@)
}

/// Whether some regular file of a bundled directory belongs to `pkg`, from
/// the names of its regular files.
pub fn ipk_dir_has_pkg(file_names: &Vec<String>, pkg: &str) -> (r: bool)
    ensures
        r == exists|i: int| 0 <= i < file_names@.len() && file_of_pkg(#[trigger] file_names@[i]@, pkg@),
{
    let mut under = copy_str(pkg);
    append_str(&mut under, "_");
    let mut dash = copy_str(pkg);
    append_str(&mut dash, "-");
    let uc = chars_of(under.as_str());
    let dc = chars_of(dash.as_str());
    let mut i: usize = 0;
    while i < file_names.len()
        invariant
            i <= file_names@.len(),
            uc@ == pkg@ + "_"@,
            dc@ == pkg@ + "-"@,
            forall|j: int| 0 <= j < i ==> !file_of_pkg(#[trigger] file_names@[j]@, pkg@),
        decreases file_names.len() - i,
    {
        let nc = chars_of(file_names[i].as_str());
        if crate::text::starts_with_chars(&nc, &uc) || crate::text::starts_with_chars(&nc, &dc) {
            assert(file_of_pkg(file_names@[i as int]@, pkg@));
            return true;
        }
        i += 1;
    }
    false
}

/// The answer to a yes/no question: `y`/`yes` and `n`/`no` in any ASCII
/// case, around blanks; anything else, or no answer, gives the default.
pub open spec fn yes_no(input: Option<Seq<char>>, default_yes: bool) -> bool {
    match input {
        None => default_yes,
        Some(t) => {
            let a = to_lower(trim(t));
            if a == "y"@ || a == "yes"@ {
                true
            } else if a == "n"@ || a == "no"@ {
                false
            } else {
                default_yes
            }
        },
    }
}

/// The answer read for `prompt_yn`, `None` when reading failed.
pub fn prompt_yn_answer(input: Option<&str>, default_yes: bool) -> (r: bool)
    ensures
        r == yes_no(match input {
            Some(t) => Some(t@),
            None => None,
        }, default_yes),
{
    match input {
        None => default_yes,
        Some(t) => {
            let cs = chars_of(t);
            let tc = trim_chars(&cs);
            let a = to_lower_chars(&tc);
            if chars_eq_str(&a, "y") || chars_eq_str(&a, "yes") {
                true
            } else if chars_eq_str(&a, "n") || chars_eq_str(&a, "no") {
                false
            } else {
                default_yes
            }
        },
    }
}

/// The hint shown after a yes/no question.
pub fn prompt_hint(default_yes: bool) -> (r: &'static str)
    ensures
        r@ == (if default_yes {
            "[Y/n]"@
        } else {
            "[y/N]"@
        }),
{
    if default_yes {
        "[Y/n]"
    } else {
        "[y/N]"
    }
}

/// The string items under `key`: the strings of an array, or the string.
pub open spec fn string_items(v: JsonValue, key: Seq<char>) -> Seq<Seq<char>> {
    match json_get(v, key) {
        Some(JsonValue::Array(items)) => items@.filter(|x: JsonValue| x is String).map_values(
            |x: JsonValue| x->String_0@,
        ),
        Some(JsonValue::String(s)) => seq![s@],
        _ => Seq::empty(),
    }
}

pub fn manifest_get_array(value: &JsonValue, key: &str) -> (r: Vec<String>)
    ensures
        string_views(r@) == string_items(*value, key@),
{
    let mut out: Vec<String> = Vec::new();
    match value.get(key) {
        Some(JsonValue::Array(items)) => {
            let mut i: usize = 0;
            while i < items.len()
                invariant
                    i <= items@.len(),
                    string_views(out@) == items@.take(i as int).filter(|x: JsonValue| x is String).map_values(
                        |x: JsonValue| x->String_0@,
                    ),
                decreases items.len() - i,
            {
                proof {
                    let t = items@.take(i + 1);
                    assert(t.drop_last() =~= items@.take(i as int));
                    assert(t.last() == items@[i as int]);
                    reveal(Seq::filter);
                }
                match &items[i] {
                    JsonValue::String(s) => {
                        let ghost before = string_views(out@);
                        out.push(s.clone());
                        assert(string_views(out@) =~= before.push(s@));
                    },
                    _ => {},
                }
                i += 1;
            }
            assert(items@.take(items@.len() as int) =~= items@);
        },
        Some(JsonValue::String(s)) => {
            out.push(s.clone());
            assert(string_views(out@) =~= seq![s@]);
        },
        _ => {},
    }
    out
}

/// The string under `key`, or the empty text.
pub fn manifest_get_scalar(value: &JsonValue, key: &str) -> (r: String)
    ensures
        r@ == str_or(*value, key@, Seq::empty()),
{
    match get_str(value, key) {
        Some(s) => s,
        None => String::new(),
    }
}

/// The language of the configuration: its `i18n` string, else `zh-cn`.
pub fn conf_get_i18n(conf: &JsonValue) -> (r: String)
    ensures
        r@ == str_or(*conf, "i18n"@, "zh-cn"@),
{
    crate::json::get_str_or(conf, "i18n", "zh-cn")
}

/// A manifest field that must not be empty.
pub fn required_manifest_field(manifest: &Manifest, key: &str) -> (r: Result<String, CliError>)
    ensures
        first_text(manifest.value, key@).len() == 0 ==> r is Err && r->Err_0.code == E_CONFIG_INVALID
            && r->Err_0.message@ == "manifest missing "@ + key@,
        first_text(manifest.value, key@).len() > 0 ==> r is Ok && r->Ok_0@ == first_text(manifest.value, key@),
{
    let value = manifest.get_first(key);
    if value.as_str().is_empty() {
        let mut m = copy_str("manifest missing ");
        append_str(&mut m, key);
        Err(CliError { code: E_CONFIG_INVALID, message: m })
    } else {
        Ok(value)
    }
}

/// Makes `key` an object field of the document: created empty when
/// missing; an error when the document is not an object or the field is
/// something else.
pub fn ensure_json_object_field(value: &mut JsonValue, key: &str) -> (r: Result<(), CliError>)
    requires
        *old(value) is Object ==> keys_sorted((*old(value))->Object_0@),
    ensures
        !(*old(value) is Object) ==> r is Err && r->Err_0.code == E_RUNTIME && r->Err_0.message@
            == "json root is not object"@ && *final(value) == *old(value),
        *old(value) is Object ==> {
            let es = (*old(value))->Object_0@;
            &&& *final(value) is Object
            &&& keys_sorted((*final(value))->Object_0@)
            &&& forall|k: Seq<char>| k != key@ ==> entry_of((*final(value))->Object_0@, k) == entry_of(es, k)
            &&& match entry_of(es, key@) {
                None => r is Ok && (entry_of((*final(value))->Object_0@, key@) matches Some(JsonValue::Object(n))
                    && n@.len() == 0),
                Some(e) => entry_of((*final(value))->Object_0@, key@) == Some(e) && (e is Object ==> r is Ok)
                    && (!(e is Object) ==> r is Err && r->Err_0.code == E_RUNTIME && r->Err_0.message@
                    == "json field '"@ + key@ + "' is not object"@),
            }
        },
{
    match value {
        JsonValue::Object(es) => {
            proof {
                lemma_find_key_some(es@, key@);
            }
            match find_key_exec(es, key) {
                None => {
                    object_insert_absent(es, key, JsonValue::Object(Vec::new()));
                    Ok(())
                },
                Some(i) => {
                    if es[i].1.is_object() {
                        Ok(())
                    } else {
                        let mut m = copy_str("json field '");
                        append_str(&mut m, key);
                        append_str(&mut m, "' is not object");
                        Err(CliError { code: E_RUNTIME, message: m })
                    }
                },
            }
        },
        _ => Err(CliError::new(E_RUNTIME, "json root is not object")),
    }
}

} // verus!
