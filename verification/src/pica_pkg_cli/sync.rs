//! The decisions of synchronizing the repository index: the configured
//! repositories, the entries recorded in the index, and the dependencies
//! the packages declare.
use vstd::prelude::*;
use crate::text::{chars_of, trim, trim_chars, string_of, copy_str, append_str, string_views, decimal, decimal_string};
use crate::json::{JsonValue, json_get, str_or, get_str_or, keys_sorted, find_key_exec, lemma_find_key_some};
use crate::strset::{sorted_unique, strictly_sorted};
use crate::pica_pkg_cli::candidate::packages_of;
use crate::pica_pkg_cli::install::{trim_end_char, trim_end_char_exec};
use crate::pica_pkg_cli::types::{CliError, E_CONFIG_INVALID, E_INDEX_INVALID, E_RUNTIME};
use crate::pica_pkg_core::manifest::{entry_of, object_set};
use crate::pica_pkg_cli::state::{field_sorted, field_updated, set_field_entry, prepare_doc, doc_prepared};

verus! {

/// The dependency names of a manifest field: the trimmed non-empty strings
/// of a list, or the trimmed string when not empty.
pub open spec fn dep_items(value: Option<JsonValue>) -> Seq<Seq<char>> {
    match value {
        Some(JsonValue::Array(items)) => dep_strings(items@),
        Some(JsonValue::String(s)) => if trim(s@).len() > 0 {
            seq![trim(s@)]
        } else {
            Seq::empty()
        },
        _ => Seq::empty(),
    }
}

pub open spec fn dep_strings(items: Seq<JsonValue>) -> Seq<Seq<char>>
    decreases items.len(),
{
    if items.len() == 0 {
        Seq::empty()
    } else {
        let rest = dep_strings(items.drop_last());
        match items.last() {
            JsonValue::String(s) => if trim(s@).len() > 0 {
                rest.push(trim(s@))
            } else {
                rest
            },
            _ => rest,
        }
    }
}

/// Appends the dependency names of a manifest field.
pub fn append_dep_list(output: &mut Vec<String>, value: Option<&JsonValue>)
    ensures
        string_views(final(output)@) == string_views(old(output)@) + dep_items(
            match value {
                Some(v) => Some(*v),
                None => None,
            },
        ),
{
    let ghost start = string_views(output@);
    match value {
        Some(JsonValue::Array(items)) => {
            let mut i: usize = 0;
            while i < items.len()
                invariant
                    i <= items@.len(),
                    string_views(output@) == start + dep_strings(items@.take(i as int)),
                decreases items.len() - i,
            {
                assert(items@.take(i + 1).drop_last() =~= items@.take(i as int));
                assert(items@.take(i + 1).last() == items@[i as int]);
                match &items[i] {
                    JsonValue::String(s) => {
                        let cs = chars_of(s.as_str());
                        let t = trim_chars(&cs);
                        if t.len() > 0 {
                            let ghost before = string_views(output@);
                            output.push(string_of(&t));
                            assert(string_views(output@) =~= before.push(t@));
                        }
                    },
                    _ => {},
                }
                i += 1;
            }
            assert(items@.take(items@.len() as int) =~= items@);
        },
        Some(JsonValue::String(s)) => {
            let cs = chars_of(s.as_str());
            let t = trim_chars(&cs);
            if t.len() > 0 {
                output.push(string_of(&t));
                assert(string_views(output@) =~= start + seq![t@]);
            } else {
                assert(string_views(output@) =~= start + Seq::<Seq<char>>::empty());
            }
        },
        _ => {
            assert(string_views(output@) =~= start + Seq::<Seq<char>>::empty());
        },
    }
}

/// The dependencies a package entry declares: `base`, then `kmod`, then
/// `app` of its manifest.
pub open spec fn package_deps(pkg: JsonValue) -> Seq<Seq<char>> {
    let m = match json_get(pkg, "manifest"@) {
        Some(v) => v,
        None => JsonValue::Null,
    };
    dep_items(json_get(m, "base"@)) + dep_items(json_get(m, "kmod"@)) + dep_items(json_get(m, "app"@))
}

/// The dependencies the packages of a list declare, in order.
pub open spec fn list_deps(items: Seq<JsonValue>) -> Seq<Seq<char>>
    decreases items.len(),
{
    if items.len() == 0 {
        Seq::empty()
    } else {
        list_deps(items.drop_last()) + package_deps(items.last())
    }
}

/// The dependencies the packages of the repositories declare, in order.
pub open spec fn repos_deps(repos: Seq<(String, JsonValue)>) -> Seq<Seq<char>>
    decreases repos.len(),
{
    if repos.len() == 0 {
        Seq::empty()
    } else {
        repos_deps(repos.drop_last()) + match packages_of(repos.last().1) {
            Some(items) => list_deps(items),
            None => Seq::empty(),
        }
    }
}

/// The dependencies the packages of the index declare, in order.
pub open spec fn index_deps(index: JsonValue) -> Seq<Seq<char>> {
    match json_get(index, "repos"@) {
        Some(JsonValue::Object(repos)) => repos_deps(repos@),
        _ => Seq::empty(),
    }
}

fn push_package_deps(out: &mut Vec<String>, pkg: &JsonValue)
    ensures
        string_views(final(out)@) == string_views(old(out)@) + package_deps(*pkg),
{
    let ghost start = string_views(out@);
    let null = JsonValue::Null;
    let m = match pkg.get("manifest") {
        Some(v) => v,
        None => &null,
    };
    append_dep_list(out, m.get("base"));
    append_dep_list(out, m.get("kmod"));
    append_dep_list(out, m.get("app"));
    assert(string_views(out@) =~= start + package_deps(*pkg));
}

/// The dependencies all packages of the index declare, sorted, each once.
#[verifier::loop_isolation(false)]
pub fn collect_declared_dependencies(index: &JsonValue) -> (r: Vec<String>)
    ensures
        strictly_sorted(string_views(r@)),
        forall|x: Seq<char>| string_views(r@).contains(x) <==> index_deps(*index).contains(x),
{
    let mut values: Vec<String> = Vec::new();
    let repos = match index.get("repos") {
        Some(JsonValue::Object(es)) => es,
        _ => {
            return values;
        },
    };
    let mut i: usize = 0;
    while i < repos.len()
        invariant
            i <= repos@.len(),
            string_views(values@) == repos_deps(repos@.take(i as int)),
        decreases repos.len() - i,
    {
        assert(repos@.take(i + 1).drop_last() =~= repos@.take(i as int));
        assert(repos@.take(i + 1).last() == repos@[i as int]);
        let entry = &repos[i].1;
        let packages = match entry.get("data") {
            Some(d) => match d.get("packages") {
                Some(JsonValue::Array(items)) => Some(items),
                _ => None,
            },
            None => None,
        };
        match packages {
            None => {
                assert(string_views(values@) =~= repos_deps(repos@.take(i + 1)));
            },
            Some(items) => {
                let ghost base = string_views(values@);
                let mut j: usize = 0;
                while j < items.len()
                    invariant
                        j <= items@.len(),
                        string_views(values@) == base + list_deps(items@.take(j as int)),
                    decreases items.len() - j,
                {
                    assert(items@.take(j + 1).drop_last() =~= items@.take(j as int));
                    assert(items@.take(j + 1).last() == items@[j as int]);
                    push_package_deps(&mut values, &items[j]);
                    assert(string_views(values@) =~= base + list_deps(items@.take(j + 1)));
                    j += 1;
                }
                assert(items@.take(items@.len() as int) =~= items@);
                assert(string_views(values@) =~= repos_deps(repos@.take(i + 1)));
            },
        }
        i += 1;
    }
    assert(repos@.take(repos@.len() as int) =~= repos@);
    sorted_unique(&values)
}

/// A repository of the configuration.
pub struct RepoSource {
    pub name: String,
    pub url: String,
    pub platform: String,
}

/// The error for a repository entry at `index` that lacks `what`.
pub open spec fn repo_entry_fault(i: nat, what: Seq<char>) -> Seq<char> {
    "repo["@ + decimal(i) + "] missing "@ + what
}

/// The first repository entry, from position `k` on, without a name or
/// address, as its message.
pub open spec fn first_repo_fault(items: Seq<JsonValue>, k: int) -> Option<Seq<char>>
    decreases items.len() - k,
{
    if k < 0 || k >= items.len() {
        None
    } else if trim(str_or(items[k], "name"@, Seq::empty())).len() == 0 {
        Some(repo_entry_fault(k as nat, "name"@))
    } else if trim(str_or(items[k], "url"@, Seq::empty())).len() == 0 {
        Some(repo_entry_fault(k as nat, "url"@))
    } else {
        first_repo_fault(items, k + 1)
    }
}

/// The repositories of the configuration, each with trimmed name, address
/// and platform; an error when there are none (the configuration file is
/// named in it) or when one lacks a name or an address.
#[verifier::loop_isolation(false)]
pub fn configured_repos(conf: &JsonValue, conf_file: &str) -> (r: Result<Vec<RepoSource>, CliError>)
    ensures
        match json_get(*conf, "repos"@) {
            Some(JsonValue::Array(items)) => if items@.len() == 0 {
                r is Err && r->Err_0.code == E_CONFIG_INVALID && r->Err_0.message@
                    == "no repos configured in "@ + conf_file@
            } else {
                match first_repo_fault(items@, 0) {
                Some(m) => r is Err && r->Err_0.code == E_CONFIG_INVALID && r->Err_0.message@ == m,
                None => r is Ok && r->Ok_0@.len() == items@.len() && forall|k: int|
                    0 <= k < items@.len() ==> (#[trigger] r->Ok_0@[k]).name@ == trim(
                        str_or(items@[k], "name"@, Seq::empty()),
                    ) && r->Ok_0@[k].url@ == trim(str_or(items@[k], "url"@, Seq::empty()))
                        && r->Ok_0@[k].platform@ == trim(str_or(items@[k], "platform"@, Seq::empty())),
                }
            },
            _ => r is Err && r->Err_0.code == E_CONFIG_INVALID && r->Err_0.message@
                == "no repos configured in "@ + conf_file@,
        },
{
    proof {
        reveal_strlit("");
        assert(""@ =~= Seq::<char>::empty());
    }
    let items = match conf.get("repos") {
        Some(JsonValue::Array(items)) => items,
        _ => {
            let mut m = copy_str("no repos configured in ");
            append_str(&mut m, conf_file);
            return Err(CliError { code: E_CONFIG_INVALID, message: m });
        },
    };
    if items.len() == 0 {
        let mut m = copy_str("no repos configured in ");
        append_str(&mut m, conf_file);
        return Err(CliError { code: E_CONFIG_INVALID, message: m });
    }
    let mut out: Vec<RepoSource> = Vec::new();
    let mut k: usize = 0;
    while k < items.len()
        invariant
            k <= items@.len(),
            ""@ == Seq::<char>::empty(),
            first_repo_fault(items@, 0) == first_repo_fault(items@, k as int),
            out@.len() == k,
            forall|q: int|
                0 <= q < k ==> (#[trigger] out@[q]).name@ == trim(str_or(items@[q], "name"@, Seq::empty()))
                    && out@[q].url@ == trim(str_or(items@[q], "url"@, Seq::empty()))
                    && out@[q].platform@ == trim(str_or(items@[q], "platform"@, Seq::empty())),
        decreases items.len() - k,
    {
        let name_raw = get_str_or(&items[k], "name", "");
        let url_raw = get_str_or(&items[k], "url", "");
        let platform_raw = get_str_or(&items[k], "platform", "");
        let name = trim_chars(&chars_of(name_raw.as_str()));
        let url = trim_chars(&chars_of(url_raw.as_str()));
        let platform = trim_chars(&chars_of(platform_raw.as_str()));
        if name.len() == 0 {
            let mut m = copy_str("repo[");
            append_str(&mut m, decimal_string(k as u64).as_str());
            append_str(&mut m, "] missing ");
            append_str(&mut m, "name");
            return Err(CliError { code: E_CONFIG_INVALID, message: m });
        }
        if url.len() == 0 {
            let mut m = copy_str("repo[");
            append_str(&mut m, decimal_string(k as u64).as_str());
            append_str(&mut m, "] missing ");
            append_str(&mut m, "url");
            return Err(CliError { code: E_CONFIG_INVALID, message: m });
        }
        out.push(RepoSource { name: string_of(&name), url: string_of(&url), platform: string_of(&platform) });
        k += 1;
    }
    Ok(out)
}

/// The address of a repository's index file.
pub fn repo_json_url(url: &str) -> (r: String)
    ensures
        r@ == trim_end_char(url@, '/') + "/repo.json"@,
{
    let mut u = trim_end_char_exec(url, '/');
    append_str(&mut u, "/repo.json");
    u
}


/// The index a sync starts from.
pub fn prepare_index(index: JsonValue) -> (r: Result<JsonValue, CliError>)
    requires
        field_sorted(index, "repos"@),
    ensures
        (index is Object && (json_get(index, "repos"@) matches Some(v) && !(v is Object))) ==> (r matches Err(e)
            && e.code == E_RUNTIME && e.message@ == "json field 'repos' is not object"@),
        !(index is Object && (json_get(index, "repos"@) matches Some(v) && !(v is Object))) ==> (r matches Ok(
            v,
        ) && doc_prepared(index, "repos"@, v)),
{
    proof {
        reveal_strlit("schema");
        reveal_strlit("repos");
        reveal_strlit("json field '");
        reveal_strlit("' is not object");
        reveal_strlit("json field 'repos' is not object");
        assert("schema"@[0] != "repos"@[0]);
        assert("json field '"@ + "repos"@ + "' is not object"@ =~= "json field 'repos' is not object"@);
    }
    prepare_doc(index, "repos")
}

/// The index entry of a synced repository: its data, name, platform (the
/// repository's own, else the host's), time of the sync and address.
pub open spec fn repo_record_of(
    r: JsonValue,
    name: Seq<char>,
    url: Seq<char>,
    now: u64,
    repo_platform: Seq<char>,
    host_platform: Seq<char>,
    data: JsonValue,
) -> bool {
    &&& r is Object
    &&& keys_sorted(r->Object_0@)
    &&& entry_of(r->Object_0@, "data"@) == Some(data)
    &&& entry_of(r->Object_0@, "name"@) matches Some(JsonValue::String(s)) && s@ == name
    &&& entry_of(r->Object_0@, "url"@) matches Some(JsonValue::String(s)) && s@ == url
    &&& entry_of(r->Object_0@, "updated_at"@) matches Some(JsonValue::Number(n)) && n@ == decimal(now as nat)
    &&& entry_of(r->Object_0@, "platform"@) matches Some(JsonValue::String(s)) && s@ == (if repo_platform.len() == 0 {
        host_platform
    } else {
        repo_platform
    })
    &&& forall|k: Seq<char>|
        k != "data"@ && k != "name"@ && k != "url"@ && k != "updated_at"@ && k != "platform"@ ==> entry_of(
            r->Object_0@,
            k,
        ) is None
}

/// The index entry of a synced repository.
pub fn repo_record(name: &str, url: &str, now: u64, repo_platform: &str, host_platform: &str, data: JsonValue) -> (r: JsonValue)
    ensures
        repo_record_of(r, name@, url@, now, repo_platform@, host_platform@, data),
{
    let platform = if repo_platform.is_empty() {
        copy_str(host_platform)
    } else {
        copy_str(repo_platform)
    };
    let mut es: Vec<(String, JsonValue)> = Vec::new();
    proof {
        assert forall|k: Seq<char>| entry_of(es@, k) is None by {
            crate::json::lemma_find_key_some(es@, k);
        }
        reveal_strlit("data");
        reveal_strlit("name");
        reveal_strlit("platform");
        reveal_strlit("updated_at");
        reveal_strlit("url");
        assert("data"@[0] == 'd' && "name"@[0] == 'n' && "platform"@[0] == 'p' && "updated_at"@[0] == 'u'
            && "url"@[0] == 'u' && "updated_at"@[1] == 'p' && "url"@[1] == 'r');
        assert("data"@ != "name"@ && "data"@ != "platform"@ && "data"@ != "updated_at"@ && "data"@ != "url"@);
        assert("name"@ != "platform"@ && "name"@ != "updated_at"@ && "name"@ != "url"@);
        assert("platform"@ != "updated_at"@ && "platform"@ != "url"@ && "updated_at"@ != "url"@);
    }
    object_set(&mut es, "data", data);
    object_set(&mut es, "name", JsonValue::String(copy_str(name)));
    object_set(&mut es, "platform", JsonValue::String(platform));
    object_set(&mut es, "updated_at", JsonValue::Number(decimal_string(now)));
    object_set(&mut es, "url", JsonValue::String(copy_str(url)));
    proof {
        reveal_strlit("data");
        reveal_strlit("name");
        reveal_strlit("platform");
        reveal_strlit("updated_at");
        reveal_strlit("url");
    }
    JsonValue::Object(es)
}

/// Records a synced repository under its name in the prepared index; an
/// index whose `repos` is not an object is an error.
pub fn store_repo(index: &mut JsonValue, name: &str, record: JsonValue) -> (r: Result<(), CliError>)
    requires
        field_sorted(*old(index), "repos"@),
    ensures
        (json_get(*old(index), "repos"@) matches Some(JsonValue::Object(_))) ==> (r is Ok && field_updated(
            *old(index),
            "repos"@,
            name@,
            Some(record),
            *final(index),
        )),
        !(json_get(*old(index), "repos"@) matches Some(JsonValue::Object(_))) ==> (r matches Err(e) && e.code
            == E_INDEX_INVALID && e.message@ == "index repos is not object"@ && *final(index) == *old(index)),
{
    let is_obj = match index.get("repos") {
        Some(JsonValue::Object(_)) => true,
        _ => false,
    };
    if !is_obj {
        return Err(CliError::new(E_INDEX_INVALID, "index repos is not object"));
    }
    set_field_entry(index, "repos", name, Some(record))
}


/// After a sync prepares the index and stores a repository in it, the
/// index lists the repository under its name with the stored entry, keeps
/// every other repository it had, and has schema 1.
pub proof fn law_synced_repo_is_indexed(
    before: JsonValue,
    prepared: JsonValue,
    name: Seq<char>,
    rec: JsonValue,
    r: JsonValue,
    other: Seq<char>,
)
    requires
        doc_prepared(before, "repos"@, prepared),
        field_updated(prepared, "repos"@, name, Some(rec), r),
        other != name,
    ensures
        entry_of(json_get(r, "repos"@)->Some_0->Object_0@, name) == Some(rec),
        entry_of(json_get(r, "repos"@)->Some_0->Object_0@, other) == match json_get(prepared, "repos"@) {
            Some(JsonValue::Object(es)) => entry_of(es@, other),
            _ => None,
        },
        crate::pica_pkg_cli::state::is_one(entry_of(r->Object_0@, "schema"@)),
{
    reveal_strlit("schema");
    reveal_strlit("repos");
    assert("schema"@[1] != "repos"@[1]);
    assert(entry_of(r->Object_0@, "schema"@) == entry_of(prepared->Object_0@, "schema"@));
}

} // verus!
