//! Candidates for an install: the packages of the synced repository index
//! that a selector names and that fit the host.
use vstd::prelude::*;
use crate::text::{chars_of, trim, trim_chars, parse_u64_spec, parse_u64_chars, str_eq, copy_str};
use crate::json::{JsonValue, json_get, json_str, str_or, get_str, get_str_or};
use crate::pica_core::selector::{Selector, selector_parts, normalize};
use crate::pica_pkg_core::version::version_key;
use crate::pica_pkg_cli::types::{CliError, E_INDEX_INVALID};

verus! {

/// A package of the index that an install may take.
#[derive(Debug)]
pub struct RepoCandidate {
    pub sort_key: String,
    pub repo: String,
    pub url: String,
    pub appname: String,
    pub branch: String,
    pub pkgver: String,
    pub pkgrel: String,
    pub protocol: String,
    pub pkg_url: String,
    pub luci_url: String,
    pub luci_desc: String,
    pub pkgmgr: String,
    pub pkgdesc: String,
    pub os: String,
    pub platform: String,
    pub arch: String,
    pub size: Option<u64>,
    pub filename: String,
    pub download_url: Option<String>,
    pub min_pica: Option<String>,
    pub sha256: String,
    pub pkgname: String,
}

/// `Number::as_u64` on the text of a JSON number: an unsigned integer that
/// fits in 64 bits, written with digits only.
pub open spec fn number_u64(text: Seq<char>) -> Option<u64> {
    if text.len() > 0 && text[0] != '+' {
        parse_u64_spec(text)
    } else {
        None
    }
}

/// The size of a package entry: a number, or a text holding one.
pub open spec fn size_of_entry(pkg: JsonValue) -> Option<u64> {
    match json_get(pkg, "size"@) {
        Some(JsonValue::Number(n)) => number_u64(n@),
        Some(JsonValue::String(t)) => parse_u64_spec(trim(t@)),
        _ => None,
    }
}

/// The address of the program: `url`, else `origin`, when a string.
pub open spec fn program_url(pkg: JsonValue) -> Seq<char> {
    match json_get(pkg, "url"@) {
        Some(u) => match u {
            JsonValue::String(s) => s@,
            _ => Seq::empty(),
        },
        None => str_or(pkg, "origin"@, Seq::empty()),
    }
}

/// The description: `pkgdesc`, else the manifest's `pkgdesc`.
pub open spec fn description(pkg: JsonValue) -> Seq<char> {
    match json_str(json_get(pkg, "pkgdesc"@)) {
        Some(d) => d,
        None => match json_get(pkg, "manifest"@) {
            Some(m) => str_or(m, "pkgdesc"@, Seq::empty()),
            None => Seq::empty(),
        },
    }
}

/// The app name of an entry: `appname`, else its package name.
pub open spec fn entry_appname(pkg: JsonValue) -> Seq<char> {
    str_or(pkg, "appname"@, str_or(pkg, "pkgname"@, Seq::empty()))
}

/// The entry is for the selected app and branch, on an OS the host runs.
pub open spec fn entry_selected(pkg: JsonValue, appname: Seq<char>, branch: Seq<char>, host_os: Seq<char>) -> bool {
    let os = str_or(pkg, "os"@, Seq::empty());
    entry_appname(pkg) == appname && (branch.len() == 0 || str_or(pkg, "branch"@, Seq::empty())
        == branch) && (os.len() == 0 || os == "all"@ || os == host_os)
}

/// The candidate holds the entry's fields, from repository `repo` at `url`.
pub open spec fn candidate_of(c: RepoCandidate, repo: Seq<char>, url: Seq<char>, pkg: JsonValue) -> bool {
    &&& c.sort_key@ == version_key(str_or(pkg, "pkgver"@, Seq::empty()), str_or(pkg, "pkgrel"@, Seq::empty()))
    &&& c.repo@ == repo
    &&& c.url@ == url
    &&& c.appname@ == entry_appname(pkg)
    &&& c.branch@ == str_or(pkg, "branch"@, Seq::empty())
    &&& c.pkgver@ == str_or(pkg, "pkgver"@, Seq::empty())
    &&& c.pkgrel@ == str_or(pkg, "pkgrel"@, Seq::empty())
    &&& c.protocol@ == str_or(pkg, "protocol"@, Seq::empty())
    &&& c.pkg_url@ == program_url(pkg)
    &&& c.luci_url@ == str_or(pkg, "luci_url"@, Seq::empty())
    &&& c.luci_desc@ == str_or(pkg, "luci_desc"@, Seq::empty())
    &&& c.pkgmgr@ == str_or(pkg, "pkgmgr"@, Seq::empty())
    &&& c.pkgdesc@ == description(pkg)
    &&& c.os@ == str_or(pkg, "os"@, Seq::empty())
    &&& c.platform@ == str_or(pkg, "platform"@, Seq::empty())
    &&& c.arch@ == str_or(pkg, "arch"@, Seq::empty())
    &&& c.size == size_of_entry(pkg)
    &&& c.filename@ == str_or(pkg, "filename"@, Seq::empty())
    &&& (match c.download_url {
        Some(d) => json_str(json_get(pkg, "download_url"@)) == Some(d@),
        None => json_str(json_get(pkg, "download_url"@)) is None,
    })
    &&& (match c.min_pica {
        Some(d) => json_str(json_get(pkg, "pica"@)) == Some(d@),
        None => json_str(json_get(pkg, "pica"@)) is None,
    })
    &&& c.sha256@ == str_or(pkg, "sha256"@, Seq::empty())
    &&& c.pkgname@ == str_or(pkg, "pkgname"@, Seq::empty())
}

/// The packages list of a repository entry: `data.packages` when an array.
pub open spec fn packages_of(entry: JsonValue) -> Option<Seq<JsonValue>> {
    match json_get(entry, "data"@) {
        Some(d) => match json_get(d, "packages"@) {
            Some(JsonValue::Array(items)) => Some(items@),
            _ => None,
        },
        None => None,
    }
}

/// The selected entries of one package list, in order.
pub open spec fn selected_entries(items: Seq<JsonValue>, appname: Seq<char>, branch: Seq<char>, host_os: Seq<char>) -> Seq<JsonValue>
    decreases items.len(),
{
    if items.len() == 0 {
        Seq::empty()
    } else {
        let rest = selected_entries(items.drop_last(), appname, branch, host_os);
        if entry_selected(items.last(), appname, branch, host_os) {
            rest.push(items.last())
        } else {
            rest
        }
    }
}

/// The selected entries of all repositories, in the order of the repository
/// names, each with its repository name and address.
pub open spec fn all_selected(
    repos: Seq<(String, JsonValue)>,
    appname: Seq<char>,
    branch: Seq<char>,
    host_os: Seq<char>,
) -> Seq<(Seq<char>, Seq<char>, JsonValue)>
    decreases repos.len(),
{
    if repos.len() == 0 {
        Seq::empty()
    } else {
        let rest = all_selected(repos.drop_last(), appname, branch, host_os);
        let (name, entry) = repos.last();
        match packages_of(entry) {
            None => rest,
            Some(items) => rest + selected_entries(items, appname, branch, host_os).map_values(
                |p: JsonValue| (name@, str_or(entry, "url"@, Seq::empty()), p),
            ),
        }
    }
}

/// What an entry must be for a selector naming `appname` and, when not
/// empty, `branch`, on a host running `host_os`.
pub open spec fn fits_selection(pkg: JsonValue, appname: Seq<char>, branch: Seq<char>, host_os: Seq<char>) -> bool {
    &&& entry_appname(pkg) == appname
    &&& branch.len() > 0 ==> str_or(pkg, "branch"@, Seq::empty()) == branch
    &&& str_or(pkg, "os"@, Seq::empty()).len() == 0 || str_or(pkg, "os"@, Seq::empty()) == "all"@
        || str_or(pkg, "os"@, Seq::empty()) == host_os
}

proof fn lemma_selected_entries_fit(items: Seq<JsonValue>, appname: Seq<char>, branch: Seq<char>, host_os: Seq<char>)
    ensures
        forall|k: int|
            0 <= k < selected_entries(items, appname, branch, host_os).len() ==> fits_selection(
                #[trigger] selected_entries(items, appname, branch, host_os)[k],
                appname,
                branch,
                host_os,
            ),
    decreases items.len(),
{
    if items.len() > 0 {
        lemma_selected_entries_fit(items.drop_last(), appname, branch, host_os);
        let rest = selected_entries(items.drop_last(), appname, branch, host_os);
        let sel = selected_entries(items, appname, branch, host_os);
        assert forall|k: int| 0 <= k < sel.len() implies fits_selection(
            #[trigger] sel[k],
            appname,
            branch,
            host_os,
        ) by {
            if k < rest.len() {
                assert(sel[k] == rest[k]);
            } else {
                assert(entry_selected(items.last(), appname, branch, host_os));
                assert(sel[k] == items.last());
            }
        }
    }
}

/// Every entry an install selects is for the app the selector names, from
/// the branch it names when it names one, and for an OS the host runs: a
/// selector `app(stable)` never yields an entry of another branch.
pub proof fn law_selected_entries_fit(repos: Seq<(String, JsonValue)>, appname: Seq<char>, branch: Seq<char>, host_os: Seq<char>)
    ensures
        forall|k: int|
            0 <= k < all_selected(repos, appname, branch, host_os).len() ==> fits_selection(
                (#[trigger] all_selected(repos, appname, branch, host_os)[k]).2,
                appname,
                branch,
                host_os,
            ),
    decreases repos.len(),
{
    if repos.len() > 0 {
        law_selected_entries_fit(repos.drop_last(), appname, branch, host_os);
        let rest = all_selected(repos.drop_last(), appname, branch, host_os);
        let (name, entry) = repos.last();
        match packages_of(entry) {
            None => {},
            Some(items) => {
                let sel = selected_entries(items, appname, branch, host_os);
                lemma_selected_entries_fit(items, appname, branch, host_os);
                let mapped = sel.map_values(|p: JsonValue| (name@, str_or(entry, "url"@, Seq::empty()), p));
                assert forall|k: int|
                    0 <= k < all_selected(repos, appname, branch, host_os).len() implies fits_selection(
                    (#[trigger] all_selected(repos, appname, branch, host_os)[k]).2,
                    appname,
                    branch,
                    host_os,
                ) by {
                    if k >= rest.len() {
                        assert(all_selected(repos, appname, branch, host_os)[k] == mapped[k - rest.len()]);
                        assert(mapped[k - rest.len()].2 == sel[k - rest.len()]);
                    } else {
                        assert(all_selected(repos, appname, branch, host_os)[k] == rest[k]);
                    }
                }
            },
        }
    }
}

fn size_exec(pkg: &JsonValue) -> (r: Option<u64>)
    ensures
        r == size_of_entry(*pkg),
{
    match pkg.get("size") {
        Some(JsonValue::Number(n)) => {
            let cs = chars_of(n.as_str());
            if cs.len() > 0 && cs[0] != '+' {
                parse_u64_chars(&cs)
            } else {
                None
            }
        },
        Some(JsonValue::String(t)) => {
            let cs = chars_of(t.as_str());
            let tc = trim_chars(&cs);
            parse_u64_chars(&tc)
        },
        _ => None,
    }
}

fn candidate_exec(repo: &str, url: &str, pkg: &JsonValue) -> (r: RepoCandidate)
    ensures
        candidate_of(r, repo@, url@, *pkg),
{
    proof {
        reveal_strlit("");
        assert(""@ =~= Seq::<char>::empty());
    }
    let pkgname = get_str_or(pkg, "pkgname", "");
    let appname = get_str_or(pkg, "appname", pkgname.as_str());
    let pkgver = get_str_or(pkg, "pkgver", "");
    let pkgrel = get_str_or(pkg, "pkgrel", "");
    let pkg_url = match pkg.get("url") {
        Some(u) => match u {
            JsonValue::String(s) => s.clone(),
            _ => String::new(),
        },
        None => get_str_or(pkg, "origin", ""),
    };
    let pkgdesc = match get_str(pkg, "pkgdesc") {
        Some(d) => d,
        None => match pkg.get("manifest") {
            Some(m) => get_str_or(m, "pkgdesc", ""),
            None => String::new(),
        },
    };
    RepoCandidate {
        sort_key: crate::pica_pkg_core::version::pkgver_cmp_key(pkgver.as_str(), pkgrel.as_str()),
        repo: copy_str(repo),
        url: copy_str(url),
        appname,
        branch: get_str_or(pkg, "branch", ""),
        pkgver,
        pkgrel,
        protocol: get_str_or(pkg, "protocol", ""),
        pkg_url,
        luci_url: get_str_or(pkg, "luci_url", ""),
        luci_desc: get_str_or(pkg, "luci_desc", ""),
        pkgmgr: get_str_or(pkg, "pkgmgr", ""),
        pkgdesc,
        os: get_str_or(pkg, "os", ""),
        platform: get_str_or(pkg, "platform", ""),
        arch: get_str_or(pkg, "arch", ""),
        size: size_exec(pkg),
        filename: get_str_or(pkg, "filename", ""),
        download_url: get_str(pkg, "download_url"),
        min_pica: get_str(pkg, "pica"),
        sha256: get_str_or(pkg, "sha256", ""),
        pkgname,
    }
}

fn selected_exec(pkg: &JsonValue, appname: &str, branch: &str, host_os: &str) -> (r: bool)
    ensures
        r == entry_selected(*pkg, appname@, branch@, host_os@),
{
    proof {
        reveal_strlit("");
        assert(""@ =~= Seq::<char>::empty());
    }
    let pkgname = get_str_or(pkg, "pkgname", "");
    let app = get_str_or(pkg, "appname", pkgname.as_str());
    if !str_eq(app.as_str(), appname) {
        return false;
    }
    if !branch.is_empty() {
        let b = get_str_or(pkg, "branch", "");
        if !str_eq(b.as_str(), branch) {
            return false;
        }
    }
    let os = get_str_or(pkg, "os", "");
    os.as_str().is_empty() || str_eq(os.as_str(), "all") || str_eq(os.as_str(), host_os)
}

/// The candidates of the index for a selector, on a host running
/// `host_os`: every package entry whose app name (else package name) is the
/// selector's app name, whose branch is the selector's branch when it names
/// one, and whose OS is unset, `all` or the host's. Repositories come in the
/// order of their names, entries in their order.
#[verifier::loop_isolation(false)]
pub fn find_pica_candidates_in_index(index: &JsonValue, selector: &str, host_os: &str) -> (r: Result<Vec<RepoCandidate>, CliError>)
    ensures
        match json_get(*index, "repos"@) {
            Some(JsonValue::Object(repos)) => {
                let parts = selector_parts(normalize(selector@));
                let sel = all_selected(repos@, parts.0, parts.2, host_os@);
                r is Ok && r->Ok_0@.len() == sel.len() && (forall|i: int|
                    0 <= i < sel.len() ==> candidate_of(#[trigger] r->Ok_0@[i], sel[i].0, sel[i].1, sel[i].2))
                    && (forall|i: int| 0 <= i < sel.len() ==> (#[trigger] r->Ok_0@[i]).appname@ == parts.0
                    && (parts.2.len() > 0 ==> r->Ok_0@[i].branch@ == parts.2))
            },
            _ => r is Err && r->Err_0.code == E_INDEX_INVALID && r->Err_0.message@
                == "missing index: run 'pica -S' first"@,
        },
{
    proof {
        reveal_strlit("");
        assert(""@ =~= Seq::<char>::empty());
    }
    let parsed = Selector::parse(selector);
    let repos = match index.get("repos") {
        Some(JsonValue::Object(es)) => es,
        _ => {
            return Err(CliError::new(E_INDEX_INVALID, "missing index: run 'pica -S' first"));
        },
    };
    let ghost appname = parsed.appname@;
    let ghost branch = parsed.branch@;
    let mut out: Vec<RepoCandidate> = Vec::new();
    let mut i: usize = 0;
    while i < repos.len()
        invariant
            i <= repos@.len(),
            appname == parsed.appname@,
            branch == parsed.branch@,
            out@.len() == all_selected(repos@.take(i as int), appname, branch, host_os@).len(),
            forall|k: int|
                0 <= k < out@.len() ==> {
                    let s = all_selected(repos@.take(i as int), appname, branch, host_os@)[k];
                    candidate_of(#[trigger] out@[k], s.0, s.1, s.2)
                },
        decreases repos.len() - i,
    {
        let ghost prev = all_selected(repos@.take(i as int), appname, branch, host_os@);
        assert(repos@.take(i + 1).drop_last() =~= repos@.take(i as int));
        assert(repos@.take(i + 1).last() == repos@[i as int]);
        let name = repos[i].0.as_str();
        let entry = &repos[i].1;
        let repo_url = get_str_or(entry, "url", "");
        let packages = match entry.get("data") {
            Some(d) => match d.get("packages") {
                Some(JsonValue::Array(items)) => Some(items),
                _ => None,
            },
            None => None,
        };
        match packages {
            None => {
                proof {
                    let now = all_selected(repos@.take(i + 1), appname, branch, host_os@);
                    assert(now == prev);
                }
            },
            Some(items) => {
                let ghost base_len = out@.len();
                let mut j: usize = 0;
                while j < items.len()
                    invariant
                        j <= items@.len(),
                        base_len == prev.len(),
                        out@.len() == base_len + selected_entries(items@.take(j as int), appname, branch, host_os@).len(),
                        forall|k: int|
                            0 <= k < base_len ==> candidate_of(#[trigger] out@[k], prev[k].0, prev[k].1, prev[k].2),
                        forall|k: int|
                            0 <= k < selected_entries(items@.take(j as int), appname, branch, host_os@).len()
                                ==> candidate_of(
                                #[trigger] out@[base_len + k],
                                name@,
                                repo_url@,
                                selected_entries(items@.take(j as int), appname, branch, host_os@)[k],
                            ),
                    decreases items.len() - j,
                {
                    assert(items@.take(j + 1).drop_last() =~= items@.take(j as int));
                    assert(items@.take(j + 1).last() == items@[j as int]);
                    if selected_exec(&items[j], parsed.appname.as_str(), parsed.branch.as_str(), host_os) {
                        let c = candidate_exec(name, repo_url.as_str(), &items[j]);
                        out.push(c);
                    }
                    j += 1;
                }
                assert(items@.take(items@.len() as int) =~= items@);
                proof {
                    let now = all_selected(repos@.take(i + 1), appname, branch, host_os@);
                    let sel = selected_entries(items@, appname, branch, host_os@);
                    let mapped = sel.map_values(|p: JsonValue| (name@, repo_url@, p));
                    assert(packages_of(repos@[i as int].1) == Some(items@));
                    assert(now == prev + mapped);
                    assert forall|k: int| 0 <= k < out@.len() implies {
                        let s = now[k];
                        candidate_of(#[trigger] out@[k], s.0, s.1, s.2)
                    } by {
                        if k >= prev.len() {
                            assert(now[k] == mapped[k - prev.len()]);
                            assert(mapped[k - prev.len()] == (name@, repo_url@, sel[k - prev.len()]));
                            assert(out@[k] == out@[base_len + (k - prev.len())]);
                        }
                    }
                }
            },
        }
        i += 1;
    }
    assert(repos@.take(repos@.len() as int) =~= repos@);
    proof {
        law_selected_entries_fit(repos@, appname, branch, host_os@);
        assert(selector_parts(normalize(selector@)).0 == appname);
        assert(selector_parts(normalize(selector@)).2 == branch);
        let sel = all_selected(repos@, appname, branch, host_os@);
        assert forall|i: int| 0 <= i < sel.len() implies (#[trigger] out@[i]).appname@ == appname
            && (branch.len() > 0 ==> out@[i].branch@ == branch) by {
            assert(fits_selection(sel[i].2, appname, branch, host_os@));
            assert(candidate_of(out@[i], sel[i].0, sel[i].1, sel[i].2));
        }
    }
    Ok(out)
}

} // verus!
