//! The decisions of the repository tool's installs: the candidates of a
//! selector, the download of the newest, the source of a package file.
use vstd::prelude::*;
use crate::text::{copy_str, str_eq};
use crate::json::{JsonValue, json_get, json_str, str_or, get_str, get_str_or};
use crate::pica_core::selector::{Selector, selector_parts, normalize};
use crate::pica_pkg_core::version::version_key;
use crate::pica_pkg_cli::candidate::packages_of;
use crate::pica_pkg_cli::install::{
    DownloadFields, CandView, RepoDownload, view_of, download_plan, download_matches,
    plan_download, opt_view, PkgSource,
};
use crate::pica_cli::types::{CliError, DEFAULT_ERROR_CODE};

verus! {

/// A package of the index that an install may take.
#[derive(Debug)]
pub struct RepoCandidate {
    pub sort_key: String,
    pub repo: String,
    pub url: String,
    pub filename: String,
    pub download_url: Option<String>,
    pub min_pica: Option<String>,
    pub pkgname: String,
    pub sha256: String,
}

/// The entry is for the selected app, version and branch, on a platform
/// the host or the repository serves.
pub open spec fn entry_selected(
    pkg: JsonValue,
    repo_platform: Seq<char>,
    appname: Seq<char>,
    version: Seq<char>,
    branch: Seq<char>,
    host_platform: Seq<char>,
) -> bool {
    let pkgname = str_or(pkg, "pkgname"@, Seq::empty());
    let app = str_or(pkg, "appname"@, pkgname);
    let tag = str_or(pkg, "version"@, Seq::empty());
    let b = str_or(pkg, "branch"@, Seq::empty());
    let pkgver = str_or(pkg, "pkgver"@, Seq::empty());
    let key = version_key(pkgver, str_or(pkg, "pkgrel"@, Seq::empty()));
    let platform = str_or(pkg, "platform"@, "all"@);
    &&& app == appname
    &&& (version.len() == 0 || tag == version || b == version || pkgver == version || key == version)
    &&& (branch.len() == 0 || b == branch)
    &&& (platform == "all"@ || platform == host_platform || (repo_platform.len() > 0 && platform
        == repo_platform))
}

/// The selected entries of one package list, in order.
pub open spec fn selected_entries(
    items: Seq<JsonValue>,
    repo_platform: Seq<char>,
    parts: (Seq<char>, Seq<char>, Seq<char>),
    host_platform: Seq<char>,
) -> Seq<JsonValue>
    decreases items.len(),
{
    if items.len() == 0 {
        Seq::empty()
    } else {
        let rest = selected_entries(items.drop_last(), repo_platform, parts, host_platform);
        if entry_selected(items.last(), repo_platform, parts.0, parts.1, parts.2, host_platform) {
            rest.push(items.last())
        } else {
            rest
        }
    }
}

/// Every entry selected from a package list is for the app the selector
/// names, of the branch it names when it names one, and of its version when
/// it names one (as tag, branch, version or version and release).
pub proof fn law_selected_entries_fit(
    items: Seq<JsonValue>,
    repo_platform: Seq<char>,
    parts: (Seq<char>, Seq<char>, Seq<char>),
    host_platform: Seq<char>,
)
    ensures
        forall|k: int| 0 <= k < selected_entries(items, repo_platform, parts, host_platform).len() ==> {
            let p = #[trigger] selected_entries(items, repo_platform, parts, host_platform)[k];
            &&& str_or(p, "appname"@, str_or(p, "pkgname"@, Seq::empty())) == parts.0
            &&& parts.2.len() > 0 ==> str_or(p, "branch"@, Seq::empty()) == parts.2
            &&& parts.1.len() > 0 ==> (str_or(p, "version"@, Seq::empty()) == parts.1 || str_or(
                p,
                "branch"@,
                Seq::empty(),
            ) == parts.1 || str_or(p, "pkgver"@, Seq::empty()) == parts.1 || version_key(
                str_or(p, "pkgver"@, Seq::empty()),
                str_or(p, "pkgrel"@, Seq::empty()),
            ) == parts.1)
        },
    decreases items.len(),
{
    if items.len() > 0 {
        law_selected_entries_fit(items.drop_last(), repo_platform, parts, host_platform);
        let rest = selected_entries(items.drop_last(), repo_platform, parts, host_platform);
        let sel = selected_entries(items, repo_platform, parts, host_platform);
        assert forall|k: int| 0 <= k < sel.len() implies {
            let p = #[trigger] sel[k];
            &&& str_or(p, "appname"@, str_or(p, "pkgname"@, Seq::empty())) == parts.0
            &&& parts.2.len() > 0 ==> str_or(p, "branch"@, Seq::empty()) == parts.2
            &&& parts.1.len() > 0 ==> (str_or(p, "version"@, Seq::empty()) == parts.1 || str_or(
                p,
                "branch"@,
                Seq::empty(),
            ) == parts.1 || str_or(p, "pkgver"@, Seq::empty()) == parts.1 || version_key(
                str_or(p, "pkgver"@, Seq::empty()),
                str_or(p, "pkgrel"@, Seq::empty()),
            ) == parts.1)
        } by {
            if k < rest.len() {
                assert(sel[k] == rest[k]);
            } else {
                assert(entry_selected(items.last(), repo_platform, parts.0, parts.1, parts.2, host_platform));
                assert(sel[k] == items.last());
            }
        }
    }
}

/// The candidate fields of an entry of repository `repo` at `url`.
pub open spec fn entry_view(repo: Seq<char>, url: Seq<char>, pkg: JsonValue) -> CandView {
    CandView {
        sort_key: version_key(str_or(pkg, "pkgver"@, Seq::empty()), str_or(pkg, "pkgrel"@, Seq::empty())),
        repo: repo,
        url: url,
        filename: str_or(pkg, "filename"@, Seq::empty()),
        sha256: str_or(pkg, "sha256"@, Seq::empty()),
        pkgname: str_or(pkg, "pkgname"@, Seq::empty()),
        min_pica: json_str(json_get(pkg, "pica"@)),
        download_url: json_str(json_get(pkg, "download_url"@)),
    }
}

/// The candidates of all repositories, in the order of their names.
pub open spec fn all_selected(
    repos: Seq<(String, JsonValue)>,
    parts: (Seq<char>, Seq<char>, Seq<char>),
    host_platform: Seq<char>,
) -> Seq<CandView>
    decreases repos.len(),
{
    if repos.len() == 0 {
        Seq::empty()
    } else {
        let rest = all_selected(repos.drop_last(), parts, host_platform);
        let (name, entry) = repos.last();
        match packages_of(entry) {
            None => rest,
            Some(items) => rest + selected_entries(
                items,
                str_or(entry, "platform"@, Seq::empty()),
                parts,
                host_platform,
            ).map_values(|p: JsonValue| entry_view(name@, str_or(entry, "url"@, Seq::empty()), p)),
        }
    }
}

pub open spec fn candidate_view(c: RepoCandidate) -> CandView {
    CandView {
        sort_key: c.sort_key@,
        repo: c.repo@,
        url: c.url@,
        filename: c.filename@,
        sha256: c.sha256@,
        pkgname: c.pkgname@,
        min_pica: opt_view(c.min_pica),
        download_url: opt_view(c.download_url),
    }
}

fn selected_exec(
    pkg: &JsonValue,
    repo_platform: &str,
    parsed: &Selector,
    host_platform: &str,
) -> (r: bool)
    ensures
        r == entry_selected(*pkg, repo_platform@, parsed.appname@, parsed.version@, parsed.branch@, host_platform@),
{
    proof {
        reveal_strlit("");
        assert(""@ =~= Seq::<char>::empty());
    }
    let pkgname = get_str_or(pkg, "pkgname", "");
    let app = get_str_or(pkg, "appname", pkgname.as_str());
    if !str_eq(app.as_str(), parsed.appname.as_str()) {
        return false;
    }
    let b = get_str_or(pkg, "branch", "");
    if !parsed.version.as_str().is_empty() {
        let tag = get_str_or(pkg, "version", "");
        let pkgver = get_str_or(pkg, "pkgver", "");
        let pkgrel = get_str_or(pkg, "pkgrel", "");
        let key = crate::pica_pkg_core::version::pkgver_cmp_key(pkgver.as_str(), pkgrel.as_str());
        let v = parsed.version.as_str();
        if !(str_eq(tag.as_str(), v) || str_eq(b.as_str(), v) || str_eq(pkgver.as_str(), v)
            || str_eq(key.as_str(), v)) {
            return false;
        }
    }
    if !parsed.branch.as_str().is_empty() && !str_eq(b.as_str(), parsed.branch.as_str()) {
        return false;
    }
    let platform = get_str_or(pkg, "platform", "all");
    str_eq(platform.as_str(), "all") || str_eq(platform.as_str(), host_platform) || (
    !repo_platform.is_empty() && str_eq(platform.as_str(), repo_platform))
}

fn candidate_exec(repo: &str, url: &str, pkg: &JsonValue) -> (r: RepoCandidate)
    ensures
        candidate_view(r) == entry_view(repo@, url@, *pkg),
{
    proof {
        reveal_strlit("");
        assert(""@ =~= Seq::<char>::empty());
    }
    let pkgver = get_str_or(pkg, "pkgver", "");
    let pkgrel = get_str_or(pkg, "pkgrel", "");
    RepoCandidate {
        sort_key: crate::pica_pkg_core::version::pkgver_cmp_key(pkgver.as_str(), pkgrel.as_str()),
        repo: copy_str(repo),
        url: copy_str(url),
        filename: get_str_or(pkg, "filename", ""),
        download_url: get_str(pkg, "download_url"),
        min_pica: get_str(pkg, "pica"),
        pkgname: get_str_or(pkg, "pkgname", ""),
        sha256: get_str_or(pkg, "sha256", ""),
    }
}

/// The candidates of the index for a selector, on a host of platform
/// `host_platform`: entries of the selector's app, of its version (as tag,
/// branch, version or version with release) and branch when it names them,
/// for platform `all`, the host's or the repository's.
#[verifier::loop_isolation(false)]
pub fn find_pica_candidates_in_index(index: &JsonValue, selector: &str, host_platform: &str) -> (r: Result<Vec<RepoCandidate>, CliError>)
    ensures
        match json_get(*index, "repos"@) {
            Some(JsonValue::Object(repos)) => r is Ok && r->Ok_0@.map_values(
                |c: RepoCandidate| candidate_view(c),
            ) == all_selected(repos@, selector_parts(normalize(selector@)), host_platform@),
            _ => r is Err && r->Err_0.code == DEFAULT_ERROR_CODE && r->Err_0.message@
                == "missing index: run 'pica -S' first"@,
        },
{
    proof {
        reveal_strlit("");
        assert(""@ =~= Seq::<char>::empty());
    }
    let parsed = Selector::parse(selector);
    let ghost parts = selector_parts(normalize(selector@));
    assert(parts == (parsed.appname@, parsed.version@, parsed.branch@));
    let repos = match index.get("repos") {
        Some(JsonValue::Object(es)) => es,
        _ => {
            return Err(CliError::new(DEFAULT_ERROR_CODE, "missing index: run 'pica -S' first"));
        },
    };
    let mut out: Vec<RepoCandidate> = Vec::new();
    let mut i: usize = 0;
    while i < repos.len()
        invariant
            i <= repos@.len(),
            out@.map_values(|c: RepoCandidate| candidate_view(c)) == all_selected(
                repos@.take(i as int),
                parts,
                host_platform@,
            ),
        decreases repos.len() - i,
    {
        let ghost prev = all_selected(repos@.take(i as int), parts, host_platform@);
        assert(repos@.take(i + 1).drop_last() =~= repos@.take(i as int));
        assert(repos@.take(i + 1).last() == repos@[i as int]);
        let name = repos[i].0.as_str();
        let entry = &repos[i].1;
        let repo_url = get_str_or(entry, "url", "");
        let repo_platform = get_str_or(entry, "platform", "");
        let packages = match entry.get("data") {
            Some(d) => match d.get("packages") {
                Some(JsonValue::Array(items)) => Some(items),
                _ => None,
            },
            None => None,
        };
        match packages {
            None => {},
            Some(items) => {
                let ghost base = out@.map_values(|c: RepoCandidate| candidate_view(c));
                let mut j: usize = 0;
                while j < items.len()
                    invariant
                        j <= items@.len(),
                        base == prev,
                        out@.map_values(|c: RepoCandidate| candidate_view(c)) == base
                            + selected_entries(items@.take(j as int), repo_platform@, parts, host_platform@).map_values(
                            |p: JsonValue| entry_view(name@, repo_url@, p),
                        ),
                    decreases items.len() - j,
                {
                    assert(items@.take(j + 1).drop_last() =~= items@.take(j as int));
                    assert(items@.take(j + 1).last() == items@[j as int]);
                    let ghost before = out@;
                    if selected_exec(&items[j], repo_platform.as_str(), &parsed, host_platform) {
                        let c = candidate_exec(name, repo_url.as_str(), &items[j]);
                        out.push(c);
                        assert(out@.map_values(|c: RepoCandidate| candidate_view(c)) =~= before.map_values(
                            |c: RepoCandidate| candidate_view(c),
                        ).push(entry_view(name@, repo_url@, items@[j as int])));
                    }
                    assert(out@.map_values(|c: RepoCandidate| candidate_view(c)) =~= base
                        + selected_entries(items@.take(j + 1), repo_platform@, parts, host_platform@).map_values(
                        |p: JsonValue| entry_view(name@, repo_url@, p),
                    ));
                    j += 1;
                }
                assert(items@.take(items@.len() as int) =~= items@);
            },
        }
        i += 1;
    }
    assert(repos@.take(repos@.len() as int) =~= repos@);
    Ok(out)
}

fn from_plan_error(e: crate::pica_pkg_cli::types::CliError) -> (r: CliError)
    ensures
        r.code == e.code,
        r.message@ == e.message@,
{
    CliError { code: e.code, message: e.message }
}

/// The download for installing `selector` from the repositories of the
/// synced index, for a host of platform `host_platform`: the newest
/// candidate, checked as the package-format tool checks it.
pub fn install_pica_from_repo(index: &JsonValue, selector: &str, host_platform: &str, pica_version: &str) -> (r: Result<RepoDownload, CliError>)
    ensures
        match json_get(*index, "repos"@) {
            Some(JsonValue::Object(repos)) => {
                let views = all_selected(repos@, selector_parts(normalize(selector@)), host_platform@);
                match download_plan(views, selector@, pica_version@) {
                    Ok((i, url)) => r is Ok && r->Ok_0.download_url@ == url && r->Ok_0.filename@
                        == views[i].filename && r->Ok_0.sha256@ == views[i].sha256
                        && r->Ok_0.pkgname@ == views[i].pkgname && r->Ok_0.repo@ == views[i].repo,
                    Err((code, msg)) => r is Err && r->Err_0.code == code && r->Err_0.message@ == msg,
                }
            },
            _ => r is Err && r->Err_0.code == DEFAULT_ERROR_CODE && r->Err_0.message@
                == "missing index: run 'pica -S' first"@,
        },
{
    let found = find_pica_candidates_in_index(index, selector, host_platform)?;
    let mut cands: Vec<DownloadFields> = Vec::new();
    let mut i: usize = 0;
    while i < found.len()
        invariant
            i <= found@.len(),
            cands@.len() == i,
            forall|k: int| 0 <= k < i ==> view_of(#[trigger] cands@[k]) == candidate_view(found@[k]),
        decreases found.len() - i,
    {
        let c = &found[i];
        let f = DownloadFields {
            sort_key: c.sort_key.clone(),
            repo: c.repo.clone(),
            url: c.url.clone(),
            filename: c.filename.clone(),
            sha256: c.sha256.clone(),
            pkgname: c.pkgname.clone(),
            min_pica: match &c.min_pica {
                Some(s) => Some(s.clone()),
                None => None,
            },
            download_url: match &c.download_url {
                Some(s) => Some(s.clone()),
                None => None,
            },
        };
        cands.push(f);
        i += 1;
    }
    proof {
        let views = cands@.map_values(|c: DownloadFields| view_of(c));
        let fv = found@.map_values(|c: RepoCandidate| candidate_view(c));
        assert(views =~= fv);
    }
    match plan_download(&cands, selector, pica_version) {
        Ok(d) => Ok(d),
        Err(e) => Err(from_plan_error(e)),
    }
}

/// The source of a `-U` install: the local file when `source` names an
/// existing file, else a download when it is a supported address.
pub fn install_pkg_source(source: &str, is_file: bool, now_secs: u64, pid: u32) -> (r: Result<PkgSource, CliError>)
    ensures
        is_file ==> (r matches Ok(PkgSource::Local(p)) && p@ == source@),
        !is_file && crate::pica_core::repo::supported_url(source@) ==> (r matches Ok(
            PkgSource::Remote { url, cached_name },
        ) && url@ == source@ && cached_name@ == crate::pica_pkg_cli::install::cache_name(
            match crate::pica_pkg_cli::install::url_file_name(source@) {
                Some(f) => f,
                None => "remote"@,
            },
            now_secs,
            pid,
        )),
        !is_file && !crate::pica_core::repo::supported_url(source@) ==> r is Err && r->Err_0.code
            == crate::pica_cli::types::E_CONFIG_INVALID && r->Err_0.message@
            == "pkg source not found or unsupported URL: "@ + source@,
{
    match crate::pica_pkg_cli::install::pkg_source(source, is_file, now_secs, pid) {
        Ok(s) => Ok(s),
        Err(e) => {
            proof {
                reveal_strlit("E_CONFIG_INVALID");
            }
            Err(CliError { code: crate::pica_cli::types::E_CONFIG_INVALID, message: e.message })
        },
    }
}

} // verus!
