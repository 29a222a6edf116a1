//! The decisions of an install from the repositories or from a package
//! source: which candidate, whether it is acceptable, where it comes from.
use vstd::prelude::*;
use crate::text::{
    chars_of, to_lower, to_lower_chars, chars_eq, contains_char, contains_char_exec, ends_with,
    ends_with_str, is_ascii_hex, copy_str, append_str, push_char, string_of, sub_chars,
    is_ascii_alnum_char, is_ascii_alnum, decimal, decimal_string, string_views,
};
use crate::json::{JsonValue, json_get, json_str, str_or};
use crate::pica_core::selector::{selector_parts, normalize};
use crate::pica_pkg_core::version::version_key;
use crate::pica_pkg_cli::candidate::{all_selected, candidate_of};
use crate::pica_core::repo::{supported_url, is_supported_url};
use crate::pica_cli::size::size_display;
use crate::pica_pkg_core::version::{pkgver_ge_spec, ver_ge_spec, pkgver_ge, ver_ge, law_pkgver_ge_reflexive, law_pkgver_ge_total};
use crate::pica_pkg_core::version_order::{release_is_number, law_pkgver_ge_transitive};
use crate::pica_pkg_cli::candidate::{RepoCandidate, find_pica_candidates_in_index};
use crate::pica_pkg_cli::types::{
    CliError, E_CONFIG_INVALID, E_VERSION_INCOMPATIBLE, E_REPO_INVALID, E_INTEGRITY_INVALID,
    E_INDEX_INVALID,
};

verus! {

/// The index of the newest candidate among the first `n`, and its version:
/// a later candidate replaces the best when its version is not below it.
pub open spec fn best_of(vers: Seq<Seq<char>>, n: int) -> (int, Seq<char>)
    decreases n,
{
    if n <= 0 || n > vers.len() {
        (0, Seq::empty())
    } else {
        let (bi, bv) = best_of(vers, n - 1);
        if pkgver_ge_spec(vers[n - 1], bv) {
            (n - 1, vers[n - 1])
        } else {
            (bi, bv)
        }
    }
}

/// `s` with every trailing `c` removed.
pub open spec fn trim_end_char(s: Seq<char>, c: char) -> Seq<char>
    decreases s.len(),
{
    if s.len() > 0 && s.last() == c {
        trim_end_char(s.drop_last(), c)
    } else {
        s
    }
}

pub fn trim_end_char_exec(s: &str, c: char) -> (r: String)
    ensures
        r@ == trim_end_char(s@, c),
{
    let cs = chars_of(s);
    let mut n: usize = cs.len();
    assert(cs@.take(cs@.len() as int) =~= cs@);
    while n > 0 && cs[n - 1] == c
        invariant
            n <= cs@.len(),
            trim_end_char(cs@, c) == trim_end_char(cs@.take(n as int), c),
        decreases n,
    {
        assert(cs@.take(n as int).drop_last() =~= cs@.take(n - 1));
        n -= 1;
    }
    let t = sub_chars(&cs, 0, n);
    assert(t@ =~= cs@.take(n as int));
    string_of(&t)
}

/// A SHA-256 digest as text: 64 hex digits.
pub open spec fn is_sha256_text(s: Seq<char>) -> bool {
    s.len() == 64 && forall|i: int| 0 <= i < s.len() ==> is_ascii_hex(#[trigger] s[i])
}

fn sha256_text_exec(s: &str) -> (r: bool)
    ensures
        r == is_sha256_text(s@),
{
    let cs = chars_of(s);
    if cs.len() != 64 {
        return false;
    }
    let mut i: usize = 0;
    while i < cs.len()
        invariant
            i <= cs@.len(),
            cs@ == s@,
            forall|j: int| 0 <= j < i ==> is_ascii_hex(#[trigger] cs@[j]),
        decreases cs.len() - i,
    {
        let c = cs[i];
        if !(('0' <= c && c <= '9') || ('a' <= c && c <= 'f') || ('A' <= c && c <= 'F')) {
            return false;
        }
        i += 1;
    }
    true
}

/// What to download for an install from the repositories.
pub struct RepoDownload {
    /// Where the package file is fetched from.
    pub download_url: String,
    /// The file name in the package cache.
    pub filename: String,
    /// The expected SHA-256 digest, as hex text.
    pub sha256: String,
    pub pkgname: String,
    pub sort_key: String,
    pub repo: String,
}

/// The fields of a candidate that the choice of a download reads.
pub struct DownloadFields {
    pub sort_key: String,
    pub repo: String,
    pub url: String,
    pub filename: String,
    pub sha256: String,
    pub pkgname: String,
    pub min_pica: Option<String>,
    pub download_url: Option<String>,
}

/// The same fields, as values.
pub struct CandView {
    pub sort_key: Seq<char>,
    pub repo: Seq<char>,
    pub url: Seq<char>,
    pub filename: Seq<char>,
    pub sha256: Seq<char>,
    pub pkgname: Seq<char>,
    pub min_pica: Option<Seq<char>>,
    pub download_url: Option<Seq<char>>,
}

pub open spec fn opt_view(o: Option<String>) -> Option<Seq<char>> {
    match o {
        Some(s) => Some(s@),
        None => None,
    }
}

pub open spec fn view_of(c: DownloadFields) -> CandView {
    CandView {
        sort_key: c.sort_key@,
        repo: c.repo@,
        url: c.url@,
        filename: c.filename@,
        sha256: c.sha256@,
        pkgname: c.pkgname@,
        min_pica: opt_view(c.min_pica),
        download_url: opt_view(c.download_url),
    }
}

/// The candidate fields of an index entry of repository `repo` at `url`.
pub open spec fn entry_view(repo: Seq<char>, url: Seq<char>, pkg: JsonValue) -> CandView {
    CandView {
        sort_key: version_key(str_or(pkg, "pkgver"@, Seq::empty()), str_or(pkg, "pkgrel"@, Seq::empty())),
        repo: repo,
        url: url,
        filename: str_or(pkg, "filename"@, Seq::empty()),
        sha256: str_or(pkg, "sha256"@, Seq::empty()),
        pkgname: str_or(pkg, "pkgname"@, Seq::empty()),
        min_pica: json_str(json_get(pkg, "pica"@)),
        download_url: json_str(json_get(pkg, "download_url"@)),
    }
}

/// The download of candidate `bi` (its index and address) once it passes
/// the checks, or the code and message of the first check it fails.
pub open spec fn checked_download(
    cands: Seq<CandView>,
    bi: int,
    pica_version: Seq<char>,
) -> Result<(int, Seq<char>), (&'static str, Seq<char>)> {
    let b = cands[bi];
    if b.min_pica matches Some(m) && m.len() > 0 && !ver_ge_spec(pica_version, m) {
        Err(
            (
                E_VERSION_INCOMPATIBLE,
                "pica too old: pkg requires >= "@ + b.min_pica->Some_0 + ", cli is "@ + pica_version,
            ),
        )
    } else if contains_char(b.filename, '/') || !ends_with(b.filename, ".pkg.tar.gz"@) {
        Err((E_REPO_INVALID, b.repo + ": invalid filename: "@ + b.filename))
    } else if !is_sha256_text(b.sha256) {
        Err((E_REPO_INVALID, b.repo + ": invalid sha256 for "@ + b.pkgname))
    } else {
        match b.download_url {
            Some(u) => if !supported_url(u) {
                Err((E_REPO_INVALID, b.repo + ": invalid download_url for "@ + b.pkgname + ": "@ + u))
            } else {
                Ok((bi, u))
            },
            None => Ok((bi, trim_end_char(b.url, '/') + "/packages/"@ + b.filename)),
        }
    }
}

/// The download of the best candidate (its index and address), or the code
/// and message of why it cannot be installed.
pub open spec fn download_plan(
    cands: Seq<CandView>,
    selector: Seq<char>,
    pica_version: Seq<char>,
) -> Result<(int, Seq<char>), (&'static str, Seq<char>)> {
    if cands.len() == 0 {
        Err((E_CONFIG_INVALID, "package not found in pica repos: "@ + selector))
    } else {
        checked_download(
            cands,
            best_of(cands.map_values(|c: CandView| c.sort_key), cands.len() as int).0,
            pica_version,
        )
    }
}

/// The download the plan describes, for the candidates `cands`.
pub open spec fn download_matches(r: Result<RepoDownload, CliError>, cands: Seq<CandView>, plan: Result<(int, Seq<char>), (&'static str, Seq<char>)>) -> bool {
    match plan {
        Ok((i, url)) => r is Ok && r->Ok_0.download_url@ == url && r->Ok_0.filename@ == cands[i].filename
            && r->Ok_0.sha256@ == cands[i].sha256 && r->Ok_0.pkgname@ == cands[i].pkgname
            && r->Ok_0.sort_key@ == cands[i].sort_key && r->Ok_0.repo@ == cands[i].repo,
        Err((code, msg)) => r is Err && r->Err_0.code == code && r->Err_0.message@ == msg,
    }
}

/// Checks candidate `best_index` for download: the client version it
/// needs, a plain `.pkg.tar.gz` file name, a SHA-256 digest, a supported
/// address.
pub fn plan_download_at(cands: &Vec<DownloadFields>, best_index: usize, pica_version: &str) -> (r: Result<RepoDownload, CliError>)
    requires
        best_index < cands@.len(),
    ensures
        download_matches(
            r,
            cands@.map_values(|c: DownloadFields| view_of(c)),
            checked_download(cands@.map_values(|c: DownloadFields| view_of(c)), best_index as int, pica_version@),
        ),
{
    let ghost views = cands@.map_values(|c: DownloadFields| view_of(c));
    let best = &cands[best_index];
    assert(views[best_index as int] == view_of(*best));
    match &best.min_pica {
        Some(m) => {
            if !m.as_str().is_empty() && !ver_ge(pica_version, m.as_str()) {
                let mut msg = copy_str("pica too old: pkg requires >= ");
                append_str(&mut msg, m.as_str());
                append_str(&mut msg, ", cli is ");
                append_str(&mut msg, pica_version);
                return Err(CliError { code: E_VERSION_INCOMPATIBLE, message: msg });
            }
        },
        None => {},
    }
    let fc = chars_of(best.filename.as_str());
    if contains_char_exec(&fc, '/') || !ends_with_str(&fc, ".pkg.tar.gz") {
        let mut msg = copy_str(best.repo.as_str());
        append_str(&mut msg, ": invalid filename: ");
        append_str(&mut msg, best.filename.as_str());
        return Err(CliError { code: E_REPO_INVALID, message: msg });
    }
    if !sha256_text_exec(best.sha256.as_str()) {
        let mut msg = copy_str(best.repo.as_str());
        append_str(&mut msg, ": invalid sha256 for ");
        append_str(&mut msg, best.pkgname.as_str());
        return Err(CliError { code: E_REPO_INVALID, message: msg });
    }
    let download_url = match &best.download_url {
        Some(u) => {
            if !is_supported_url(u.as_str()) {
                let mut msg = copy_str(best.repo.as_str());
                append_str(&mut msg, ": invalid download_url for ");
                append_str(&mut msg, best.pkgname.as_str());
                append_str(&mut msg, ": ");
                append_str(&mut msg, u.as_str());
                return Err(CliError { code: E_REPO_INVALID, message: msg });
            }
            u.clone()
        },
        None => {
            let mut d = trim_end_char_exec(best.url.as_str(), '/');
            append_str(&mut d, "/packages/");
            append_str(&mut d, best.filename.as_str());
            d
        },
    };
    Ok(
        RepoDownload {
            download_url,
            filename: best.filename.clone(),
            sha256: best.sha256.clone(),
            pkgname: best.pkgname.clone(),
            sort_key: best.sort_key.clone(),
            repo: best.repo.clone(),
        },
    )
}

/// Picks the newest candidate and checks it for download.
pub fn plan_download(cands: &Vec<DownloadFields>, selector: &str, pica_version: &str) -> (r: Result<RepoDownload, CliError>)
    ensures
        download_matches(
            r,
            cands@.map_values(|c: DownloadFields| view_of(c)),
            download_plan(cands@.map_values(|c: DownloadFields| view_of(c)), selector@, pica_version@),
        ),
{
    let ghost views = cands@.map_values(|c: DownloadFields| view_of(c));
    if cands.len() == 0 {
        let mut m = copy_str("package not found in pica repos: ");
        append_str(&mut m, selector);
        return Err(CliError { code: E_CONFIG_INVALID, message: m });
    }
    let ghost vers = views.map_values(|c: CandView| c.sort_key);
    let mut best_index: usize = 0;
    let mut best_ver = String::new();
    let mut i: usize = 0;
    while i < cands.len()
        invariant
            i <= cands@.len(),
            views == cands@.map_values(|c: DownloadFields| view_of(c)),
            vers == views.map_values(|c: CandView| c.sort_key),
            best_of(vers, i as int) == (best_index as int, best_ver@),
            best_index < cands@.len(),
        decreases cands.len() - i,
    {
        assert(vers[i as int] == cands@[i as int].sort_key@);
        if pkgver_ge(cands[i].sort_key.as_str(), best_ver.as_str()) {
            best_index = i;
            best_ver = cands[i].sort_key.clone();
        }
        i += 1;
    }
    plan_download_at(cands, best_index, pica_version)
}

/// The download fields of a candidate.
pub open spec fn fields_view(c: RepoCandidate) -> CandView {
    CandView {
        sort_key: c.sort_key@,
        repo: c.repo@,
        url: c.url@,
        filename: c.filename@,
        sha256: c.sha256@,
        pkgname: c.pkgname@,
        min_pica: opt_view(c.min_pica),
        download_url: opt_view(c.download_url),
    }
}

fn copy_opt(o: &Option<String>) -> (r: Option<String>)
    ensures
        opt_view(r) == opt_view(*o),
{
    match o {
        Some(s) => Some(s.clone()),
        None => None,
    }
}

/// The download fields of a candidate.
pub fn download_fields(c: &RepoCandidate) -> (r: DownloadFields)
    ensures
        view_of(r) == fields_view(*c),
{
    DownloadFields {
        sort_key: c.sort_key.clone(),
        repo: c.repo.clone(),
        url: c.url.clone(),
        filename: c.filename.clone(),
        sha256: c.sha256.clone(),
        pkgname: c.pkgname.clone(),
        min_pica: copy_opt(&c.min_pica),
        download_url: copy_opt(&c.download_url),
    }
}

/// The candidate fields of the index entries a selector picks.
pub open spec fn index_views(index: JsonValue, selector: Seq<char>, host_os: Seq<char>) -> Seq<CandView> {
    let parts = selector_parts(normalize(selector));
    let repos = json_get(index, "repos"@)->Some_0->Object_0@;
    all_selected(repos, parts.0, parts.2, host_os).map_values(
        |t: (Seq<char>, Seq<char>, JsonValue)| entry_view(t.0, t.1, t.2),
    )
}

/// The download for installing `selector` from the repositories of the
/// synced index: its candidates on a host running `host_os`, the newest of
/// them, checked.
pub fn pica_from_repo(index: &JsonValue, selector: &str, host_os: &str, pica_version: &str) -> (r: Result<RepoDownload, CliError>)
    ensures
        json_get(*index, "repos"@) matches Some(JsonValue::Object(_)) ==> download_matches(
            r,
            index_views(*index, selector@, host_os@),
            download_plan(index_views(*index, selector@, host_os@), selector@, pica_version@),
        ),
        !(json_get(*index, "repos"@) matches Some(JsonValue::Object(_))) ==> r is Err
            && r->Err_0.code == E_INDEX_INVALID && r->Err_0.message@
            == "missing index: run 'pica -S' first"@,
{
    let found = find_pica_candidates_in_index(index, selector, host_os)?;
    let mut cands: Vec<DownloadFields> = Vec::new();
    let mut i: usize = 0;
    while i < found.len()
        invariant
            i <= found@.len(),
            cands@.len() == i,
            forall|k: int| 0 <= k < i ==> view_of(#[trigger] cands@[k]) == fields_view(found@[k]),
        decreases found.len() - i,
    {
        cands.push(download_fields(&found[i]));
        i += 1;
    }
    proof {
        let views = cands@.map_values(|c: DownloadFields| view_of(c));
        let iv = index_views(*index, selector@, host_os@);
        assert(views.len() == iv.len());
        assert forall|k: int| 0 <= k < views.len() implies views[k] == iv[k] by {
            let parts = selector_parts(normalize(selector@));
            let repos = json_get(*index, "repos"@)->Some_0->Object_0@;
            let sel = all_selected(repos, parts.0, parts.2, host_os@);
            assert(candidate_of(found@[k], sel[k].0, sel[k].1, sel[k].2));
        }
        assert(views =~= iv);
    }
    plan_download(&cands, selector, pica_version)
}

/// The downloaded file's digest matches the expected one, ignoring ASCII case.
pub fn verify_download(filename: &str, expected: &str, actual: &str) -> (r: Result<(), CliError>)
    ensures
        to_lower(actual@) == to_lower(expected@) ==> r is Ok,
        to_lower(actual@) != to_lower(expected@) ==> r is Err && r->Err_0.code == E_INTEGRITY_INVALID
            && r->Err_0.message@ == "sha256 mismatch for "@ + filename@ + ": expected "@ + expected@
            + ", got "@ + actual@,
{
    let a = chars_of(actual);
    let e = chars_of(expected);
    let al = to_lower_chars(&a);
    let el = to_lower_chars(&e);
    if chars_eq(&al, &el) {
        Ok(())
    } else {
        let mut msg = copy_str("sha256 mismatch for ");
        append_str(&mut msg, filename);
        append_str(&mut msg, ": expected ");
        append_str(&mut msg, expected);
        append_str(&mut msg, ", got ");
        append_str(&mut msg, actual);
        Err(CliError { code: E_INTEGRITY_INVALID, message: msg })
    }
}


/// A character kept in cached file names; others become `_`.
pub open spec fn cache_char(c: char) -> char {
    if is_ascii_alnum(c) || c == '.' || c == '_' || c == '+' || c == '-' {
        c
    } else {
        '_'
    }
}

/// The cached file name of a download: unsafe characters replaced, a
/// fallback name made of the time and process id when nothing is left, and
/// the package extension added when missing.
pub open spec fn cache_name(value: Seq<char>, now_secs: u64, pid: u32) -> Seq<char> {
    let mapped = value.map_values(|c: char| cache_char(c));
    let base = if mapped.len() == 0 {
        "remote-"@ + decimal(now_secs as nat) + "-"@ + decimal(pid as nat)
    } else {
        mapped
    };
    if ends_with(base, ".pkg.tar.gz"@) {
        base
    } else {
        base + ".pkg.tar.gz"@
    }
}

pub fn sanitize_cache_filename(value: &str, now_secs: u64, pid: u32) -> (r: String)
    ensures
        r@ == cache_name(value@, now_secs, pid),
{
    let cs = chars_of(value);
    let mut out: Vec<char> = Vec::new();
    let mut i: usize = 0;
    while i < cs.len()
        invariant
            i <= cs@.len(),
            cs@ == value@,
            out@ == cs@.take(i as int).map_values(|c: char| cache_char(c)),
        decreases cs.len() - i,
    {
        let c = cs[i];
        let k = if is_ascii_alnum_char(c) || c == '.' || c == '_' || c == '+' || c == '-' {
            c
        } else {
            '_'
        };
        out.push(k);
        assert(cs@.take(i + 1).map_values(|c: char| cache_char(c)) =~= cs@.take(i as int).map_values(
            |c: char| cache_char(c),
        ).push(cache_char(c)));
        i += 1;
    }
    assert(cs@.take(cs@.len() as int) =~= cs@);
    let mut base = if out.len() == 0 {
        let mut b = copy_str("remote-");
        append_str(&mut b, decimal_string(now_secs).as_str());
        append_str(&mut b, "-");
        append_str(&mut b, decimal_string(pid as u64).as_str());
        b
    } else {
        string_of(&out)
    };
    let bc = chars_of(base.as_str());
    if !ends_with_str(&bc, ".pkg.tar.gz") {
        append_str(&mut base, ".pkg.tar.gz");
    }
    base
}

/// Where a package source is installed from.
pub enum PkgSource {
    /// An existing local file.
    Local(String),
    /// A download to the package cache, under this file name.
    Remote { url: String, cached_name: String },
}

/// The file name of a path or address, if it has one.
pub open spec fn url_file_name(s: Seq<char>) -> Option<Seq<char>> {
    let f = crate::pica_pkg_cli::pkgmgr::apk::file_name_of(s);
    if f.len() == 0 || f == ".."@ {
        None
    } else {
        Some(f)
    }
}

/// The source of a `-U` install: the local file when `source` names an
/// existing file, else a download when it is a supported address.
pub fn pkg_source(source: &str, is_file: bool, now_secs: u64, pid: u32) -> (r: Result<PkgSource, CliError>)
    ensures
        is_file ==> (r matches Ok(PkgSource::Local(p)) && p@ == source@),
        !is_file && supported_url(source@) ==> (r matches Ok(PkgSource::Remote { url, cached_name })
            && url@ == source@ && cached_name@ == cache_name(
            match url_file_name(source@) {
                Some(f) => f,
                None => "remote"@,
            },
            now_secs,
            pid,
        )),
        !is_file && !supported_url(source@) ==> r is Err && r->Err_0.code == E_CONFIG_INVALID
            && r->Err_0.message@ == "pkg source not found or unsupported URL: "@ + source@,
{
    if is_file {
        return Ok(PkgSource::Local(copy_str(source)));
    }
    if is_supported_url(source) {
        let cs = chars_of(source);
        let f = crate::pica_pkg_cli::pkgmgr::apk::file_name_exec(&cs);
        let dots = chars_of("..");
        let name = if f.len() == 0 || chars_eq(&f, &dots) {
            copy_str("remote")
        } else {
            string_of(&f)
        };
        let cached = sanitize_cache_filename(name.as_str(), now_secs, pid);
        return Ok(PkgSource::Remote { url: copy_str(source), cached_name: cached });
    }
    let mut m = copy_str("pkg source not found or unsupported URL: ");
    append_str(&mut m, source);
    Err(CliError { code: E_CONFIG_INVALID, message: m })
}

/// Where the newest candidate downloads from: its own address, else the
/// repository's package directory.
pub open spec fn info_download_url(c: RepoCandidate) -> Seq<char> {
    match c.download_url {
        Some(u) => u@,
        None => trim_end_char(c.url@, '/') + "/packages/"@ + c.filename@,
    }
}

/// The remote package info of a candidate, one labelled line each.
pub open spec fn sync_info_lines(c: RepoCandidate) -> Seq<Seq<char>> {
    seq![
        "Repository      : "@ + c.repo@,
        "Name            : "@ + c.pkgname@,
        "AppName         : "@ + c.appname@,
        "Version         : "@ + c.sort_key@,
        "Pkgver          : "@ + c.pkgver@,
        "Pkgrel          : "@ + c.pkgrel@,
        "Branch          : "@ + c.branch@,
        "Protocol        : "@ + c.protocol@,
        "Program URL     : "@ + c.pkg_url@,
        "LuCI URL        : "@ + c.luci_url@,
        "LuCI Desc       : "@ + c.luci_desc@,
        "PkgDesc         : "@ + c.pkgdesc@,
        "OS              : "@ + c.os@,
        "Platform        : "@ + c.platform@,
        "Arch            : "@ + c.arch@,
        "PkgMgr          : "@ + c.pkgmgr@,
        "Pica Required   : "@ + match c.min_pica { Some(m) => m@, None => Seq::empty() },
        "Download URL    : "@ + info_download_url(c),
        "Filename        : "@ + c.filename@,
        "Sha256          : "@ + c.sha256@,
        "Size            : "@ + match c.size { Some(n) => size_display(decimal(n as nat)), None => Seq::empty() },
    ]
}

/// Each labelled line of the remote package info shows the field its label
/// names: the `Platform` line the candidate's platform, the `Arch` line its
/// architecture, and so on.
pub proof fn law_sync_info_lines_show_their_fields(c: RepoCandidate)
    ensures
        sync_info_lines(c).len() == 21,
        sync_info_lines(c)[0] == "Repository      : "@ + c.repo@,
        sync_info_lines(c)[1] == "Name            : "@ + c.pkgname@,
        sync_info_lines(c)[2] == "AppName         : "@ + c.appname@,
        sync_info_lines(c)[3] == "Version         : "@ + c.sort_key@,
        sync_info_lines(c)[4] == "Pkgver          : "@ + c.pkgver@,
        sync_info_lines(c)[5] == "Pkgrel          : "@ + c.pkgrel@,
        sync_info_lines(c)[6] == "Branch          : "@ + c.branch@,
        sync_info_lines(c)[7] == "Protocol        : "@ + c.protocol@,
        sync_info_lines(c)[8] == "Program URL     : "@ + c.pkg_url@,
        sync_info_lines(c)[9] == "LuCI URL        : "@ + c.luci_url@,
        sync_info_lines(c)[10] == "LuCI Desc       : "@ + c.luci_desc@,
        sync_info_lines(c)[11] == "PkgDesc         : "@ + c.pkgdesc@,
        sync_info_lines(c)[12] == "OS              : "@ + c.os@,
        sync_info_lines(c)[13] == "Platform        : "@ + c.platform@,
        sync_info_lines(c)[14] == "Arch            : "@ + c.arch@,
        sync_info_lines(c)[15] == "PkgMgr          : "@ + c.pkgmgr@,
        sync_info_lines(c)[18] == "Filename        : "@ + c.filename@,
        sync_info_lines(c)[19] == "Sha256          : "@ + c.sha256@,
{
}

fn labeled(label: &str, value: &str) -> (r: String)
    ensures
        r@ == label@ + value@,
{
    let mut out = copy_str(label);
    append_str(&mut out, value);
    out
}

/// The remote package info of the newest candidate for a selector; no
/// candidate is a configuration error.
pub fn query_sync_info(cands: &Vec<RepoCandidate>, selector: &str) -> (r: Result<Vec<String>, CliError>)
    ensures
        cands@.len() == 0 ==> (r matches Err(e) && e.code == E_CONFIG_INVALID && e.message@
            == "package not found in pica repos: "@ + selector@),
        cands@.len() > 0 ==> (r matches Ok(lines) && string_views(lines@) == sync_info_lines(
            cands@[best_of(
                cands@.map_values(|c: RepoCandidate| c.sort_key@),
                cands@.len() as int,
            ).0],
        )),
{
    if cands.len() == 0 {
        let mut m = copy_str("package not found in pica repos: ");
        append_str(&mut m, selector);
        return Err(CliError { code: E_CONFIG_INVALID, message: m });
    }
    let ghost vers = cands@.map_values(|c: RepoCandidate| c.sort_key@);
    let mut best_index: usize = 0;
    let mut best_ver = String::new();
    let mut i: usize = 0;
    proof {
        reveal_strlit("");
        assert(best_ver@ =~= Seq::<char>::empty());
    }
    while i < cands.len()
        invariant
            i <= cands@.len(),
            vers == cands@.map_values(|c: RepoCandidate| c.sort_key@),
            best_of(vers, i as int) == (best_index as int, best_ver@),
            best_index < cands@.len(),
        decreases cands.len() - i,
    {
        if crate::pica_core::version::pkgver_ge(cands[i].sort_key.as_str(), best_ver.as_str()) {
            best_index = i;
            best_ver = copy_str(cands[i].sort_key.as_str());
        }
        i += 1;
    }
    let best = &cands[best_index];
    let url = match &best.download_url {
        Some(u) => copy_str(u.as_str()),
        None => {
            let mut d = trim_end_char_exec(best.url.as_str(), '/');
            append_str(&mut d, "/packages/");
            append_str(&mut d, best.filename.as_str());
            d
        },
    };
    let pica = match &best.min_pica {
        Some(m) => copy_str(m.as_str()),
        None => {
            let e = String::new();
            assert(e@ =~= Seq::<char>::empty());
            e
        },
    };
    let size = match best.size {
        Some(n) => crate::pica_cli::size::format_size_display(decimal_string(n).as_str()),
        None => {
            let e = String::new();
            assert(e@ =~= Seq::<char>::empty());
            e
        },
    };
    let mut lines: Vec<String> = Vec::new();
    lines.push(labeled("Repository      : ", best.repo.as_str()));
    lines.push(labeled("Name            : ", best.pkgname.as_str()));
    lines.push(labeled("AppName         : ", best.appname.as_str()));
    lines.push(labeled("Version         : ", best.sort_key.as_str()));
    lines.push(labeled("Pkgver          : ", best.pkgver.as_str()));
    lines.push(labeled("Pkgrel          : ", best.pkgrel.as_str()));
    lines.push(labeled("Branch          : ", best.branch.as_str()));
    lines.push(labeled("Protocol        : ", best.protocol.as_str()));
    lines.push(labeled("Program URL     : ", best.pkg_url.as_str()));
    lines.push(labeled("LuCI URL        : ", best.luci_url.as_str()));
    lines.push(labeled("LuCI Desc       : ", best.luci_desc.as_str()));
    lines.push(labeled("PkgDesc         : ", best.pkgdesc.as_str()));
    lines.push(labeled("OS              : ", best.os.as_str()));
    lines.push(labeled("Platform        : ", best.platform.as_str()));
    lines.push(labeled("Arch            : ", best.arch.as_str()));
    lines.push(labeled("PkgMgr          : ", best.pkgmgr.as_str()));
    lines.push(labeled("Pica Required   : ", pica.as_str()));
    lines.push(labeled("Download URL    : ", url.as_str()));
    lines.push(labeled("Filename        : ", best.filename.as_str()));
    lines.push(labeled("Sha256          : ", best.sha256.as_str()));
    lines.push(labeled("Size            : ", size.as_str()));
    assert(string_views(lines@) =~= sync_info_lines(*best));
    Ok(lines)
}

proof fn lemma_best_of(vers: Seq<Seq<char>>, n: int)
    requires
        0 <= n <= vers.len(),
        forall|i: int| 0 <= i < vers.len() ==> release_is_number(#[trigger] vers[i]),
    ensures
        n == 0 ==> best_of(vers, n).1 == Seq::<char>::empty(),
        n > 0 ==> 0 <= best_of(vers, n).0 < n && best_of(vers, n).1 == vers[best_of(vers, n).0],
        forall|j: int| 0 <= j < n ==> pkgver_ge_spec(best_of(vers, n).1, #[trigger] vers[j]),
    decreases n,
{
    if n > 0 {
        lemma_best_of(vers, n - 1);
        let (bi, bv) = best_of(vers, n - 1);
        let last = vers[n - 1];
        if n - 1 > 0 {
            assert(release_is_number(vers[bi]));
        }
        if pkgver_ge_spec(last, bv) {
            law_pkgver_ge_reflexive(last);
            assert forall|j: int| 0 <= j < n implies pkgver_ge_spec(best_of(vers, n).1, #[trigger] vers[j]) by {
                if j < n - 1 {
                    law_pkgver_ge_transitive(last, bv, vers[j]);
                }
            }
        } else {
            law_pkgver_ge_total(last, bv);
        }
    }
}

/// The candidate an install takes from the repositories is the newest: its
/// version is at least the version of every candidate, when the releases
/// of the candidate versions are numbers.
pub proof fn law_best_candidate_is_newest(vers: Seq<Seq<char>>)
    requires
        vers.len() > 0,
        forall|i: int| 0 <= i < vers.len() ==> release_is_number(#[trigger] vers[i]),
    ensures
        0 <= best_of(vers, vers.len() as int).0 < vers.len(),
        best_of(vers, vers.len() as int).1 == vers[best_of(vers, vers.len() as int).0],
        forall|j: int|
            0 <= j < vers.len() ==> pkgver_ge_spec(best_of(vers, vers.len() as int).1, #[trigger] vers[j]),
{
    lemma_best_of(vers, vers.len() as int);
}

} // verus!
