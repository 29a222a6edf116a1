//! Repository indexes (`repo.json`): their packages, the file name each
//! package must have, and the check of a whole index.
use vstd::prelude::*;
use crate::text::{
    chars_of, str_eq, copy_str, append_str, starts_with, ends_with, contains_seq, contains_char,
    starts_with_str, ends_with_str, contains_str, contains_char_exec,
};
use crate::json::JsonValue;
use crate::pica_pkg_core::version::version_key;

verus! {

/// A repository index.
#[derive(Debug)]
pub struct RepoJson {
    pub schema: i64,
    pub packages: Vec<RepoPackage>,
}

/// One package of a repository index.
#[derive(Debug)]
pub struct RepoPackage {
    pub pkgname: String,
    pub pkgver: String,
    pub pkgrel: String,
    pub platform: String,
    pub arch: String,
    pub filename: String,
    pub appname: Option<String>,
    pub author: Option<String>,
    pub version: Option<String>,
    pub branch: Option<String>,
    pub protocol: Option<String>,
    pub pica: Option<String>,
    pub download_url: Option<String>,
    pub manifest: Option<JsonValue>,
}

/// The name the package is selected by: its app name, else its package name.
pub open spec fn app_key_of(p: RepoPackage) -> Seq<char> {
    match p.appname {
        Some(a) => a@,
        None => p.pkgname@,
    }
}

impl RepoPackage {
    pub fn app_key(&self) -> (r: &str)
        ensures
            r@ == app_key_of(*self),
    {
        match &self.appname {
            Some(a) => a.as_str(),
            None => self.pkgname.as_str(),
        }
    }

    pub fn version_key(&self) -> (r: String)
        ensures
            r@ == version_key(self.pkgver@, self.pkgrel@),
    {
        crate::pica_core::version::pkgver_cmp_key(self.pkgver.as_str(), self.pkgrel.as_str())
    }
}

/// The file name of a package: `name-ver-rel-arch.pkg.tar.gz` on platform
/// `all`, else `name-ver-rel-platform-arch.pkg.tar.gz`.
pub open spec fn expected_name(
    pkgname: Seq<char>,
    pkgver: Seq<char>,
    pkgrel: Seq<char>,
    platform: Seq<char>,
    arch: Seq<char>,
) -> Seq<char> {
    if platform == "all"@ {
        pkgname + "-"@ + pkgver + "-"@ + pkgrel + "-"@ + arch + ".pkg.tar.gz"@
    } else {
        pkgname + "-"@ + pkgver + "-"@ + pkgrel + "-"@ + platform + "-"@ + arch + ".pkg.tar.gz"@
    }
}

pub fn expected_filename(pkgname: &str, pkgver: &str, pkgrel: &str, platform: &str, arch: &str) -> (r: String)
    ensures
        r@ == expected_name(pkgname@, pkgver@, pkgrel@, platform@, arch@),
{
    let mut out = copy_str(pkgname);
    append_str(&mut out, "-");
    append_str(&mut out, pkgver);
    append_str(&mut out, "-");
    append_str(&mut out, pkgrel);
    append_str(&mut out, "-");
    if !str_eq(platform, "all") {
        append_str(&mut out, platform);
        append_str(&mut out, "-");
    }
    append_str(&mut out, arch);
    append_str(&mut out, ".pkg.tar.gz");
    out
}

/// An `http://`, `https://` or `file://` address.
pub open spec fn supported_url(s: Seq<char>) -> bool {
    starts_with(s, "http://"@) || starts_with(s, "https://"@) || starts_with(s, "file://"@)
}

pub fn is_supported_url(value: &str) -> (r: bool)
    ensures
        r == supported_url(value@),
{
    let cs = chars_of(value);
    starts_with_str(&cs, "http://") || starts_with_str(&cs, "https://") || starts_with_str(
        &cs,
        "file://",
    )
}

/// The error of a package's file name, if it is wrong.
pub open spec fn filename_error(p: RepoPackage) -> Option<Seq<char>> {
    let f = p.filename@;
    let exp = expected_name(p.pkgname@, p.pkgver@, p.pkgrel@, p.platform@, p.arch@);
    if contains_char(f, '/') || contains_seq(f, ".."@) || !ends_with(f, ".pkg.tar.gz"@) {
        Some("package "@ + p.pkgname@ + ": invalid filename "@ + f)
    } else if exp != f {
        Some("package "@ + p.pkgname@ + ": filename mismatch, expected "@ + exp + ", got "@ + f)
    } else {
        None
    }
}

/// The error of one package entry, if any.
pub open spec fn package_error(p: RepoPackage) -> Option<Seq<char>> {
    if p.pkgname@.len() == 0 || p.pkgver@.len() == 0 || p.pkgrel@.len() == 0
        || p.platform@.len() == 0 || p.arch@.len() == 0 || p.filename@.len() == 0 {
        Some(
            "package entry missing required string fields: pkgname/pkgver/pkgrel/platform/arch/filename"@,
        )
    } else if filename_error(p) is Some {
        filename_error(p)
    } else {
        match p.download_url {
            Some(u) => if !supported_url(u@) {
                Some("package "@ + p.pkgname@ + ": invalid download_url "@ + u@)
            } else {
                None
            },
            None => None,
        }
    }
}

/// The error of the first faulty package.
pub open spec fn first_package_error(ps: Seq<RepoPackage>) -> Option<Seq<char>>
    decreases ps.len(),
{
    if ps.len() == 0 {
        None
    } else if package_error(ps[0]) is Some {
        package_error(ps[0])
    } else {
        first_package_error(ps.drop_first())
    }
}

/// The error of an index, if any.
pub open spec fn repo_error(r: RepoJson) -> Option<Seq<char>> {
    if r.schema != 1 {
        Some("schema must be 1"@)
    } else {
        first_package_error(r.packages@)
    }
}

fn validate_filename(pkg: &RepoPackage) -> (r: Result<(), String>)
    ensures
        match filename_error(*pkg) {
            Some(m) => r is Err && r->Err_0@ == m,
            None => r is Ok,
        },
{
    let f = chars_of(pkg.filename.as_str());
    if contains_char_exec(&f, '/') || contains_str(&f, "..") || !ends_with_str(&f, ".pkg.tar.gz") {
        let mut m = copy_str("package ");
        append_str(&mut m, pkg.pkgname.as_str());
        append_str(&mut m, ": invalid filename ");
        append_str(&mut m, pkg.filename.as_str());
        return Err(m);
    }
    let expected = expected_filename(
        pkg.pkgname.as_str(),
        pkg.pkgver.as_str(),
        pkg.pkgrel.as_str(),
        pkg.platform.as_str(),
        pkg.arch.as_str(),
    );
    if !str_eq(expected.as_str(), pkg.filename.as_str()) {
        let mut m = copy_str("package ");
        append_str(&mut m, pkg.pkgname.as_str());
        append_str(&mut m, ": filename mismatch, expected ");
        append_str(&mut m, expected.as_str());
        append_str(&mut m, ", got ");
        append_str(&mut m, pkg.filename.as_str());
        return Err(m);
    }
    Ok(())
}

fn validate_package(pkg: &RepoPackage) -> (r: Result<(), String>)
    ensures
        match package_error(*pkg) {
            Some(m) => r is Err && r->Err_0@ == m,
            None => r is Ok,
        },
{
    if pkg.pkgname.as_str().is_empty() || pkg.pkgver.as_str().is_empty()
        || pkg.pkgrel.as_str().is_empty() || pkg.platform.as_str().is_empty()
        || pkg.arch.as_str().is_empty() || pkg.filename.as_str().is_empty() {
        return Err(
            copy_str(
                "package entry missing required string fields: pkgname/pkgver/pkgrel/platform/arch/filename",
            ),
        );
    }
    validate_filename(pkg)?;
    match &pkg.download_url {
        Some(u) => {
            if !is_supported_url(u.as_str()) {
                let mut m = copy_str("package ");
                append_str(&mut m, pkg.pkgname.as_str());
                append_str(&mut m, ": invalid download_url ");
                append_str(&mut m, u.as_str());
                return Err(m);
            }
        },
        None => {},
    }
    Ok(())
}

/// Checks an index: schema 1, and every package complete, with the file
/// name it must have and a supported download address.
pub fn validate_repo(repo: &RepoJson) -> (r: Result<(), String>)
    ensures
        match repo_error(*repo) {
            Some(m) => r is Err && r->Err_0@ == m,
            None => r is Ok,
        },
{
    if repo.schema != 1 {
        return Err(copy_str("schema must be 1"));
    }
    let mut i: usize = 0;
    assert(repo.packages@.skip(0) =~= repo.packages@);
    while i < repo.packages.len()
        invariant
            i <= repo.packages@.len(),
            repo.schema == 1,
            repo_error(*repo) == first_package_error(repo.packages@.skip(i as int)),
        decreases repo.packages.len() - i,
    {
        assert(repo.packages@.skip(i as int)[0] == repo.packages@[i as int]);
        assert(repo.packages@.skip(i as int).drop_first() =~= repo.packages@.skip(i + 1));
        validate_package(&repo.packages[i])?;
        i += 1;
    }
    Ok(())
}

/// In an index that passes the check, every package's file name is the one
/// built from its name, version, release, platform and architecture, and
/// holds no `/` and no `..`.
pub proof fn law_valid_repo_filenames(repo: RepoJson, i: int)
    requires
        repo_error(repo) is None,
        0 <= i < repo.packages@.len(),
    ensures
        repo.packages@[i].filename@ == expected_name(
            repo.packages@[i].pkgname@,
            repo.packages@[i].pkgver@,
            repo.packages@[i].pkgrel@,
            repo.packages@[i].platform@,
            repo.packages@[i].arch@,
        ),
        !contains_char(repo.packages@[i].filename@, '/'),
        !contains_seq(repo.packages@[i].filename@, ".."@),
{
    lemma_first_error_none(repo.packages@, i);
}

proof fn lemma_first_error_none(ps: Seq<RepoPackage>, i: int)
    requires
        first_package_error(ps) is None,
        0 <= i < ps.len(),
    ensures
        package_error(ps[i]) is None,
    decreases ps.len(),
{
    if i > 0 {
        lemma_first_error_none(ps.drop_first(), i - 1);
        assert(ps.drop_first()[i - 1] == ps[i]);
    }
}

} // verus!
