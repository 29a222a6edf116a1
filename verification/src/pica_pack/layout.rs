//! Decisions of a build: the version and target read from the manifest,
//! the packages to make, and the name and contents of each.
use vstd::prelude::*;
use crate::text::{
    copy_str, append_str, chars_of, chars_eq, string_of, sub_chars, first_index_of_exec, split_once_spec,
    replace_all, replace_exec, string_views, last_index_of, last_index_of_exec, to_lower, to_lower_chars,
};
use crate::strset::{sorted_unique, strictly_sorted};
use crate::pica_pkg_core::manifest::{Manifest, first_text};
use crate::pica_core::repo::{expected_name, expected_filename};
use crate::pica_pkg_cli::types::{path_join, join_path};
use crate::pica_pack::backend::{BuildBackend, backend_name, parse_targets, targets_of, target_list};
use crate::text::split_seq;

verus! {

/// What a build takes from the manifest.
#[derive(Debug)]
pub struct BuildSettings {
    pub pkgname: String,
    pub pkgver: String,
    pub pkgrel: String,
    pub platform: String,
    pub arch: String,
    pub pica: String,
}

/// Version and release: a release given on its own stands; without one a
/// version `ver-rel` is split at its first `-`, and a version without `-`
/// gets release `1`.
pub open spec fn release_of(pkgver: Seq<char>, pkgrel: Seq<char>) -> (Seq<char>, Seq<char>) {
    if pkgrel.len() > 0 {
        (pkgver, pkgrel)
    } else {
        match split_once_spec(pkgver, '-') {
            Some(vr) => vr,
            None => (pkgver, "1"@),
        }
    }
}

/// An empty platform or arch means `all`.
pub open spec fn or_all(s: Seq<char>) -> Seq<char> {
    if s.len() == 0 {
        "all"@
    } else {
        s
    }
}

/// The settings a build takes from a manifest that names the package and
/// its version, for the given version and release fields.
pub open spec fn settings_match(r: BuildSettings, m: Manifest) -> bool {
    let rel = release_of(first_text(m.value, "pkgver"@), first_text(m.value, "pkgrel"@));
    &&& r.pkgname@ == first_text(m.value, "pkgname"@)
    &&& r.pkgver@ == rel.0
    &&& r.pkgrel@ == rel.1
    &&& r.platform@ == or_all(first_text(m.value, "platform"@))
    &&& r.arch@ == or_all(first_text(m.value, "arch"@))
    &&& r.pica@ == first_text(m.value, "pica"@)
}

/// The release a manifest gives, by `release_of`.
pub open spec fn manifest_release(m: Manifest) -> Seq<char> {
    release_of(first_text(m.value, "pkgver"@), first_text(m.value, "pkgrel"@)).1
}

fn or_all_text(s: String) -> (r: String)
    ensures
        r@ == or_all(s@),
{
    if s.as_str().is_empty() {
        copy_str("all")
    } else {
        s
    }
}

fn split_release(pkgver: String, pkgrel: String) -> (r: (String, String))
    ensures
        (r.0@, r.1@) == release_of(pkgver@, pkgrel@),
{
    if pkgrel.as_str().is_empty() {
        let cs = chars_of(pkgver.as_str());
        match first_index_of_exec(&cs, '-') {
            Some(i) => {
                let n = cs.len();
                assert(i < n);
                let v = sub_chars(&cs, 0, i);
                let r = sub_chars(&cs, i + 1, n);
                assert(v@ =~= cs@.take(i as int));
                assert(r@ =~= cs@.skip(i + 1));
                (string_of(&v), string_of(&r))
            },
            None => (pkgver, copy_str("1")),
        }
    } else {
        (pkgver, pkgrel)
    }
}

fn settings_from(manifest: &Manifest, pkgname: String, pkgver: String) -> (r: Result<BuildSettings, String>)
    requires
        pkgname@ == first_text(manifest.value, "pkgname"@),
        pkgver@ == first_text(manifest.value, "pkgver"@),
    ensures
        manifest_release(*manifest).len() == 0 ==> (r matches Err(m) && m@ == "manifest missing pkgrel"@),
        manifest_release(*manifest).len() > 0 ==> (r matches Ok(s) && settings_match(s, *manifest)),
{
    let pkgrel = manifest.get_first("pkgrel");
    let (ver, rel) = split_release(pkgver, pkgrel);
    if rel.as_str().is_empty() {
        return Err(copy_str("manifest missing pkgrel"));
    }
    let platform = or_all_text(manifest.get_first("platform"));
    let arch = or_all_text(manifest.get_first("arch"));
    let pica = manifest.get_first("pica");
    Ok(BuildSettings { pkgname, pkgver: ver, pkgrel: rel, platform, arch, pica })
}

/// The settings of a build from its manifest: `pkgname` and `pkgver` must
/// be there, the release follows `release_of`, platform and arch default
/// to `all`.
pub fn build_settings(manifest: &Manifest) -> (r: Result<BuildSettings, String>)
    ensures
        first_text(manifest.value, "pkgname"@).len() == 0 ==> (r matches Err(m) && m@
            == "manifest missing pkgname"@),
        first_text(manifest.value, "pkgname"@).len() > 0 && first_text(manifest.value, "pkgver"@).len()
            == 0 ==> (r matches Err(m) && m@ == "manifest missing pkgver"@),
        first_text(manifest.value, "pkgname"@).len() > 0 && first_text(manifest.value, "pkgver"@).len()
            > 0 && manifest_release(*manifest).len() == 0 ==> (r matches Err(m) && m@
            == "manifest missing pkgrel"@),
        first_text(manifest.value, "pkgname"@).len() > 0 && first_text(manifest.value, "pkgver"@).len()
            > 0 && manifest_release(*manifest).len() > 0 ==> (r matches Ok(s) && settings_match(
            s,
            *manifest,
        )),
{
    proof {
        reveal_strlit("manifest missing ");
        reveal_strlit("pkgname");
        reveal_strlit("pkgver");
        reveal_strlit("manifest missing pkgname");
        reveal_strlit("manifest missing pkgver");
    }
    let pkgname = match manifest.require_non_empty("pkgname") {
        Ok(v) => v,
        Err(m) => {
            assert(m@ =~= "manifest missing pkgname"@);
            return Err(m);
        },
    };
    let pkgver = match manifest.require_non_empty("pkgver") {
        Ok(v) => v,
        Err(m) => {
            assert(m@ =~= "manifest missing pkgver"@);
            return Err(m);
        },
    };
    settings_from(manifest, pkgname, pkgver)
}

/// The first of the fields a package build needs that the manifest lacks:
/// `pkgname`, `appname`, `pkgver`, `os`.
pub open spec fn missing_package_field(m: Manifest) -> Option<Seq<char>> {
    if first_text(m.value, "pkgname"@).len() == 0 {
        Some("pkgname"@)
    } else if first_text(m.value, "appname"@).len() == 0 {
        Some("appname"@)
    } else if first_text(m.value, "pkgver"@).len() == 0 {
        Some("pkgver"@)
    } else if first_text(m.value, "os"@).len() == 0 {
        Some("os"@)
    } else {
        None
    }
}

/// The backends a package build is for, from the command line or the
/// manifest's `pkgmgr`.
pub open spec fn package_targets(m: Manifest, pkgmgr: Option<Seq<char>>) -> Result<Seq<BuildBackend>, Seq<char>> {
    match targets_of(split_seq(target_list(pkgmgr, first_text(m.value, "pkgmgr"@)), ',')) {
        Ok(t) => if t.len() == 0 {
            Err("at least one package manager target is required"@)
        } else {
            Ok(t)
        },
        Err(e) => Err(e),
    }
}

/// The settings and backends of a package build: the fields of
/// `missing_package_field` must be there, then the targets must parse, then
/// the release must be known.
pub fn package_build_settings(manifest: &Manifest, pkgmgr: Option<&str>) -> (r: Result<
    (BuildSettings, Vec<BuildBackend>),
    String,
>)
    ensures
        ({
            let cli = match pkgmgr {
                Some(v) => Some(v@),
                None => None,
            };
            match missing_package_field(*manifest) {
                Some(k) => r matches Err(m) && m@ == "manifest missing "@ + k,
                None => match package_targets(*manifest, cli) {
                    Err(e) => r matches Err(m) && m@ == e,
                    Ok(t) => if manifest_release(*manifest).len() == 0 {
                        r matches Err(m) && m@ == "manifest missing pkgrel"@
                    } else {
                        r matches Ok(p) && settings_match(p.0, *manifest) && p.1@ == t
                    },
                },
            }
        }),
{
    let pkgname = match manifest.require_non_empty("pkgname") {
        Ok(v) => v,
        Err(m) => {
            return Err(m);
        },
    };
    let appname = manifest.require_non_empty("appname");
    if let Err(m) = appname {
        return Err(m);
    }
    let pkgver = match manifest.require_non_empty("pkgver") {
        Ok(v) => v,
        Err(m) => {
            return Err(m);
        },
    };
    let os = manifest.require_non_empty("os");
    if let Err(m) = os {
        return Err(m);
    }
    let pkgmgr_field = manifest.get_first("pkgmgr");
    let targets = match parse_targets(pkgmgr, pkgmgr_field.as_str()) {
        Ok(t) => t,
        Err(m) => {
            return Err(m);
        },
    };
    match settings_from(manifest, pkgname, pkgver) {
        Ok(s) => Ok((s, targets)),
        Err(m) => Err(m),
    }
}

/// The line that reports which Pica a package needs.
pub fn pica_requirement(pica: &str) -> (r: String)
    ensures
        pica@.len() == 0 ==> r@ == "Pica requires: (not specified)"@,
        pica@.len() > 0 ==> r@ == "Pica requires >= "@ + pica@,
{
    if pica.is_empty() {
        copy_str("Pica requires: (not specified)")
    } else {
        let mut m = copy_str("Pica requires >= ");
        append_str(&mut m, pica);
        m
    }
}

/// The file name of a package for a backend: the usual name, with
/// `-apk.pkg.tar.gz` in place of each `.pkg.tar.gz` for apk.
pub open spec fn package_name_for(
    pkgname: Seq<char>,
    pkgver: Seq<char>,
    pkgrel: Seq<char>,
    platform: Seq<char>,
    arch: Seq<char>,
    backend: BuildBackend,
) -> Seq<char> {
    let base = expected_name(pkgname, pkgver, pkgrel, platform, arch);
    if backend == BuildBackend::Apk {
        replace_all(base, ".pkg.tar.gz"@, "-apk.pkg.tar.gz"@)
    } else {
        base
    }
}

/// The file name of a package built for `backend`.
pub fn package_file_name(
    pkgname: &str,
    pkgver: &str,
    pkgrel: &str,
    platform: &str,
    arch: &str,
    backend: BuildBackend,
) -> (r: String)
    ensures
        r@ == package_name_for(pkgname@, pkgver@, pkgrel@, platform@, arch@, backend),
{
    let base = expected_filename(pkgname, pkgver, pkgrel, platform, arch);
    if backend == BuildBackend::Apk {
        proof {
            reveal_strlit(".pkg.tar.gz");
        }
        replace_exec(base.as_str(), ".pkg.tar.gz", "-apk.pkg.tar.gz")
    } else {
        base
    }
}

/// The directory a backend's packages go to: the output directory for
/// opkg, a directory named after the backend inside it otherwise.
pub fn backend_output_dir(output_dir: &str, backend: BuildBackend) -> (r: String)
    ensures
        backend == BuildBackend::Opkg ==> r@ == output_dir@,
        backend != BuildBackend::Opkg ==> r@ == path_join(output_dir@, backend_name(backend)),
{
    if backend == BuildBackend::Opkg {
        copy_str(output_dir)
    } else {
        join_path(output_dir, backend.as_str())
    }
}

/// What goes into a package archive: the manifest and `cmd`, then each of
/// `binary`, `depend`, `src` and `LICENSE` that the package has.
pub open spec fn archive_items(has_binary: bool, has_depend: bool, has_src: bool, has_license: bool) -> Seq<Seq<char>> {
    let a = seq!["manifest"@, "cmd"@];
    let b = if has_binary { a.push("binary"@) } else { a };
    let c = if has_depend { b.push("depend"@) } else { b };
    let d = if has_src { c.push("src"@) } else { c };
    if has_license { d.push("LICENSE"@) } else { d }
}

/// The entries of a package archive.
pub fn tar_items(has_binary: bool, has_depend: bool, has_src: bool, has_license: bool) -> (r: Vec<String>)
    ensures
        string_views(r@) == archive_items(has_binary, has_depend, has_src, has_license),
{
    let mut items: Vec<String> = Vec::new();
    items.push(copy_str("manifest"));
    items.push(copy_str("cmd"));
    if has_binary {
        items.push(copy_str("binary"));
    }
    if has_depend {
        items.push(copy_str("depend"));
    }
    if has_src {
        items.push(copy_str("src"));
    }
    if has_license {
        items.push(copy_str("LICENSE"));
    }
    assert(string_views(items@) =~= archive_items(has_binary, has_depend, has_src, has_license));
    items
}

/// The error of a matrix build whose platform and arch have no binaries.
pub fn missing_binary_message(platform: &str, arch: &str) -> (r: String)
    ensures
        r@ == "missing binary/"@ + platform@ + "/"@ + arch@,
{
    let mut m = copy_str("missing binary/");
    append_str(&mut m, platform);
    append_str(&mut m, "/");
    append_str(&mut m, arch);
    m
}

/// The names of the directories found under several roots, in ascending
/// order, each once.
pub fn collect_names(lists: &Vec<Vec<String>>) -> (r: Vec<String>)
    ensures
        strictly_sorted(string_views(r@)),
        forall|x: Seq<char>|
            string_views(r@).contains(x) <==> exists|i: int|
                0 <= i < lists@.len() && #[trigger] string_views(lists@[i]@).contains(x),
{
    let mut all: Vec<String> = Vec::new();
    let mut i: usize = 0;
    while i < lists.len()
        invariant
            i <= lists@.len(),
            forall|x: Seq<char>|
                string_views(all@).contains(x) <==> exists|k: int|
                    0 <= k < i && #[trigger] string_views(lists@[k]@).contains(x),
        decreases lists.len() - i,
    {
        let list = &lists[i];
        let ghost prev = string_views(all@);
        let mut j: usize = 0;
        while j < list.len()
            invariant
                j <= list@.len(),
                list@ == lists@[i as int]@,
                prev.len() <= string_views(all@).len(),
                string_views(all@) =~= prev + string_views(list@).take(j as int),
            decreases list.len() - j,
        {
            let ghost cur = string_views(all@);
            all.push(copy_str(list[j].as_str()));
            assert(string_views(all@) =~= cur.push(list@[j as int]@));
            assert(string_views(list@).take(j + 1) =~= string_views(list@).take(j as int).push(
                list@[j as int]@,
            ));
            j += 1;
        }
        assert(string_views(list@).take(list@.len() as int) =~= string_views(list@));
        assert forall|x: Seq<char>| string_views(all@).contains(x) <==> exists|k: int|
            0 <= k < i + 1 && #[trigger] string_views(lists@[k]@).contains(x) by {
            if string_views(all@).contains(x) {
                let q = choose|q: int| 0 <= q < string_views(all@).len() && string_views(all@)[q] == x;
                if q < prev.len() {
                    assert(prev[q] == x);
                    assert(prev.contains(x));
                } else {
                    assert(string_views(list@)[q - prev.len()] == x);
                    assert(string_views(lists@[i as int]@).contains(x));
                }
            }
            if exists|k: int| 0 <= k < i + 1 && #[trigger] string_views(lists@[k]@).contains(x) {
                let k = choose|k: int| 0 <= k < i + 1 && #[trigger] string_views(lists@[k]@).contains(x);
                if k < i {
                    assert(prev.contains(x));
                    let q = choose|q: int| 0 <= q < prev.len() && prev[q] == x;
                    assert(string_views(all@)[q] == x);
                } else {
                    let q = choose|q: int| 0 <= q < string_views(list@).len() && string_views(list@)[q] == x;
                    assert(string_views(all@)[prev.len() + q] == x);
                }
            }
        }
        i += 1;
    }
    sorted_unique(&all)
}

/// One package to make: its backend, platform and arch.
#[derive(Debug)]
pub struct BuildJob {
    pub backend: BuildBackend,
    pub platform: String,
    pub arch: String,
}

/// A job as plain values.
pub open spec fn job_view(j: BuildJob) -> (BuildBackend, Seq<char>, Seq<char>) {
    (j.backend, j.platform@, j.arch@)
}

/// The jobs of one backend over a platform/arch matrix: every arch of
/// every platform, in order.
pub open spec fn matrix_jobs(b: BuildBackend, matrix: Seq<(Seq<char>, Seq<Seq<char>>)>) -> Seq<
    (BuildBackend, Seq<char>, Seq<char>),
>
    decreases matrix.len(),
{
    if matrix.len() == 0 {
        Seq::empty()
    } else {
        matrix_jobs(b, matrix.drop_last()) + matrix.last().1.map_values(
            |a: Seq<char>| (b, matrix.last().0, a),
        )
    }
}

/// The jobs of a build, backend by backend: with a matrix, every
/// platform/arch pair of it; without, the manifest's platform and arch.
pub open spec fn all_jobs(
    backends: Seq<BuildBackend>,
    has_matrix: bool,
    matrix: Seq<(Seq<char>, Seq<Seq<char>>)>,
    platform: Seq<char>,
    arch: Seq<char>,
) -> Seq<(BuildBackend, Seq<char>, Seq<char>)>
    decreases backends.len(),
{
    if backends.len() == 0 {
        Seq::empty()
    } else {
        all_jobs(backends.drop_last(), has_matrix, matrix, platform, arch) + if has_matrix {
            matrix_jobs(backends.last(), matrix)
        } else {
            seq![(backends.last(), platform, arch)]
        }
    }
}

/// A platform and its archs as plain values.
pub open spec fn matrix_view(m: Seq<(String, Vec<String>)>) -> Seq<(Seq<char>, Seq<Seq<char>>)> {
    m.map_values(|e: (String, Vec<String>)| (e.0@, string_views(e.1@)))
}

/// The packages a build makes, in the order it makes them.
pub fn build_jobs(
    backends: &Vec<BuildBackend>,
    has_matrix: bool,
    matrix: &Vec<(String, Vec<String>)>,
    platform: &str,
    arch: &str,
) -> (r: Vec<BuildJob>)
    ensures
        r@.map_values(|j: BuildJob| job_view(j)) == all_jobs(
            backends@,
            has_matrix,
            matrix_view(matrix@),
            platform@,
            arch@,
        ),
{
    let ghost mv = matrix_view(matrix@);
    let mut jobs: Vec<BuildJob> = Vec::new();
    let mut i: usize = 0;
    while i < backends.len()
        invariant
            i <= backends@.len(),
            mv == matrix_view(matrix@),
            jobs@.map_values(|j: BuildJob| job_view(j)) == all_jobs(
                backends@.take(i as int),
                has_matrix,
                mv,
                platform@,
                arch@,
            ),
        decreases backends.len() - i,
    {
        let b = backends[i];
        assert(backends@.take(i + 1).drop_last() =~= backends@.take(i as int));
        assert(backends@.take(i + 1).last() == b);
        let ghost before = jobs@.map_values(|j: BuildJob| job_view(j));
        if has_matrix {
            let mut p: usize = 0;
            while p < matrix.len()
                invariant
                    p <= matrix@.len(),
                    mv == matrix_view(matrix@),
                    jobs@.map_values(|j: BuildJob| job_view(j)) == before + matrix_jobs(b, mv.take(p as int)),
                decreases matrix.len() - p,
            {
                let entry = &matrix[p];
                assert(mv.take(p + 1).drop_last() =~= mv.take(p as int));
                assert(mv.take(p + 1).last() == (entry.0@, string_views(entry.1@)));
                let ghost mid = jobs@.map_values(|j: BuildJob| job_view(j));
                let mut a: usize = 0;
                while a < entry.1.len()
                    invariant
                        a <= entry.1@.len(),
                        jobs@.map_values(|j: BuildJob| job_view(j)) == mid + string_views(entry.1@).take(
                            a as int,
                        ).map_values(|x: Seq<char>| (b, entry.0@, x)),
                    decreases entry.1.len() - a,
                {
                    let ghost cur = jobs@.map_values(|j: BuildJob| job_view(j));
                    jobs.push(
                        BuildJob {
                            backend: b,
                            platform: copy_str(entry.0.as_str()),
                            arch: copy_str(entry.1[a].as_str()),
                        },
                    );
                    assert(jobs@.map_values(|j: BuildJob| job_view(j)) =~= cur.push(
                        (b, entry.0@, entry.1@[a as int]@),
                    ));
                    assert(string_views(entry.1@).take(a + 1).map_values(|x: Seq<char>| (b, entry.0@, x))
                        =~= string_views(entry.1@).take(a as int).map_values(
                        |x: Seq<char>| (b, entry.0@, x),
                    ).push((b, entry.0@, entry.1@[a as int]@)));
                    a += 1;
                }
                assert(string_views(entry.1@).take(entry.1@.len() as int) =~= string_views(entry.1@));
                assert(jobs@.map_values(|j: BuildJob| job_view(j)) =~= before + matrix_jobs(b, mv.take(p + 1)));
                p += 1;
            }
            assert(mv.take(matrix@.len() as int) =~= mv);
        } else {
            jobs.push(BuildJob { backend: b, platform: copy_str(platform), arch: copy_str(arch) });
            assert(jobs@.map_values(|j: BuildJob| job_view(j)) =~= before + seq![(b, platform@, arch@)]);
        }
        i += 1;
    }
    assert(backends@.take(backends@.len() as int) =~= backends@);
    jobs
}


/// `Path::extension` of a file name: what follows its last `.`, unless the
/// name has none, starts with its only `.`, or is `..`.
pub open spec fn file_extension(name: Seq<char>) -> Option<Seq<char>> {
    if name == ".."@ {
        None
    } else {
        match last_index_of(name, '.') {
            None => None,
            Some(i) => if i == 0 {
                None
            } else {
                Some(name.skip(i + 1))
            },
        }
    }
}

/// The file name has the extension `ext` (given with its dot), ASCII case
/// aside.
pub open spec fn has_extension(name: Seq<char>, ext: Seq<char>) -> bool {
    match file_extension(name) {
        Some(e) => to_lower(seq!['.'] + e) == to_lower(ext),
        None => false,
    }
}

/// What a backend's package does with a file of the staging directory.
#[derive(Debug, Clone, Copy, PartialEq, Eq, Structural)]
pub enum CopyRule {
    /// A native package of another backend: left out.
    Skip,
    /// A file that is no native package: copied.
    Copy,
    /// A native package of this backend: copied and counted.
    CopyCounted,
}

/// The rule for a file: every file for a backend without packages;
/// otherwise native packages (`.ipk`, `.apk`) only for their own backend.
pub open spec fn copy_rule_of(name: Seq<char>, backend: BuildBackend) -> CopyRule {
    match backend {
        BuildBackend::Plain => CopyRule::Copy,
        BuildBackend::Opkg => if !(has_extension(name, ".ipk"@) || has_extension(name, ".apk"@)) {
            CopyRule::Copy
        } else if has_extension(name, ".ipk"@) {
            CopyRule::CopyCounted
        } else {
            CopyRule::Skip
        },
        BuildBackend::Apk => if !(has_extension(name, ".ipk"@) || has_extension(name, ".apk"@)) {
            CopyRule::Copy
        } else if has_extension(name, ".apk"@) {
            CopyRule::CopyCounted
        } else {
            CopyRule::Skip
        },
    }
}

fn has_extension_exec(name: &[char], ext: &str) -> (r: bool)
    ensures
        r == has_extension(name@, ext@),
{
    proof {
        reveal_strlit("..");
    }
    let dots = chars_of("..");
    if chars_eq(name, &dots) {
        return false;
    }
    match last_index_of_exec(name, '.') {
        None => false,
        Some(i) => {
            if i == 0 {
                return false;
            }
            let tail = sub_chars(name, i, name.len());
            assert(tail@ =~= seq!['.'] + name@.skip(i + 1));
            let a = to_lower_chars(&tail);
            let ec = chars_of(ext);
            let b = to_lower_chars(&ec);
            chars_eq(&a, &b)
        },
    }
}

/// What a backend's package does with the file `name`.
pub fn file_copy_rule(name: &str, backend: BuildBackend) -> (r: CopyRule)
    ensures
        r == copy_rule_of(name@, backend),
{
    let cs = chars_of(name);
    match backend {
        BuildBackend::Plain => CopyRule::Copy,
        _ => {
            let ipk = has_extension_exec(&cs, ".ipk");
            let apk = has_extension_exec(&cs, ".apk");
            if !(ipk || apk) {
                CopyRule::Copy
            } else {
                let own = match backend {
                    BuildBackend::Opkg => ipk,
                    _ => apk,
                };
                if own {
                    CopyRule::CopyCounted
                } else {
                    CopyRule::Skip
                }
            }
        },
    }
}

/// A backend with packages that found none of its own in a directory
/// that is not empty fails with this message.
pub fn missing_backend_files(copied: usize, source_nonempty: bool, backend: BuildBackend, source: &str) -> (r:
    Option<String>)
    ensures
        (backend != BuildBackend::Plain && copied == 0 && source_nonempty) ==> (r matches Some(m) && m@
            == "no "@ + (if backend == BuildBackend::Opkg {
            ".ipk"@
        } else {
            ".apk"@
        }) + " files found for "@ + backend_name(backend) + " backend in "@ + source@),
        !(backend != BuildBackend::Plain && copied == 0 && source_nonempty) ==> r is None,
{
    match backend {
        BuildBackend::Plain => None,
        _ => {
            if copied == 0 && source_nonempty {
                let mut m = copy_str("no ");
                append_str(&mut m, if backend == BuildBackend::Opkg { ".ipk" } else { ".apk" });
                append_str(&mut m, " files found for ");
                append_str(&mut m, backend.as_str());
                append_str(&mut m, " backend in ");
                append_str(&mut m, source);
                Some(m)
            } else {
                None
            }
        },
    }
}

} // verus!
