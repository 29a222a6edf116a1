//! The opkg backend: what the tool reads from opkg's output and lock files.
use vstd::prelude::*;
use super::{PackageManager, PackageManagerKind};
use crate::text::{
    to_lower, trim, contains_seq, starts_with, lower_contains, chars_of, to_lower_chars,
    contains_str, starts_with_str, trim_chars, trimmed_lines, trimmed_lines_exec, split_class,
    split_class_exec, CharClass, parse_u32_spec, parse_u64_chars, sub_chars, string_of, copy_str,
    append_str, views, string_views, split_once_seq, find_seq_exec, find_seq_from, ws_fields,
    ws_fields_exec, chars_eq_str, split_seq, split_chars,
};
use crate::strset::{sorted_unique, strictly_sorted};
use crate::pica_pkg_cli::types::{CliError, E_NO_SPACE, E_OPKG_INSTALL, E_OPKG_REMOVE};

verus! {

/// The opkg backend.
pub struct OpkgBackend;

impl PackageManager for OpkgBackend {
    fn kind(&self) -> (r: PackageManagerKind)
        ensures
            r == PackageManagerKind::Opkg,
    {
        PackageManagerKind::Opkg
    }
}

/// The text reports that opkg's lock is held: it names `opkg.lock`, or it
/// mentions a lock together with a failure to take it.
pub open spec fn lock_error_text(detail: Seq<char>) -> bool {
    let t = to_lower(detail);
    contains_seq(t, "opkg.lock"@) || ((contains_seq(t, " lock"@) || starts_with(t, "lock"@)
        || contains_seq(t, "locked"@)) && (contains_seq(t, "resource temporarily unavailable"@)
        || contains_seq(t, "could not lock"@) || contains_seq(t, "failed to lock"@)
        || contains_seq(t, "cannot lock"@)))
}

pub fn is_opkg_lock_error(detail: &str) -> (r: bool)
    ensures
        r == lock_error_text(detail@),
{
    let dc = chars_of(detail);
    let t = to_lower_chars(&dc);
    if contains_str(&t, "opkg.lock") {
        return true;
    }
    let mentions_lock = contains_str(&t, " lock") || starts_with_str(&t, "lock") || contains_str(
        &t,
        "locked",
    );
    let lock_failure = contains_str(&t, "resource temporarily unavailable") || contains_str(
        &t,
        "could not lock",
    ) || contains_str(&t, "failed to lock") || contains_str(&t, "cannot lock");
    mentions_lock && lock_failure
}

/// The first run of digits that reads as a `u32` above zero.
pub open spec fn first_pid(tokens: Seq<Seq<char>>) -> Option<u32>
    decreases tokens.len(),
{
    if tokens.len() == 0 {
        None
    } else {
        match parse_u32_spec(tokens[0]) {
            Some(v) if tokens[0].len() > 0 && v > 0 => Some(v),
            _ => first_pid(tokens.drop_first()),
        }
    }
}

/// The process id in the text of an opkg lock file: the first run of
/// digits that reads as a `u32` above zero.
pub fn read_opkg_lock_pid(text: &str) -> (r: Option<u32>)
    ensures
        r == first_pid(split_class(text@, CharClass::NonDigit)),
{
    let cs = chars_of(text);
    let tokens = split_class_exec(&cs, CharClass::NonDigit);
    let ghost ts = views(tokens@);
    let mut i: usize = 0;
    assert(ts.skip(0) =~= ts);
    while i < tokens.len()
        invariant
            ts == views(tokens@),
            ts == split_class(text@, CharClass::NonDigit),
            i <= tokens@.len(),
            first_pid(ts) == first_pid(ts.skip(i as int)),
        decreases tokens.len() - i,
    {
        assert(ts.skip(i as int)[0] == tokens@[i as int]@);
        assert(ts.skip(i as int).drop_first() =~= ts.skip(i + 1));
        if tokens[i].len() > 0 {
            match parse_u64_chars(&tokens[i]) {
                Some(v) => {
                    if v > 0 && v <= 4294967295u64 {
                        return Some(v as u32);
                    }
                },
                None => {},
            }
        }
        i += 1;
    }
    None
}

/// `opkg info` knows the package: its output is not blank and does not say
/// the package is unknown.
pub open spec fn package_known(stdout: Seq<char>, stderr: Seq<char>) -> bool {
    let text = stdout + stderr;
    trim(text).len() > 0 && !contains_seq(to_lower(text), "unknown package"@)
}

pub fn package_exists_from_output(stdout: &str, stderr: &str) -> (r: bool)
    ensures
        r == package_known(stdout@, stderr@),
{
    let mut text = copy_str(stdout);
    append_str(&mut text, stderr);
    let tc = chars_of(text.as_str());
    let t = trim_chars(&tc);
    t.len() > 0 && !lower_contains(&tc, "unknown package")
}

/// `opkg status` reports the package installed.
pub open spec fn status_installed(stdout: Seq<char>) -> bool {
    let t = to_lower(stdout);
    contains_seq(t, "status:"@) && contains_seq(t, "installed"@)
}

pub fn is_installed_from_status(stdout: &str) -> (r: bool)
    ensures
        r == status_installed(stdout@),
{
    let cs = chars_of(stdout);
    let t = to_lower_chars(&cs);
    contains_str(&t, "status:") && contains_str(&t, "installed")
}

/// The version on the first `Version: ` line.
pub open spec fn first_status_version(lines: Seq<Seq<char>>) -> Option<Seq<char>>
    decreases lines.len(),
{
    if lines.len() == 0 {
        None
    } else if starts_with(lines[0], "Version: "@) {
        Some(trim(lines[0].skip(9)))
    } else {
        first_status_version(lines.drop_first())
    }
}

/// The installed version in the output of `opkg status`.
pub fn installed_version_from_status(stdout: &str) -> (r: Option<String>)
    ensures
        match r {
            Some(v) => first_status_version(trimmed_lines(stdout@)) == Some(v@),
            None => first_status_version(trimmed_lines(stdout@)) == None::<Seq<char>>,
        },
{
    let lines = trimmed_lines_exec(stdout);
    let ghost ls = views(lines@);
    let mut i: usize = 0;
    assert(ls.skip(0) =~= ls);
    proof {
        reveal_strlit("Version: ");
    }
    while i < lines.len()
        invariant
            ls == views(lines@),
            ls == trimmed_lines(stdout@),
            i <= lines@.len(),
            "Version: "@.len() == 9,
            first_status_version(ls) == first_status_version(ls.skip(i as int)),
        decreases lines.len() - i,
    {
        assert(ls.skip(i as int)[0] == lines@[i as int]@);
        assert(ls.skip(i as int).drop_first() =~= ls.skip(i + 1));
        if starts_with_str(&lines[i], "Version: ") {
            let rest = sub_chars(&lines[i], 9, lines[i].len());
            assert(rest@ =~= lines@[i as int]@.skip(9));
            let t = trim_chars(&rest);
            return Some(string_of(&t));
        }
        i += 1;
    }
    None
}

/// The error of a failed `opkg install`: storage-full when the detail says so.
pub fn install_failure(label: &str, target: &str, detail: &str) -> (r: CliError)
    ensures
        contains_seq(to_lower(detail@), "no space left on device"@) ==> r.code == E_NO_SPACE
            && r.message@ == label@ + " install failed: "@ + target@
            + " (storage-full). detail=["@ + detail@ + "]"@,
        !contains_seq(to_lower(detail@), "no space left on device"@) ==> r.code == E_OPKG_INSTALL
            && r.message@ == label@ + " install failed: "@ + target@ + " detail=["@ + detail@
            + "]"@,
{
    let dc = chars_of(detail);
    let mut m = copy_str(label);
    append_str(&mut m, " install failed: ");
    append_str(&mut m, target);
    if lower_contains(&dc, "no space left on device") {
        append_str(&mut m, " (storage-full). detail=[");
        append_str(&mut m, detail);
        append_str(&mut m, "]");
        CliError { code: E_NO_SPACE, message: m }
    } else {
        append_str(&mut m, " detail=[");
        append_str(&mut m, detail);
        append_str(&mut m, "]");
        CliError { code: E_OPKG_INSTALL, message: m }
    }
}

/// The error of a failed `opkg remove`.
pub fn remove_failure(target: &str, detail: &str) -> (r: CliError)
    ensures
        r.code == E_OPKG_REMOVE,
        r.message@ == "opkg remove failed: "@ + target@ + " detail=["@ + detail@ + "]"@,
{
    let mut m = copy_str("opkg remove failed: ");
    append_str(&mut m, target);
    append_str(&mut m, " detail=[");
    append_str(&mut m, detail);
    append_str(&mut m, "]");
    CliError { code: E_OPKG_REMOVE, message: m }
}

/// The package name of a line of `opkg list-installed`: the trimmed text
/// before the first ` - `, when that is not empty.
pub open spec fn listed_name(line: Seq<char>) -> Option<Seq<char>> {
    match split_once_seq(line, " - "@) {
        Some((name, _)) => if trim(name).len() > 0 {
            Some(trim(name))
        } else {
            None
        },
        None => None,
    }
}

fn listed_name_exec(line: &[char]) -> (r: Option<Vec<char>>)
    ensures
        match r {
            Some(v) => listed_name(line@) == Some(v@),
            None => listed_name(line@) == None::<Seq<char>>,
        },
{
    let pat = chars_of(" - ");
    match find_seq_exec(line, &pat) {
        Some(i) => {
            let name = sub_chars(line, 0, i);
            assert(name@ =~= line@.take(i as int));
            let t = trim_chars(&name);
            if t.len() > 0 {
                Some(t)
            } else {
                None
            }
        },
        None => None,
    }
}

/// Some line of the text lists `x`.
pub open spec fn listed_in(text: Seq<char>, x: Seq<char>) -> bool {
    exists|k: int|
        0 <= k < split_seq(text, '\n').len() && #[trigger] listed_name(split_seq(text, '\n')[k])
            == Some(x)
}

/// The installed packages in the output of `opkg list-installed`, sorted,
/// each once.
pub fn snapshot_from_listing(text: &str) -> (r: Vec<String>)
    ensures
        strictly_sorted(string_views(r@)),
        forall|x: Seq<char>| string_views(r@).contains(x) <==> listed_in(text@, x),
{
    let cs = chars_of(text);
    let lines = split_chars(&cs, '\n');
    let ghost ls = views(lines@);
    let mut names: Vec<String> = Vec::new();
    let mut i: usize = 0;
    while i < lines.len()
        invariant
            ls == views(lines@),
            ls == split_seq(text@, '\n'),
            i <= lines@.len(),
            forall|x: Seq<char>|
                string_views(names@).contains(x) <==> exists|k: int|
                    0 <= k < i && #[trigger] listed_name(ls[k]) == Some(x),
        decreases lines.len() - i,
    {
        assert(ls[i as int] == lines@[i as int]@);
        match listed_name_exec(&lines[i]) {
            Some(v) => {
                let ghost before = string_views(names@);
                names.push(string_of(&v));
                assert(string_views(names@) =~= before.push(v@));
                assert forall|x: Seq<char>|
                    string_views(names@).contains(x) <==> exists|k: int|
                        0 <= k < i + 1 && #[trigger] listed_name(ls[k]) == Some(x) by {
                    if string_views(names@).contains(x) {
                        let j = choose|j: int|
                            0 <= j < string_views(names@).len() && string_views(names@)[j] == x;
                        if j < before.len() {
                            assert(before.contains(x));
                        } else {
                            assert(listed_name(ls[i as int]) == Some(x));
                        }
                    }
                    if exists|k: int| 0 <= k < i + 1 && #[trigger] listed_name(ls[k]) == Some(x) {
                        let k = choose|k: int| 0 <= k < i + 1 && #[trigger] listed_name(ls[k]) == Some(x);
                        if k < i {
                            assert(before.contains(x));
                            let j = choose|j: int| 0 <= j < before.len() && before[j] == x;
                            assert(string_views(names@)[j] == x);
                        } else {
                            assert(string_views(names@)[before.len() as int] == x);
                        }
                    }
                }
            },
            None => {
                assert forall|x: Seq<char>|
                    string_views(names@).contains(x) <==> exists|k: int|
                        0 <= k < i + 1 && #[trigger] listed_name(ls[k]) == Some(x) by {
                    if exists|k: int| 0 <= k < i + 1 && #[trigger] listed_name(ls[k]) == Some(x) {
                        let k = choose|k: int| 0 <= k < i + 1 && #[trigger] listed_name(ls[k]) == Some(x);
                        assert(k < i);
                    }
                }
            },
        }
        i += 1;
    }
    sorted_unique(&names)
}

/// The architecture of a line `arch <name> <priority>`.
pub open spec fn arch_of_line(line: Seq<char>) -> Option<Seq<char>> {
    let f = ws_fields(line);
    if f.len() >= 2 && f[0] == "arch"@ {
        Some(f[1])
    } else {
        None
    }
}

/// The architectures of the lines, in order.
pub open spec fn arches_of(lines: Seq<Seq<char>>) -> Seq<Seq<char>>
    decreases lines.len(),
{
    if lines.len() == 0 {
        Seq::empty()
    } else {
        let rest = arches_of(lines.drop_last());
        match arch_of_line(lines.last()) {
            Some(a) => rest.push(a),
            None => rest,
        }
    }
}

/// The architectures in the output of `opkg print-architecture`, in order.
pub fn architectures_from(text: &str) -> (r: Vec<String>)
    ensures
        string_views(r@) == arches_of(split_seq(text@, '\n')),
{
    let cs = chars_of(text);
    let lines = split_chars(&cs, '\n');
    let ghost ls = views(lines@);
    let mut out: Vec<String> = Vec::new();
    let mut i: usize = 0;
    while i < lines.len()
        invariant
            ls == views(lines@),
            ls == split_seq(text@, '\n'),
            i <= lines@.len(),
            string_views(out@) == arches_of(ls.take(i as int)),
        decreases lines.len() - i,
    {
        assert(ls.take(i + 1).drop_last() =~= ls.take(i as int));
        assert(ls.take(i + 1).last() == lines@[i as int]@);
        let f = ws_fields_exec(&lines[i]);
        assert(views(f@) == ws_fields(lines@[i as int]@));
        if f.len() >= 2 && chars_eq_str(&f[0], "arch") {
            assert(views(f@)[0] == f@[0]@);
            assert(views(f@)[1] == f@[1]@);
            let ghost before = string_views(out@);
            out.push(string_of(&f[1]));
            assert(string_views(out@) =~= before.push(f@[1]@));
        } else {
            assert(f@.len() >= 2 ==> views(f@)[0] == f@[0]@);
        }
        i += 1;
    }
    assert(ls.take(ls.len() as int) =~= ls);
    out
}

} // verus!
