//! The apk backend: what the tool reads from apk's output and the command
//! it runs to install.
use vstd::prelude::*;
use super::{PackageManager, PackageManagerKind};
use crate::text::{
    is_ascii_alnum, is_ascii_alnum_char, is_digit_char, is_digit, trim, to_lower, trimmed_lines,
    trimmed_lines_exec, chars_of, starts_with, ends_with, ends_with_str, starts_with_chars,
    sub_chars, string_of, copy_str, append_str, contains_seq, lower_contains, trim_chars,
    last_index_of, last_index_of_exec, views, string_views, chars_eq_str,
};
use crate::strset::{sorted_unique, strictly_sorted};
use crate::pica_pkg_cli::types::{CliError, E_NO_SPACE, E_RUNTIME, E_PACKAGE_INVALID};

verus! {

/// The apk backend.
pub struct ApkBackend;

impl PackageManager for ApkBackend {
    fn kind(&self) -> (r: PackageManagerKind)
        ensures
            r == PackageManagerKind::Apk,
    {
        PackageManagerKind::Apk
    }
}

/// A name apk accepts: an ASCII letter or digit, then letters, digits and `+_.-`.
pub open spec fn is_package_name(s: Seq<char>) -> bool {
    s.len() > 0 && is_ascii_alnum(s[0]) && forall|i: int|
        0 <= i < s.len() ==> is_ascii_alnum(#[trigger] s[i]) || s[i] == '+' || s[i] == '_'
            || s[i] == '.' || s[i] == '-'
}

pub fn valid_package_name(name: &str) -> (r: bool)
    ensures
        r == is_package_name(name@),
{
    let cs = chars_of(name);
    if cs.len() == 0 || !is_ascii_alnum_char(cs[0]) {
        return false;
    }
    let mut i: usize = 0;
    while i < cs.len()
        invariant
            cs@ == name@,
            i <= cs@.len(),
            forall|j: int|
                0 <= j < i ==> is_ascii_alnum(#[trigger] cs@[j]) || cs@[j] == '+' || cs@[j] == '_'
                    || cs@[j] == '.' || cs@[j] == '-',
        decreases cs.len() - i,
    {
        let c = cs[i];
        if !(is_ascii_alnum_char(c) || c == '+' || c == '_' || c == '.' || c == '-') {
            return false;
        }
        i += 1;
    }
    true
}

/// The file name of a path: what follows the last `/`, trailing `/` ignored.
pub open spec fn file_name_of(s: Seq<char>) -> Seq<char>
    decreases s.len(),
{
    if s.len() > 0 && s.last() == '/' {
        file_name_of(s.drop_last())
    } else {
        match last_index_of(s, '/') {
            Some(i) => s.skip(i + 1),
            None => s,
        }
    }
}

/// The path's file name has the extension `apk`, in any ASCII case: it ends
/// with `.apk` and is more than that.
pub open spec fn has_apk_extension(s: Seq<char>) -> bool {
    let f = to_lower(file_name_of(s));
    f.len() > 4 && ends_with(f, ".apk"@)
}

pub fn file_name_exec(s: &[char]) -> (r: Vec<char>)
    ensures
        r@ == file_name_of(s@),
{
    let mut end: usize = s.len();
    assert(s@.take(s@.len() as int) =~= s@);
    while end > 0 && s[end - 1] == '/'
        invariant
            end <= s@.len(),
            file_name_of(s@) == file_name_of(s@.take(end as int)),
        decreases end,
    {
        assert(s@.take(end as int).drop_last() =~= s@.take(end - 1));
        end -= 1;
    }
    let t = sub_chars(s, 0, end);
    assert(t@ == s@.take(end as int));
    match last_index_of_exec(&t, '/') {
        Some(i) => sub_chars(&t, i + 1, t.len()),
        None => t,
    }
}

/// Whether the path names an `.apk` file by its extension.
pub fn apk_extension(target: &str) -> (r: bool)
    ensures
        r == has_apk_extension(target@),
{
    let cs = chars_of(target);
    let f = file_name_exec(&cs);
    let l = crate::text::to_lower_chars(&f);
    l.len() > 4 && crate::text::ends_with_str(&l, ".apk")
}

/// The arguments of `apk` that install `target`. `local` is the canonical
/// path of `target` when it is an existing file with the `apk` extension.
pub fn install_command(target: &str, local: Option<&str>) -> (r: Result<Vec<String>, CliError>)
    ensures
        match local {
            Some(p) => r is Ok && string_views(r->Ok_0@) == seq![
                "add"@,
                "--allow-untrusted"@,
                "--"@,
                p@,
            ],
            None => if !is_package_name(target@) || has_apk_extension(target@) {
                r is Err && r->Err_0.code == E_PACKAGE_INVALID && r->Err_0.message@
                    == "expected a package name or an existing local apk file"@
            } else {
                r is Ok && string_views(r->Ok_0@) == seq!["add"@, "--"@, target@]
            },
        },
{
    let mut args: Vec<String> = Vec::new();
    args.push(copy_str("add"));
    match local {
        Some(p) => {
            args.push(copy_str("--allow-untrusted"));
            args.push(copy_str("--"));
            args.push(copy_str(p));
            assert(string_views(args@) =~= seq!["add"@, "--allow-untrusted"@, "--"@, p@]);
            Ok(args)
        },
        None => {
            if !valid_package_name(target) || apk_extension(target) {
                return Err(
                    CliError::new(
                        E_PACKAGE_INVALID,
                        "expected a package name or an existing local apk file",
                    ),
                );
            }
            args.push(copy_str("--"));
            args.push(copy_str(target));
            assert(string_views(args@) =~= seq!["add"@, "--"@, target@]);
            Ok(args)
        },
    }
}

/// The version in a line `<name>-<version>`, when the version is not empty.
pub open spec fn version_after(line: Seq<char>, name: Seq<char>) -> Option<Seq<char>> {
    if starts_with(line, name) && line.len() > name.len() + 1 && line[name.len() as int] == '-' {
        Some(line.skip(name.len() as int + 1))
    } else {
        None
    }
}

/// The version of the first line, trimmed, that names `name`.
pub open spec fn first_version(lines: Seq<Seq<char>>, name: Seq<char>) -> Option<Seq<char>>
    decreases lines.len(),
{
    if lines.len() == 0 {
        None
    } else {
        match version_after(lines[0], name) {
            Some(v) => Some(v),
            None => first_version(lines.drop_first(), name),
        }
    }
}

fn version_after_exec(line: &[char], name: &str) -> (r: Option<Vec<char>>)
    ensures
        match r {
            Some(v) => version_after(line@, name@) == Some(v@),
            None => version_after(line@, name@) == None::<Seq<char>>,
        },
{
    let nc = chars_of(name);
    if starts_with_chars(line, &nc) && line.len() > nc.len() && line.len() - nc.len() > 1 && line[nc.len()] == '-' {
        Some(sub_chars(line, nc.len() + 1, line.len()))
    } else {
        None
    }
}

/// The version apk lists for `name` in the output of `apk list --installed`.
pub fn parse_package_version(output: &str, name: &str) -> (r: Option<String>)
    ensures
        match r {
            Some(v) => first_version(trimmed_lines(output@), name@) == Some(v@),
            None => first_version(trimmed_lines(output@), name@) == None::<Seq<char>>,
        },
{
    let lines = trimmed_lines_exec(output);
    let ghost ls = views(lines@);
    let mut i: usize = 0;
    assert(ls.skip(0) =~= ls);
    while i < lines.len()
        invariant
            ls == views(lines@),
            ls == trimmed_lines(output@),
            i <= lines@.len(),
            first_version(ls, name@) == first_version(ls.skip(i as int), name@),
        decreases lines.len() - i,
    {
        assert(ls.skip(i as int)[0] == lines@[i as int]@);
        assert(ls.skip(i as int).drop_first() =~= ls.skip(i + 1));
        match version_after_exec(&lines[i], name) {
            Some(v) => {
                return Some(string_of(&v));
            },
            None => {},
        }
        i += 1;
    }
    None
}

/// The rightmost `-` among the first `n` characters that is not the first
/// character and is followed by a digit.
pub open spec fn rightmost_version_dash(v: Seq<char>, n: int) -> Option<int>
    decreases n,
{
    if n <= 0 || n > v.len() {
        None
    } else if v[n - 1] == '-' && n - 1 > 0 && n < v.len() && is_digit(v[n]) {
        Some(n - 1)
    } else {
        rightmost_version_dash(v, n - 1)
    }
}

/// The line of `apk list --installed` with its ` [installed]` mark removed.
pub open spec fn installed_entry(line: Seq<char>) -> Seq<char> {
    let t = trim(line);
    if ends_with(t, " [installed]"@) {
        t.take(t.len() - 12)
    } else {
        t
    }
}

/// The package name of an installed line: the entry up to the rightmost `-`
/// that starts the version.
pub open spec fn installed_name(line: Seq<char>) -> Option<Seq<char>> {
    let v = installed_entry(line);
    if trim(line).len() == 0 {
        None
    } else {
        match rightmost_version_dash(v, v.len() as int) {
            Some(i) => Some(v.take(i)),
            None => None,
        }
    }
}

fn installed_name_chars(line: &[char]) -> (r: Option<Vec<char>>)
    ensures
        match r {
            Some(v) => installed_name(line@) == Some(v@),
            None => installed_name(line@) == None::<Seq<char>>,
        },
{
    let t = trim_chars(line);
    if t.len() == 0 {
        return None;
    }
    proof {
        reveal_strlit(" [installed]");
    }
    let v = if ends_with_str(&t, " [installed]") {
        sub_chars(&t, 0, t.len() - 12)
    } else {
        t
    };
    assert(v@ == installed_entry(line@));
    let mut n: usize = v.len();
    while n > 0
        invariant
            n <= v@.len(),
            v@ == installed_entry(line@),
            trim(line@).len() != 0,
            rightmost_version_dash(v@, v@.len() as int) == rightmost_version_dash(v@, n as int),
        decreases n,
    {
        if v[n - 1] == '-' && n - 1 > 0 && n < v.len() && is_digit_char(v[n]) {
            assert(v@.subrange(0, n - 1) =~= v@.take(n - 1));

            return Some(sub_chars(&v, 0, n - 1));
        }
        n -= 1;
    }
    None
}

/// The package name of a line of `apk list --installed`.
pub fn package_name_from_installed_line(line: &str) -> (r: Option<String>)
    ensures
        match r {
            Some(v) => installed_name(line@) == Some(v@),
            None => installed_name(line@) == None::<Seq<char>>,
        },
{
    let cs = chars_of(line);
    match installed_name_chars(&cs) {
        Some(v) => Some(string_of(&v)),
        None => None,
    }
}

/// The error of a failed `apk add`: storage-full when the detail says so.
pub fn install_failure(label: &str, target: &str, detail: &str) -> (r: CliError)
    ensures
        contains_seq(to_lower(detail@), "no space left on device"@) ==> r.code == E_NO_SPACE
            && r.message@ == label@ + " install failed: "@ + target@
            + " (storage-full). detail=["@ + detail@ + "]"@,
        !contains_seq(to_lower(detail@), "no space left on device"@) ==> r.code == E_RUNTIME
            && r.message@ == label@ + " install failed: "@ + target@ + " detail=["@ + detail@
            + "]"@,
{
    let dc = chars_of(detail);
    let mut m = copy_str(label);
    append_str(&mut m, " install failed: ");
    append_str(&mut m, target);
    if lower_contains(&dc, "no space left on device") {
        append_str(&mut m, " (storage-full). detail=[");
        append_str(&mut m, detail);
        append_str(&mut m, "]");
        CliError { code: E_NO_SPACE, message: m }
    } else {
        append_str(&mut m, " detail=[");
        append_str(&mut m, detail);
        append_str(&mut m, "]");
        CliError { code: E_RUNTIME, message: m }
    }
}

/// The error of a failed `apk del`.
pub fn remove_failure(target: &str, detail: &str) -> (r: CliError)
    ensures
        r.code == E_RUNTIME,
        r.message@ == "apk del failed: "@ + target@ + " detail=["@ + detail@ + "]"@,
{
    let mut m = copy_str("apk del failed: ");
    append_str(&mut m, target);
    append_str(&mut m, " detail=[");
    append_str(&mut m, detail);
    append_str(&mut m, "]");
    CliError { code: E_RUNTIME, message: m }
}

/// Some name is read from line `k` of the text.
pub open spec fn names_in(text: Seq<char>, x: Seq<char>) -> bool {
    exists|k: int|
        0 <= k < crate::text::split_seq(text, '\n').len() && #[trigger] installed_name(
            crate::text::split_seq(text, '\n')[k],
        ) == Some(x)
}

/// The installed packages in the output of `apk list --installed -q`,
/// sorted, each once.
pub fn snapshot_from_listing(text: &str) -> (r: Vec<String>)
    ensures
        strictly_sorted(string_views(r@)),
        forall|x: Seq<char>| string_views(r@).contains(x) <==> names_in(text@, x),
{
    let cs = chars_of(text);
    let lines = crate::text::split_chars(&cs, '\n');
    let ghost ls = views(lines@);
    let mut names: Vec<String> = Vec::new();
    let mut i: usize = 0;
    while i < lines.len()
        invariant
            ls == views(lines@),
            ls == crate::text::split_seq(text@, '\n'),
            i <= lines@.len(),
            forall|x: Seq<char>|
                string_views(names@).contains(x) <==> exists|k: int|
                    0 <= k < i && #[trigger] installed_name(ls[k]) == Some(x),
        decreases lines.len() - i,
    {
        assert(ls[i as int] == lines@[i as int]@);
        match installed_name_chars(&lines[i]) {
            Some(v) => {
                let ghost before = string_views(names@);
                names.push(string_of(&v));
                assert(string_views(names@) =~= before.push(v@));
                assert forall|x: Seq<char>|
                    string_views(names@).contains(x) <==> exists|k: int|
                        0 <= k < i + 1 && #[trigger] installed_name(ls[k]) == Some(x) by {
                    if string_views(names@).contains(x) {
                        let j = choose|j: int|
                            0 <= j < string_views(names@).len() && string_views(names@)[j] == x;
                        if j < before.len() {
                            assert(before.contains(x));
                        } else {
                            assert(installed_name(ls[i as int]) == Some(x));
                        }
                    }
                    if exists|k: int| 0 <= k < i + 1 && #[trigger] installed_name(ls[k]) == Some(x) {
                        let k = choose|k: int| 0 <= k < i + 1 && #[trigger] installed_name(ls[k]) == Some(x);
                        if k < i {
                            assert(before.contains(x));
                            let j = choose|j: int| 0 <= j < before.len() && before[j] == x;
                            assert(string_views(names@)[j] == x);
                        } else {
                            assert(string_views(names@)[before.len() as int] == x);
                        }
                    }
                }
            },
            None => {
                assert forall|x: Seq<char>|
                    string_views(names@).contains(x) <==> exists|k: int|
                        0 <= k < i + 1 && #[trigger] installed_name(ls[k]) == Some(x) by {
                    if exists|k: int| 0 <= k < i + 1 && #[trigger] installed_name(ls[k]) == Some(x) {
                        let k = choose|k: int| 0 <= k < i + 1 && #[trigger] installed_name(ls[k]) == Some(x);
                        assert(k < i);
                    }
                }
            },
        }
        i += 1;
    }
    sorted_unique(&names)
}

} // verus!
