//! Texts the builder writes: the manifest inside a package and the
//! checksum list next to the packages.
use vstd::prelude::*;
use crate::text::{
    chars_of, string_of, copy_str, append_str, push_char, sub_chars, trim_chars, trim_start_chars,
    trim_end_chars, chars_eq_str, starts_with_str, ends_with_chars, first_index_of_exec,
    text_lines_exec, join_exec, decimal_string, ws_fields_exec, split_once_spec, starts_with,
    ends_with, trim, trim_start, trim_end, text_lines, join, decimal, string_views, views, ws_fields,
};
use crate::strset::{sort_texts, sorted};
use crate::pica_core::io::now_unix_secs;

verus! {

/// A line whose first non-blank character is `#`.
pub open spec fn is_comment_line(l: Seq<char>) -> bool {
    starts_with(trim_start(l), "#"@)
}

/// The keys whose values a build writes anew.
pub open spec fn runtime_key(k: Seq<char>) -> bool {
    k == "builddate"@ || k == "size"@ || k == "platform"@ || k == "arch"@ || k == "pkgver"@
        || k == "pkgrel"@ || k == "uname"@
}

/// A manifest line a build keeps: comments, lines without `=`, and
/// assignments to keys a build does not write.
pub open spec fn kept_in_build(l: Seq<char>) -> bool {
    is_comment_line(l) || match split_once_spec(l, '=') {
        None => true,
        Some(kv) => !runtime_key(trim(kv.0)),
    }
}

/// The lines a build keeps, in order.
pub open spec fn kept_lines(ls: Seq<Seq<char>>) -> Seq<Seq<char>>
    decreases ls.len(),
{
    if ls.len() == 0 {
        Seq::empty()
    } else if kept_in_build(ls.last()) {
        kept_lines(ls.drop_last()).push(ls.last())
    } else {
        kept_lines(ls.drop_last())
    }
}

/// `key = value`.
pub open spec fn kv_line(key: Seq<char>, value: Seq<char>) -> Seq<char> {
    key + " = "@ + value
}

/// The manifest written into a package: the kept lines of the source
/// manifest, then the build date, version, release, platform and arch, one
/// per line, each line ended by a line feed.
pub open spec fn build_manifest(
    content: Seq<char>,
    pkgver: Seq<char>,
    pkgrel: Seq<char>,
    platform: Seq<char>,
    arch: Seq<char>,
    builddate: Seq<char>,
) -> Seq<char> {
    join(
        kept_lines(text_lines(content)) + seq![
            kv_line("builddate"@, builddate),
            kv_line("pkgver"@, pkgver),
            kv_line("pkgrel"@, pkgrel),
            kv_line("platform"@, platform),
            kv_line("arch"@, arch),
        ],
        "\n"@,
    ) + "\n"@
}

fn keeps_in_build(line: &[char]) -> (r: bool)
    ensures
        r == kept_in_build(line@),
{
    let ts = trim_start_chars(line);
    if starts_with_str(&ts, "#") {
        return true;
    }
    match first_index_of_exec(line, '=') {
        None => true,
        Some(i) => {
            let raw = sub_chars(line, 0, i);
            assert(raw@ =~= line@.take(i as int));
            let key = trim_chars(&raw);
            !(chars_eq_str(&key, "builddate") || chars_eq_str(&key, "size") || chars_eq_str(
                &key,
                "platform",
            ) || chars_eq_str(&key, "arch") || chars_eq_str(&key, "pkgver") || chars_eq_str(
                &key,
                "pkgrel",
            ) || chars_eq_str(&key, "uname"))
        },
    }
}

fn kv_text(key: &str, value: &str) -> (r: String)
    ensures
        r@ == kv_line(key@, value@),
{
    let mut out = copy_str(key);
    append_str(&mut out, " = ");
    append_str(&mut out, value);
    out
}

/// The manifest written into a package built at `builddate` (seconds since
/// the Unix epoch).
pub fn rewrite_manifest_text(
    content: &str,
    pkgver: &str,
    pkgrel: &str,
    platform: &str,
    arch: &str,
    builddate: u64,
) -> (r: String)
    ensures
        r@ == build_manifest(content@, pkgver@, pkgrel@, platform@, arch@, decimal(builddate as nat)),
{
    let lines = text_lines_exec(content);
    let ghost ls = string_views(lines@);
    let mut out: Vec<String> = Vec::new();
    let mut i: usize = 0;
    while i < lines.len()
        invariant
            i <= lines@.len(),
            ls == string_views(lines@),
            string_views(out@) == kept_lines(ls.take(i as int)),
        decreases lines.len() - i,
    {
        assert(ls.take(i + 1).drop_last() =~= ls.take(i as int));
        assert(ls.take(i + 1).last() == lines@[i as int]@);
        let cs = chars_of(lines[i].as_str());
        if keeps_in_build(&cs) {
            let ghost before = string_views(out@);
            out.push(copy_str(lines[i].as_str()));
            assert(string_views(out@) =~= before.push(lines@[i as int]@));
        }
        i += 1;
    }
    assert(ls.take(lines@.len() as int) =~= ls);
    let ghost kept = string_views(out@);
    let date = decimal_string(builddate);
    out.push(kv_text("builddate", date.as_str()));
    out.push(kv_text("pkgver", pkgver));
    out.push(kv_text("pkgrel", pkgrel));
    out.push(kv_text("platform", platform));
    out.push(kv_text("arch", arch));
    assert(string_views(out@) =~= kept + seq![
        kv_line("builddate"@, decimal(builddate as nat)),
        kv_line("pkgver"@, pkgver@),
        kv_line("pkgrel"@, pkgrel@),
        kv_line("platform"@, platform@),
        kv_line("arch"@, arch@),
    ]);
    let mut text = join_exec(&out, "\n");
    push_char(&mut text, '\n');
    proof {
        reveal_strlit("\n");
    }
    assert(text@ =~= join(string_views(out@), "\n"@) + "\n"@);
    text
}

/// The manifest written into a package built now: as
/// `rewrite_manifest_text` gives it for the clock's current second.
pub fn rewrite_manifest_for_build(
    content: &str,
    pkgver: &str,
    pkgrel: &str,
    platform: &str,
    arch: &str,
) -> (r: String)
    ensures
        exists|date: u64|
            r@ == build_manifest(
                content@,
                pkgver@,
                pkgrel@,
                platform@,
                arch@,
                #[trigger] decimal(date as nat),
            ),
{
    let now = now_unix_secs();
    let r = rewrite_manifest_text(content, pkgver, pkgrel, platform, arch, now);
    assert(r@ == build_manifest(content@, pkgver@, pkgrel@, platform@, arch@, decimal(now as nat)));
    r
}

/// A manifest with `key = value` appended on a line of its own.
pub open spec fn appended_kv(content: Seq<char>, key: Seq<char>, value: Seq<char>) -> Seq<char> {
    (if ends_with(content, "\n"@) {
        content
    } else {
        content.push('\n')
    }) + kv_line(key, value) + "\n"@
}

/// Appends `key = value` as a line of its own.
pub fn append_manifest_kv(content: &str, key: &str, value: &str) -> (r: String)
    ensures
        r@ == appended_kv(content@, key@, value@),
{
    let cs = chars_of(content);
    let nl = chars_of("\n");
    let mut out = copy_str(content);
    if !ends_with_chars(&cs, &nl) {
        push_char(&mut out, '\n');
    }
    append_str(&mut out, key);
    append_str(&mut out, " = ");
    append_str(&mut out, value);
    push_char(&mut out, '\n');
    proof {
        reveal_strlit("\n");
        reveal_strlit(" = ");
    }
    assert(out@ =~= appended_kv(content@, key@, value@));
    out
}

/// A checksum line: the digest, two blanks, the file name.
pub open spec fn sum_line(sha256: Seq<char>, filename: Seq<char>) -> Seq<char> {
    sha256 + "  "@ + filename
}

/// A checksum line for `filename`: it ends, trailing blanks aside, with two
/// blanks and the name.
pub open spec fn names_file(line: Seq<char>, filename: Seq<char>) -> bool {
    ends_with(trim_end(line), "  "@ + filename)
}

/// The lines for other files, in order.
pub open spec fn other_entries(ls: Seq<Seq<char>>, filename: Seq<char>) -> Seq<Seq<char>>
    decreases ls.len(),
{
    if ls.len() == 0 {
        Seq::empty()
    } else if names_file(ls.last(), filename) {
        other_entries(ls.drop_last(), filename)
    } else {
        other_entries(ls.drop_last(), filename).push(ls.last())
    }
}

/// The checksum list once `filename` is recorded with `sha256`: the lines
/// for other files and the new line, sorted, each ended by a line feed.
pub open spec fn sums_after(lines: Seq<Seq<char>>, text: Seq<char>, filename: Seq<char>, sha256: Seq<char>) -> bool {
    sorted(lines) && lines.to_multiset() == other_entries(text_lines(text), filename).push(
        sum_line(sha256, filename),
    ).to_multiset()
}

/// The checksum list `existing` (empty where there is none) with the line
/// for `filename` replaced by one for `sha256`.
pub fn sha256sums_with_entry(existing: &str, filename: &str, sha256: &str) -> (r: String)
    ensures
        exists|lines: Seq<Seq<char>>|
            #[trigger] sums_after(lines, existing@, filename@, sha256@) && r@ == join(lines, "\n"@)
                + "\n"@,
{
    let lines = text_lines_exec(existing);
    let ghost ls = string_views(lines@);
    let mut suffix = copy_str("  ");
    append_str(&mut suffix, filename);
    let sc = chars_of(suffix.as_str());
    proof {
        reveal_strlit("  ");
    }
    assert(sc@ == "  "@ + filename@);
    let mut kept: Vec<String> = Vec::new();
    let mut i: usize = 0;
    while i < lines.len()
        invariant
            i <= lines@.len(),
            ls == string_views(lines@),
            sc@ == "  "@ + filename@,
            string_views(kept@) == other_entries(ls.take(i as int), filename@),
        decreases lines.len() - i,
    {
        assert(ls.take(i + 1).drop_last() =~= ls.take(i as int));
        assert(ls.take(i + 1).last() == lines@[i as int]@);
        let cs = chars_of(lines[i].as_str());
        let te = trim_end_chars(&cs);
        if !ends_with_chars(&te, &sc) {
            let ghost before = string_views(kept@);
            kept.push(copy_str(lines[i].as_str()));
            assert(string_views(kept@) =~= before.push(lines@[i as int]@));
        }
        i += 1;
    }
    assert(ls.take(lines@.len() as int) =~= ls);
    let mut entry = copy_str(sha256);
    append_str(&mut entry, "  ");
    append_str(&mut entry, filename);
    let ghost before = string_views(kept@);
    kept.push(entry);
    assert(string_views(kept@) =~= before.push(sum_line(sha256@, filename@)));
    let ghost all = string_views(kept@);
    let sorted_lines = sort_texts(kept);
    let mut text = join_exec(&sorted_lines, "\n");
    push_char(&mut text, '\n');
    proof {
        reveal_strlit("\n");
    }
    assert(sums_after(string_views(sorted_lines@), existing@, filename@, sha256@));
    assert(text@ =~= join(string_views(sorted_lines@), "\n"@) + "\n"@);
    text
}

/// The digest `sha256sum` printed: its first field.
pub open spec fn sha256sum_digest(out: Seq<char>) -> Option<Seq<char>> {
    if ws_fields(out).len() > 0 {
        Some(ws_fields(out)[0])
    } else {
        None
    }
}

/// Start of the last `= ` in `s`.
pub open spec fn last_assign_mark(s: Seq<char>) -> Option<int>
    decreases s.len(),
{
    if s.len() < 2 {
        None
    } else if s[s.len() - 2] == '=' && s.last() == ' ' {
        Some(s.len() - 2)
    } else {
        last_assign_mark(s.drop_last())
    }
}

/// The digest `openssl dgst -sha256` printed: what follows the last `= `,
/// trimmed, where that is not empty.
pub open spec fn openssl_digest(out: Seq<char>) -> Option<Seq<char>> {
    match last_assign_mark(out) {
        None => None,
        Some(i) => if trim(out.skip(i + 2)).len() > 0 {
            Some(trim(out.skip(i + 2)))
        } else {
            None
        },
    }
}

/// The digest in the output of `sha256sum`.
pub fn digest_from_sha256sum(out: &str) -> (r: Option<String>)
    ensures
        match sha256sum_digest(out@) {
            Some(d) => r matches Some(s) && s@ == d,
            None => r is None,
        },
{
    let cs = chars_of(out);
    let fields = ws_fields_exec(&cs);
    if fields.len() > 0 {
        assert(views(fields@)[0] == fields@[0]@);
        Some(string_of(&fields[0]))
    } else {
        None
    }
}

/// The digest in the output of `openssl dgst -sha256`.
pub fn digest_from_openssl(out: &str) -> (r: Option<String>)
    ensures
        match openssl_digest(out@) {
            Some(d) => r matches Some(s) && s@ == d,
            None => r is None,
        },
{
    let cs = chars_of(out);
    let mut j: usize = cs.len();
    assert(cs@.take(j as int) =~= cs@);
    while j >= 2
        invariant
            j <= cs@.len(),
            cs@ == out@,
            last_assign_mark(cs@) == last_assign_mark(cs@.take(j as int)),
        decreases j,
    {
        let ghost t = cs@.take(j as int);
        if cs[j - 2] == '=' && cs[j - 1] == ' ' {
            assert(t[t.len() - 2] == '=' && t.last() == ' ');
            let rest = sub_chars(&cs, j, cs.len());
            assert(rest@ =~= cs@.skip(j as int));
            let d = trim_chars(&rest);
            if d.len() > 0 {
                return Some(string_of(&d));
            } else {
                return None;
            }
        }
        assert(t.drop_last() =~= cs@.take(j - 1));
        j -= 1;
    }
    None
}

/// The digest of a file from the output of `sha256sum`, else from that of
/// `openssl dgst -sha256` (each `None` where the command did not succeed).
pub fn file_digest(sha256sum_out: Option<&str>, openssl_out: Option<&str>) -> (r: Result<String, String>)
    ensures
        match (
            match sha256sum_out {
                Some(o) => sha256sum_digest(o@),
                None => None,
            },
            match openssl_out {
                Some(o) => openssl_digest(o@),
                None => None,
            },
        ) {
            (Some(d), _) => r matches Ok(s) && s@ == d,
            (None, Some(d)) => r matches Ok(s) && s@ == d,
            (None, None) => r matches Err(m)
                && m@ == "cannot compute sha256: need command 'sha256sum' or 'openssl'"@,
        },
{
    if let Some(o) = sha256sum_out {
        if let Some(d) = digest_from_sha256sum(o) {
            return Ok(d);
        }
    }
    if let Some(o) = openssl_out {
        if let Some(d) = digest_from_openssl(o) {
            return Ok(d);
        }
    }
    Err(copy_str("cannot compute sha256: need command 'sha256sum' or 'openssl'"))
}


proof fn lemma_other_entries_exclude(ls: Seq<Seq<char>>, filename: Seq<char>)
    ensures
        forall|x: Seq<char>| other_entries(ls, filename).contains(x) ==> !names_file(x, filename),
    decreases ls.len(),
{
    if ls.len() > 0 {
        lemma_other_entries_exclude(ls.drop_last(), filename);
        let prev = other_entries(ls.drop_last(), filename);
        if !names_file(ls.last(), filename) {
            assert forall|x: Seq<char>| prev.push(ls.last()).contains(x) implies !names_file(x, filename) by {
                if x != ls.last() {
                    let j = choose|j: int| 0 <= j < prev.push(ls.last()).len() && prev.push(ls.last())[j] == x;
                    assert(prev[j] == x);
                }
            }
        }
    }
}

/// Recording a file's checksum leaves the new line in the list, every line
/// for that file is the new line, and (for a name that does not end in
/// white space) it is there exactly once.
pub proof fn law_sums_single_entry(lines: Seq<Seq<char>>, text: Seq<char>, filename: Seq<char>, sha256: Seq<char>)
    requires
        sums_after(lines, text, filename, sha256),
    ensures
        lines.contains(sum_line(sha256, filename)),
        forall|i: int| 0 <= i < lines.len() && names_file(lines[i], filename) ==> lines[i] == sum_line(sha256, filename),
        filename.len() > 0 && !crate::text::is_whitespace(filename.last()) ==> lines.to_multiset().count(
            sum_line(sha256, filename),
        ) == 1,
{
    broadcast use vstd::seq_lib::group_to_multiset_ensures;
    let others = other_entries(text_lines(text), filename);
    let new_line = sum_line(sha256, filename);
    let all = others.push(new_line);
    lemma_other_entries_exclude(text_lines(text), filename);
    assert(all[all.len() - 1] == new_line);
    assert(all.contains(new_line));
    assert(all.to_multiset().count(new_line) > 0);
    assert(lines.to_multiset().count(new_line) > 0);
    assert forall|i: int| 0 <= i < lines.len() && names_file(lines[i], filename) implies lines[i] == new_line by {
        assert(lines.contains(lines[i]));
        assert(lines.to_multiset().count(lines[i]) > 0);
        assert(all.to_multiset().count(lines[i]) > 0);
        assert(all.contains(lines[i]));
        let j = choose|j: int| 0 <= j < all.len() && all[j] == lines[i];
        if j < others.len() {
            assert(others[j] == lines[i]);
            assert(others.contains(lines[i]));
        }
    }
    if filename.len() > 0 && !crate::text::is_whitespace(filename.last()) {
        let sep = "  "@ + filename;
        assert(new_line =~= sha256 + sep);
        assert(new_line.last() == filename.last());
        assert(trim_end(new_line) == new_line);
        assert(new_line.skip(new_line.len() - sep.len()) =~= sep);
        assert(names_file(new_line, filename));
        assert(!others.contains(new_line));
        assert(others.to_multiset().count(new_line) == 0);
        assert(all.to_multiset() =~= others.to_multiset().insert(new_line));
    }
}

} // verus!
