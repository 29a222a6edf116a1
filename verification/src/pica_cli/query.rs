//! Queries on the installed-package database: the list of installed
//! packages, the details of one, and the files it installed.
use vstd::prelude::*;
use crate::text::{copy_str, append_str, string_views, parse_u64_spec, decimal, decimal_string};
use crate::json::{JsonValue, json_get, str_or, get_str_or};
use crate::strset::{sort_texts, sorted};
use crate::pica_pkg_core::manifest::{first_text, get_first};
use crate::pica_core::version::pkgver_cmp_key;
use crate::pica_pkg_core::version::version_key;
use crate::pica_cli::types::{CliError, E_ARG_INVALID, E_DB_INVALID};
use crate::pica_cli::size::{size_display, format_size_display};

verus! {

/// The manifest recorded for an installed package, `null` where there is
/// none.
pub open spec fn entry_manifest(entry: JsonValue) -> JsonValue {
    match json_get(entry, "manifest"@) {
        Some(m) => m,
        None => JsonValue::Null,
    }
}

/// One line of the installed list: name, version and platform, separated
/// by tabs.
pub open spec fn installed_row(name: Seq<char>, entry: JsonValue) -> Seq<char> {
    let m = entry_manifest(entry);
    name + "\t"@ + version_key(first_text(m, "pkgver"@), first_text(m, "pkgrel"@)) + "\t"@ + first_text(
        m,
        "platform"@,
    )
}

/// The keys of an object's entries, in order.
pub open spec fn entry_keys(es: Seq<(String, JsonValue)>) -> Seq<Seq<char>> {
    es.map_values(|e: (String, JsonValue)| e.0@)
}

/// The installed list holds one row per installed name, names ascending.
pub open spec fn installed_listing(rows: Seq<Seq<char>>, installed: JsonValue) -> bool {
    match installed {
        JsonValue::Object(es) => exists|names: Seq<Seq<char>>|
            #![trigger sorted(names)]
            sorted(names) && names.to_multiset() == entry_keys(es@).to_multiset() && rows.len()
                == names.len() && forall|i: int|
                0 <= i < names.len() ==> rows[i] == installed_row(
                    names[i],
                    json_get(installed, names[i])->Some_0,
                ),
        _ => false,
    }
}

fn installed_row_text(name: &str, entry: &JsonValue) -> (r: String)
    ensures
        r@ == installed_row(name@, *entry),
{
    let null = JsonValue::Null;
    let m: &JsonValue = match entry.get("manifest") {
        Some(m) => m,
        None => &null,
    };
    assert(*m == entry_manifest(*entry));
    let pkgver = get_first(m, "pkgver");
    let pkgrel = get_first(m, "pkgrel");
    let version = pkgver_cmp_key(pkgver.as_str(), pkgrel.as_str());
    let platform = get_first(m, "platform");
    let mut out = copy_str(name);
    append_str(&mut out, "\t");
    append_str(&mut out, version.as_str());
    append_str(&mut out, "\t");
    append_str(&mut out, platform.as_str());
    out
}

/// The installed packages, one `name<TAB>version<TAB>platform` row each,
/// names ascending; the database's `installed` must be an object.
pub fn query_installed(db: &JsonValue) -> (r: Result<Vec<String>, CliError>)
    ensures
        match json_get(*db, "installed"@) {
            Some(JsonValue::Object(es)) => r matches Ok(rows) && installed_listing(
                string_views(rows@),
                JsonValue::Object(es),
            ),
            _ => r matches Err(e) && e.code == E_DB_INVALID && e.message@ == "db installed is not object"@,
        },
{
    let installed = match db.get("installed") {
        Some(v) => v,
        None => {
            return Err(CliError::new(E_DB_INVALID, "db installed is not object"));
        },
    };
    let es = match installed {
        JsonValue::Object(es) => es,
        _ => {
            return Err(CliError::new(E_DB_INVALID, "db installed is not object"));
        },
    };
    let ghost keys = entry_keys(es@);
    let mut names: Vec<String> = Vec::new();
    let mut i: usize = 0;
    while i < es.len()
        invariant
            i <= es@.len(),
            keys == entry_keys(es@),
            string_views(names@) == keys.take(i as int),
        decreases es.len() - i,
    {
        let ghost before = string_views(names@);
        names.push(copy_str(es[i].0.as_str()));
        assert(string_views(names@) =~= before.push(keys[i as int]));
        assert(keys.take(i + 1) =~= keys.take(i as int).push(keys[i as int]));
        i += 1;
    }
    assert(keys.take(es@.len() as int) =~= keys);
    let sorted_names = sort_texts(names);
    let ghost sn = string_views(sorted_names@);
    let mut rows: Vec<String> = Vec::new();
    let mut k: usize = 0;
    while k < sorted_names.len()
        invariant
            k <= sorted_names@.len(),
            sn == string_views(sorted_names@),
            sn.to_multiset() == keys.to_multiset(),
            keys == entry_keys(es@),
            *installed == JsonValue::Object(*es),
            rows@.len() == k,
            forall|q: int|
                0 <= q < k ==> (#[trigger] rows@[q])@ == installed_row(
                    sn[q],
                    json_get(*installed, sn[q])->Some_0,
                ),
        decreases sorted_names.len() - k,
    {
        let name = sorted_names[k].as_str();
        proof {
            broadcast use vstd::seq_lib::group_to_multiset_ensures;
            assert(sn.contains(sn[k as int]));
            assert(sn.to_multiset().count(sn[k as int]) > 0);
            assert(keys.contains(sn[k as int]));
        }
        let entry = match installed.get(name) {
            Some(e) => e,
            None => {
                proof {
                    let j = choose|j: int| 0 <= j < keys.len() && keys[j] == sn[k as int];
                    crate::json::lemma_find_key_some(es@, sn[k as int]);
                    assert(es@[j].0@ == sn[k as int]);
                    assert(false);
                }
                return Err(CliError::new(E_DB_INVALID, "db installed is not object"));
            },
        };
        rows.push(installed_row_text(name, entry));
        k += 1;
    }
    proof {
        assert(sorted(sn));
        assert(installed_listing(string_views(rows@), *installed)) by {
            assert forall|i: int| 0 <= i < sn.len() implies string_views(rows@)[i] == installed_row(
                sn[i],
                json_get(*installed, sn[i])->Some_0,
            ) by {
                assert(string_views(rows@)[i] == rows@[i]@);
            }
        }
    }
    Ok(rows)
}


/// The installed package under `pkgname`, if any.
pub open spec fn installed_entry(db: JsonValue, pkgname: Seq<char>) -> Option<JsonValue> {
    match json_get(db, "installed"@) {
        Some(installed) => json_get(installed, pkgname),
        None => None,
    }
}

/// The program's address: `url`, else `origin`.
pub open spec fn program_url(m: JsonValue) -> Seq<char> {
    if first_text(m, "url"@).len() == 0 {
        first_text(m, "origin"@)
    } else {
        first_text(m, "url"@)
    }
}

/// When the package was installed, where the entry records it as a
/// non-negative integer.
pub open spec fn installed_at_text(entry: JsonValue) -> Seq<char> {
    match json_get(entry, "installed_at"@) {
        Some(JsonValue::Number(t)) => match parse_u64_spec(t@) {
            Some(n) => decimal(n as nat),
            None => Seq::empty(),
        },
        _ => Seq::empty(),
    }
}

/// The details of an installed package, one labelled line each.
pub open spec fn info_lines(pkgname: Seq<char>, entry: JsonValue) -> Seq<Seq<char>> {
    let m = entry_manifest(entry);
    seq![
        "Name            : "@ + pkgname,
        "Version         : "@ + version_key(first_text(m, "pkgver"@), first_text(m, "pkgrel"@)),
        "Pkgver          : "@ + first_text(m, "pkgver"@),
        "Pkgrel          : "@ + first_text(m, "pkgrel"@),
        "AppName         : "@ + first_text(m, "appname"@),
        "Program URL     : "@ + program_url(m),
        "PkgDesc         : "@ + first_text(m, "pkgdesc"@),
        "LuCI URL        : "@ + first_text(m, "luci_url"@),
        "Protocol        : "@ + first_text(m, "protocol"@),
        "Branch          : "@ + first_text(m, "branch"@),
        "LuCI Desc       : "@ + first_text(m, "luci_desc"@),
        "OS              : "@ + first_text(m, "os"@),
        "Platform        : "@ + first_text(m, "platform"@),
        "Arch            : "@ + first_text(m, "arch"@),
        "Uname           : "@ + first_text(m, "uname"@),
        "Type            : "@ + first_text(m, "type"@),
        "Source          : "@ + first_text(m, "source"@),
        "PkgMgr          : "@ + first_text(m, "pkgmgr"@),
        "Packager        : "@ + first_text(m, "packager"@),
        "Build Date      : "@ + first_text(m, "builddate"@),
        "Size            : "@ + size_display(first_text(m, "size"@)),
        "Installed At    : "@ + installed_at_text(entry),
        "Installed From  : "@ + str_or(entry, "pkgfile"@, Seq::empty()),
        "License         : "@ + first_text(m, "license"@),
        "Visibility      : "@ + first_text(m, "visibility"@),
    ]
}

/// The lines of the details that show a manifest field as it is recorded:
/// their place, their label, and the field.
pub open spec fn manifest_field_lines() -> Seq<(int, Seq<char>, Seq<char>)> {
    seq![
        (2, "Pkgver          : "@, "pkgver"@),
        (3, "Pkgrel          : "@, "pkgrel"@),
        (4, "AppName         : "@, "appname"@),
        (6, "PkgDesc         : "@, "pkgdesc"@),
        (7, "LuCI URL        : "@, "luci_url"@),
        (8, "Protocol        : "@, "protocol"@),
        (9, "Branch          : "@, "branch"@),
        (10, "LuCI Desc       : "@, "luci_desc"@),
        (11, "OS              : "@, "os"@),
        (12, "Platform        : "@, "platform"@),
        (13, "Arch            : "@, "arch"@),
        (14, "Uname           : "@, "uname"@),
        (15, "Type            : "@, "type"@),
        (16, "Source          : "@, "source"@),
        (17, "PkgMgr          : "@, "pkgmgr"@),
        (18, "Packager        : "@, "packager"@),
        (19, "Build Date      : "@, "builddate"@),
        (23, "License         : "@, "license"@),
        (24, "Visibility      : "@, "visibility"@),
    ]
}

/// Each labelled line of the details shows the field its label names: the
/// name line the package name, the `Platform` line the manifest's platform,
/// the `Arch` line its architecture, and so on for every manifest field
/// shown as recorded.
#[verifier::rlimit(40)]
pub proof fn law_info_lines_show_their_fields(pkgname: Seq<char>, entry: JsonValue)
    ensures
        info_lines(pkgname, entry).len() == 25,
        info_lines(pkgname, entry)[0] == "Name            : "@ + pkgname,
        forall|t: int| 0 <= t < manifest_field_lines().len() ==> {
            let f = #[trigger] manifest_field_lines()[t];
            info_lines(pkgname, entry)[f.0] == f.1 + first_text(entry_manifest(entry), f.2)
        },
{
    let lines = info_lines(pkgname, entry);
    let fs = manifest_field_lines();
    assert(lines.len() == 25);
    assert forall|t: int| 0 <= t < fs.len() implies {
        let f = #[trigger] fs[t];
        lines[f.0] == f.1 + first_text(entry_manifest(entry), f.2)
    } by {
        let f = fs[t];
        if t == 0 {
            assert(f == fs[0]);
        } else if t == 1 {
            assert(f == fs[1]);
        } else if t == 2 {
            assert(f == fs[2]);
        } else if t == 3 {
            assert(f == fs[3]);
        } else if t == 4 {
            assert(f == fs[4]);
        } else if t == 5 {
            assert(f == fs[5]);
        } else if t == 6 {
            assert(f == fs[6]);
        } else if t == 7 {
            assert(f == fs[7]);
        } else if t == 8 {
            assert(f == fs[8]);
        } else if t == 9 {
            assert(f == fs[9]);
        } else if t == 10 {
            assert(f == fs[10]);
        } else if t == 11 {
            assert(f == fs[11]);
        } else if t == 12 {
            assert(f == fs[12]);
        } else if t == 13 {
            assert(f == fs[13]);
        } else if t == 14 {
            assert(f == fs[14]);
        } else if t == 15 {
            assert(f == fs[15]);
        } else if t == 16 {
            assert(f == fs[16]);
        } else if t == 17 {
            assert(f == fs[17]);
        } else if t == 18 {
            assert(f == fs[18]);
        }
    }
}

fn labeled(label: &str, value: &str) -> (r: String)
    ensures
        r@ == label@ + value@,
{
    let mut out = copy_str(label);
    append_str(&mut out, value);
    out
}

fn installed_at_exec(entry: &JsonValue) -> (r: String)
    ensures
        r@ == installed_at_text(*entry),
{
    match entry.get("installed_at") {
        Some(JsonValue::Number(t)) => {
            let cs = crate::text::chars_of(t.as_str());
            match crate::text::parse_u64_chars(&cs) {
                Some(n) => decimal_string(n),
                None => {
                    let e = String::new();
                    proof {
                        reveal_strlit("");
                    }
                    assert(e@ =~= Seq::<char>::empty());
                    e
                },
            }
        },
        _ => {
            let e = String::new();
            proof {
                reveal_strlit("");
            }
            assert(e@ =~= Seq::<char>::empty());
            e
        },
    }
}

/// The details of the installed package `pkgname`, one labelled line each;
/// a package that is not installed is an argument error.
pub fn query_info(db: &JsonValue, pkgname: &str) -> (r: Result<Vec<String>, CliError>)
    ensures
        match installed_entry(*db, pkgname@) {
            Some(entry) => r matches Ok(lines) && string_views(lines@) == info_lines(pkgname@, entry),
            None => r matches Err(e) && e.code == E_ARG_INVALID && e.message@ == "not installed: "@ + pkgname@,
        },
{
    let found = match db.get("installed") {
        Some(installed) => installed.get(pkgname),
        None => None,
    };
    let entry = match found {
        Some(e) => e,
        None => {
            let mut m = copy_str("not installed: ");
            append_str(&mut m, pkgname);
            return Err(CliError::new(E_ARG_INVALID, m.as_str()));
        },
    };
    let null = JsonValue::Null;
    let m: &JsonValue = match entry.get("manifest") {
        Some(m) => m,
        None => &null,
    };
    assert(*m == entry_manifest(*entry));
    let pkgver = get_first(m, "pkgver");
    let pkgrel = get_first(m, "pkgrel");
    let url = get_first(m, "url");
    let program = if url.as_str().is_empty() {
        get_first(m, "origin")
    } else {
        url
    };
    let size = get_first(m, "size");
    let mut lines: Vec<String> = Vec::new();
    lines.push(labeled("Name            : ", pkgname));
    lines.push(labeled("Version         : ", pkgver_cmp_key(pkgver.as_str(), pkgrel.as_str()).as_str()));
    lines.push(labeled("Pkgver          : ", pkgver.as_str()));
    lines.push(labeled("Pkgrel          : ", pkgrel.as_str()));
    lines.push(labeled("AppName         : ", get_first(m, "appname").as_str()));
    lines.push(labeled("Program URL     : ", program.as_str()));
    lines.push(labeled("PkgDesc         : ", get_first(m, "pkgdesc").as_str()));
    lines.push(labeled("LuCI URL        : ", get_first(m, "luci_url").as_str()));
    lines.push(labeled("Protocol        : ", get_first(m, "protocol").as_str()));
    lines.push(labeled("Branch          : ", get_first(m, "branch").as_str()));
    lines.push(labeled("LuCI Desc       : ", get_first(m, "luci_desc").as_str()));
    lines.push(labeled("OS              : ", get_first(m, "os").as_str()));
    lines.push(labeled("Platform        : ", get_first(m, "platform").as_str()));
    lines.push(labeled("Arch            : ", get_first(m, "arch").as_str()));
    lines.push(labeled("Uname           : ", get_first(m, "uname").as_str()));
    lines.push(labeled("Type            : ", get_first(m, "type").as_str()));
    lines.push(labeled("Source          : ", get_first(m, "source").as_str()));
    lines.push(labeled("PkgMgr          : ", get_first(m, "pkgmgr").as_str()));
    lines.push(labeled("Packager        : ", get_first(m, "packager").as_str()));
    lines.push(labeled("Build Date      : ", get_first(m, "builddate").as_str()));
    lines.push(labeled("Size            : ", format_size_display(size.as_str()).as_str()));
    lines.push(labeled("Installed At    : ", installed_at_exec(entry).as_str()));
    lines.push(labeled("Installed From  : ", get_str_or(entry, "pkgfile", "").as_str()));
    lines.push(labeled("License         : ", get_first(m, "license").as_str()));
    lines.push(labeled("Visibility      : ", get_first(m, "visibility").as_str()));
    proof {
        reveal_strlit("");
    }
    assert(string_views(lines@) =~= info_lines(pkgname@, *entry));
    Ok(lines)
}

/// The paths in an entry's `files` list, strings only, in order.
pub open spec fn file_list(entry: JsonValue) -> Seq<Seq<char>> {
    match json_get(entry, "files"@) {
        Some(JsonValue::Array(items)) => items@.filter(|x: JsonValue| x is String).map_values(
            |x: JsonValue| x->String_0@,
        ),
        _ => Seq::empty(),
    }
}

/// The files the installed package `pkgname` put in place; a package that
/// is not installed is an argument error.
pub fn query_files(db: &JsonValue, pkgname: &str) -> (r: Result<Vec<String>, CliError>)
    ensures
        match installed_entry(*db, pkgname@) {
            Some(entry) => r matches Ok(files) && string_views(files@) == file_list(entry),
            None => r matches Err(e) && e.code == E_ARG_INVALID && e.message@ == "not installed: "@ + pkgname@,
        },
{
    let found = match db.get("installed") {
        Some(installed) => installed.get(pkgname),
        None => None,
    };
    let entry = match found {
        Some(e) => e,
        None => {
            let mut m = copy_str("not installed: ");
            append_str(&mut m, pkgname);
            return Err(CliError::new(E_ARG_INVALID, m.as_str()));
        },
    };
    let mut out: Vec<String> = Vec::new();
    match entry.get("files") {
        Some(JsonValue::Array(items)) => {
            let mut i: usize = 0;
            while i < items.len()
                invariant
                    i <= items@.len(),
                    string_views(out@) == items@.take(i as int).filter(|x: JsonValue| x is String).map_values(
                        |x: JsonValue| x->String_0@,
                    ),
                decreases items.len() - i,
            {
                let ghost before = string_views(out@);
                proof {
                    let t = items@.take(i + 1);
                    assert(t.drop_last() =~= items@.take(i as int));
                    assert(t.last() == items@[i as int]);
                    reveal(Seq::filter);
                }
                match &items[i] {
                    JsonValue::String(p) => {
                        out.push(copy_str(p.as_str()));
                        assert(string_views(out@) =~= before.push(p@));
                    },
                    _ => {},
                }
                i += 1;
            }
            assert(items@.take(items@.len() as int) =~= items@);
        },
        _ => {},
    }
    Ok(out)
}

} // verus!
