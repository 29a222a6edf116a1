//! The package database as a JSON document: lookups, and the entries
//! written and removed by installs and removes.
use vstd::prelude::*;
use crate::text::{Order, lex_order, str_eq, copy_str, append_str, string_views, decimal, decimal_string};
use crate::json::{JsonValue, json_get, find_key, find_key_exec, keys_sorted, lemma_find_key_some, str_or};
use crate::pica_core::selector::Selector;
use crate::pica_pkg_core::manifest::{first_text, get_first, entry_of, object_set, object_remove, object_insert_absent};
use crate::pica_pkg_cli::types::{CliError, E_DB_INVALID, E_RUNTIME};

verus! {

/// The installed entries are an object with keys in ascending order.
pub open spec fn installed_sorted(db: JsonValue) -> bool {
    field_sorted(db, "installed"@)
}

/// Whether the database lists `pkgname` as installed.
pub fn db_has_installed(db: &JsonValue, pkgname: &str) -> (r: bool)
    ensures
        r == (json_get(*db, "installed"@) matches Some(JsonValue::Object(ies)) && find_key(ies@, pkgname@) is Some),
{
    match db.get("installed") {
        Some(JsonValue::Object(ies)) => find_key_exec(ies, pkgname).is_some(),
        _ => false,
    }
}

/// The installed entry matches the selector: by package name, app name or
/// manifest package name, and by branch when the selector names one.
pub open spec fn entry_matches_selector(name: Seq<char>, entry: JsonValue, appname: Seq<char>, branch: Seq<char>) -> bool {
    let m = match json_get(entry, "manifest"@) {
        Some(v) => v,
        None => JsonValue::Null,
    };
    (name == appname || first_text(m, "appname"@) == appname || first_text(m, "pkgname"@) == appname)
        && (branch.len() == 0 || first_text(m, "branch"@) == branch)
}

/// The first installed entry, in key order, that matches.
pub open spec fn first_match(es: Seq<(String, JsonValue)>, appname: Seq<char>, branch: Seq<char>) -> Option<Seq<char>>
    decreases es.len(),
{
    if es.len() == 0 {
        None
    } else if entry_matches_selector(es[0].0@, es[0].1, appname, branch) {
        Some(es[0].0@)
    } else {
        first_match(es.drop_first(), appname, branch)
    }
}

/// The installed package a selector names, if any.
#[verifier::loop_isolation(false)]
pub fn db_find_installed_pkgname_by_selector(db: &JsonValue, selector: &Selector) -> (r: Option<String>)
    ensures
        match json_get(*db, "installed"@) {
            Some(JsonValue::Object(ies)) => match first_match(ies@, selector.appname@, selector.branch@) {
                Some(n) => r is Some && r->Some_0@ == n,
                None => r is None,
            },
            _ => r is None,
        },
{
    let ies = match db.get("installed") {
        Some(JsonValue::Object(ies)) => ies,
        _ => {
            return None;
        },
    };
    let mut i: usize = 0;
    assert(ies@.skip(0) =~= ies@);
    while i < ies.len()
        invariant
            i <= ies@.len(),
            first_match(ies@, selector.appname@, selector.branch@) == first_match(
                ies@.skip(i as int),
                selector.appname@,
                selector.branch@,
            ),
        decreases ies.len() - i,
    {
        assert(ies@.skip(i as int)[0] == ies@[i as int]);
        assert(ies@.skip(i as int).drop_first() =~= ies@.skip(i + 1));
        let name = &ies[i].0;
        let null = JsonValue::Null;
        let m = match ies[i].1.get("manifest") {
            Some(v) => v,
            None => &null,
        };
        let app = selector.appname.as_str();
        let key_matches = str_eq(name.as_str(), app) || str_eq(get_first(m, "appname").as_str(), app)
            || str_eq(get_first(m, "pkgname").as_str(), app);
        if key_matches {
            if selector.branch.as_str().is_empty() || str_eq(
                get_first(m, "branch").as_str(),
                selector.branch.as_str(),
            ) {
                return Some(name.clone());
            }
        }
        i += 1;
    }
    None
}

/// The database entry of an install.
pub open spec fn is_install_record(
    r: JsonValue,
    manifest: JsonValue,
    pkgfile: Seq<char>,
    files: Seq<Seq<char>>,
    now: u64,
) -> bool {
    &&& r is Object
    &&& keys_sorted(r->Object_0@)
    &&& r->Object_0@.len() == 4
    &&& r->Object_0@[0].0@ == "files"@
    &&& r->Object_0@[0].1 is Array
    &&& r->Object_0@[0].1->Array_0@.len() == files.len()
    &&& (forall|k: int| 0 <= k < files.len() ==> (#[trigger] r->Object_0@[0].1->Array_0@[k]) is String
        && r->Object_0@[0].1->Array_0@[k]->String_0@ == files[k])
    &&& r->Object_0@[1].0@ == "installed_at"@
    &&& r->Object_0@[1].1 is Number && r->Object_0@[1].1->Number_0@ == decimal(now as nat)
    &&& r->Object_0@[2].0@ == "manifest"@
    &&& r->Object_0@[2].1 == manifest
    &&& r->Object_0@[3].0@ == "pkgfile"@
    &&& r->Object_0@[3].1 is String && r->Object_0@[3].1->String_0@ == pkgfile
}

/// The database entry of an install: the stored manifest, the package file,
/// the installed files and the time.
pub fn install_record(manifest: JsonValue, pkgfile: &str, files: &[String], now: u64) -> (r: JsonValue)
    ensures
        is_install_record(r, manifest, pkgfile@, string_views(files@), now),
{
    let mut items: Vec<JsonValue> = Vec::new();
    let mut i: usize = 0;
    while i < files.len()
        invariant
            i <= files@.len(),
            items@.len() == i,
            forall|k: int| 0 <= k < i ==> (#[trigger] items@[k]) is String && items@[k]->String_0@ == files@[k]@,
        decreases files.len() - i,
    {
        items.push(JsonValue::String(files[i].clone()));
        i += 1;
    }
    let mut es: Vec<(String, JsonValue)> = Vec::new();
    es.push((copy_str("files"), JsonValue::Array(items)));
    es.push((copy_str("installed_at"), JsonValue::Number(decimal_string(now))));
    es.push((copy_str("manifest"), manifest));
    es.push((copy_str("pkgfile"), JsonValue::String(copy_str(pkgfile))));
    proof {
        reveal_strlit("files");
        reveal_strlit("installed_at");
        reveal_strlit("manifest");
        reveal_strlit("pkgfile");
        assert(lex_order("files"@, "installed_at"@) == Order::Less);
        assert(lex_order("installed_at"@, "manifest"@) == Order::Less);
        assert(lex_order("manifest"@, "pkgfile"@) == Order::Less);
        crate::strset::lemma_lex_order_trans("files"@, "installed_at"@, "manifest"@);
        crate::strset::lemma_lex_order_trans("files"@, "manifest"@, "pkgfile"@);
        crate::strset::lemma_lex_order_trans("installed_at"@, "manifest"@, "pkgfile"@);
        assert(keys_sorted(es@));
        assert(string_views(files@).len() == files@.len());
        assert forall|k: int| 0 <= k < files@.len() implies string_views(files@)[k] == files@[k]@ by {}
    }
    JsonValue::Object(es)
}

/// The document is an object with keys in ascending order, and so is its
/// `field` where that is an object.
pub open spec fn field_sorted(doc: JsonValue, field: Seq<char>) -> bool {
    &&& doc is Object ==> keys_sorted(doc->Object_0@)
    &&& match json_get(doc, field) {
        Some(JsonValue::Object(ies)) => keys_sorted(ies@),
        _ => true,
    }
}

/// `r` is the document `doc` with the entry `key` of its object `field`
/// set to `record` (or removed, for `None`), and nothing else changed.
pub open spec fn field_updated(doc: JsonValue, field: Seq<char>, key: Seq<char>, record: Option<JsonValue>, r: JsonValue) -> bool {
    &&& r is Object
    &&& field_sorted(r, field)
    &&& forall|k: Seq<char>| k != field ==> entry_of(r->Object_0@, k) == entry_of(doc->Object_0@, k)
    &&& json_get(r, field) matches Some(JsonValue::Object(ies))
    &&& entry_of(json_get(r, field)->Some_0->Object_0@, key) == record
    &&& forall|k: Seq<char>| k != key ==> entry_of(json_get(r, field)->Some_0->Object_0@, k) == match json_get(doc, field) {
        Some(JsonValue::Object(old_ies)) => entry_of(old_ies@, k),
        _ => None,
    }
}

/// `r` is the database `db` with the installed entry of `pkgname` set to
/// `record` (or removed, for `None`), and nothing else changed.
pub open spec fn db_updated(db: JsonValue, pkgname: Seq<char>, record: Option<JsonValue>, r: JsonValue) -> bool {
    field_updated(db, "installed"@, pkgname, record, r)
}

/// Sets (or, for `None`, removes) the entry `key` of the object `field`,
/// making `field` an empty object first where the document lacks it.
#[verifier::loop_isolation(false)]
pub fn set_field_entry(doc: &mut JsonValue, field: &str, key: &str, record: Option<JsonValue>) -> (r: Result<(), CliError>)
    requires
        field_sorted(*old(doc), field@),
    ensures
        !(*old(doc) is Object) ==> r is Err && r->Err_0.code == crate::pica_pkg_cli::types::E_RUNTIME
            && r->Err_0.message@ == "json root is not object"@ && *final(doc) == *old(doc),
        *old(doc) is Object && (json_get(*old(doc), field@) matches Some(v) && !(v is Object))
            ==> r is Err && r->Err_0.code == crate::pica_pkg_cli::types::E_RUNTIME && r->Err_0.message@
            == "json field '"@ + field@ + "' is not object"@,
        *old(doc) is Object && !(json_get(*old(doc), field@) matches Some(v) && !(v is Object))
            ==> r is Ok && field_updated(*old(doc), field@, key@, record, *final(doc)),
{
    let ghost old_db = *doc;
    crate::pica_pkg_cli::helpers::ensure_json_object_field(doc, field)?;
    let ghost mid = *doc;
    match doc {
        JsonValue::Object(es) => {
            proof {
                lemma_find_key_some(es@, field@);
            }
            match find_key_exec(es, field) {
                None => {
                    proof {
                        assert(false);
                    }
                    Err(CliError::new(E_DB_INVALID, "db installed is not object"))
                },
                Some(i) => {
                    let ghost before = es@;
                    let (k, mut inst) = es.remove(i);
                    match &mut inst {
                        JsonValue::Object(ies) => {
                            proof {
                                crate::json::lemma_find_key_some(before, field@);
                            }
                            match record {
                                Some(rec) => object_set(ies, key, rec),
                                None => object_remove(ies, key),
                            }
                        },
                        _ => {
                            proof {
                                assert(false);
                            }
                        },
                    }
                    es.insert(i, (k, inst));
                    proof {
                        let ne = es@;
                        assert(ne =~= before.update(i as int, ne[i as int]));
                        assert forall|a: int, b: int| 0 <= a < b < ne.len() implies lex_order(
                            #[trigger] ne[a].0@,
                            #[trigger] ne[b].0@,
                        ) == Order::Less by {
                            assert(ne[a].0@ == before[a].0@);
                            assert(ne[b].0@ == before[b].0@);
                        }
                        crate::json::lemma_find_key_some(ne, field@);
                        assert(find_key(ne, field@) == Some(i as int)) by {
                            crate::pica_pkg_core::manifest::lemma_sorted_find_key_pub(ne, i as int);
                        }
                        assert forall|k2: Seq<char>| k2 != field@ implies entry_of(ne, k2) == entry_of(before, k2) by {
                            crate::pica_pkg_core::manifest::lemma_sorted_entry_pub(ne, k2);
                            crate::pica_pkg_core::manifest::lemma_sorted_entry_pub(before, k2);
                            if exists|j: int| 0 <= j < before.len() && before[j].0@ == k2 {
                                let j = choose|j: int| 0 <= j < before.len() && before[j].0@ == k2;
                                assert(j != i);
                                assert(ne[j] == before[j]);
                            } else {
                                assert forall|j: int| 0 <= j < ne.len() implies ne[j].0@ != k2 by {
                                    if j != i {
                                        assert(ne[j] == before[j]);
                                    }
                                }
                            }
                        }
                    }
                    Ok(())
                },
            }
        },
        _ => {
            proof {
                assert(false);
            }
            Err(CliError::new(E_DB_INVALID, "db installed is not object"))
        },
    }
}

/// Sets (or, for `None`, removes) the installed entry of `pkgname`.
pub fn db_update_installed(db: &mut JsonValue, pkgname: &str, record: Option<JsonValue>) -> (r: Result<(), CliError>)
    requires
        installed_sorted(*old(db)),
    ensures
        !(*old(db) is Object) ==> r is Err && r->Err_0.message@ == "json root is not object"@,
        *old(db) is Object && (json_get(*old(db), "installed"@) matches Some(v) && !(v is Object))
            ==> r is Err && r->Err_0.message@ == "json field '"@ + "installed"@ + "' is not object"@,
        *old(db) is Object && !(json_get(*old(db), "installed"@) matches Some(v) && !(v is Object))
            ==> r is Ok && db_updated(*old(db), pkgname@, record, *final(db)),
{
    set_field_entry(db, "installed", pkgname, record)
}

/// Records an install in the database.
pub fn db_set_installed(db: &mut JsonValue, pkgname: &str, manifest: JsonValue, pkgfile: &str, files: &[String], now: u64) -> (r: Result<(), CliError>)
    requires
        installed_sorted(*old(db)),
    ensures
        *old(db) is Object && !(json_get(*old(db), "installed"@) matches Some(v) && !(v is Object))
            ==> r is Ok && exists|rec: JsonValue| is_install_record(rec, manifest, pkgfile@, string_views(files@), now)
            && db_updated(*old(db), pkgname@, Some(rec), *final(db)),
        !(*old(db) is Object && !(json_get(*old(db), "installed"@) matches Some(v) && !(v is Object))) ==> r is Err,
{
    let rec = install_record(manifest, pkgfile, files, now);
    let ghost g = rec;
    db_update_installed(db, pkgname, Some(rec))
}

/// Removes the installed entry of `pkgname` from the database.
pub fn db_del_installed(db: &mut JsonValue, pkgname: &str) -> (r: Result<(), CliError>)
    requires
        installed_sorted(*old(db)),
    ensures
        *old(db) is Object && !(json_get(*old(db), "installed"@) matches Some(v) && !(v is Object))
            ==> r is Ok && db_updated(*old(db), pkgname@, None, *final(db)),
        !(*old(db) is Object && !(json_get(*old(db), "installed"@) matches Some(v) && !(v is Object))) ==> r is Err,
{
    db_update_installed(db, pkgname, None)
}

/// After an install is recorded, the database lists the package with the
/// recorded entry.
pub proof fn law_recorded_install_is_listed(db: JsonValue, pkgname: Seq<char>, rec: JsonValue, r: JsonValue)
    requires
        db_updated(db, pkgname, Some(rec), r),
    ensures
        json_get(r, "installed"@) matches Some(JsonValue::Object(ies)) && find_key(ies@, pkgname) is Some,
        entry_of(json_get(r, "installed"@)->Some_0->Object_0@, pkgname) == Some(rec),
{
}

/// After a package is removed, the database no longer lists it, and every
/// other installed entry is as it was.
pub proof fn law_removed_package_is_unlisted(db: JsonValue, pkgname: Seq<char>, r: JsonValue, other: Seq<char>)
    requires
        db_updated(db, pkgname, None, r),
        other != pkgname,
    ensures
        json_get(r, "installed"@) matches Some(JsonValue::Object(ies)) && find_key(ies@, pkgname) is None,
        entry_of(json_get(r, "installed"@)->Some_0->Object_0@, other) == match json_get(db, "installed"@) {
            Some(JsonValue::Object(old_ies)) => entry_of(old_ies@, other),
            _ => None,
        },
{
}


proof fn lemma_first_match_some(es: Seq<(String, JsonValue)>, appname: Seq<char>, branch: Seq<char>, i: int)
    requires
        0 <= i < es.len(),
        entry_matches_selector(es[i].0@, es[i].1, appname, branch),
    ensures
        first_match(es, appname, branch) is Some,
    decreases i,
{
    if i > 0 && !entry_matches_selector(es[0].0@, es[0].1, appname, branch) {
        assert(es.drop_first()[i - 1] == es[i]);
        lemma_first_match_some(es.drop_first(), appname, branch, i - 1);
    }
}

/// After an install is recorded, a selector of its package name, and a
/// selector of the recorded app name and branch, each find an installed
/// package.
pub proof fn law_recorded_install_is_found(
    db: JsonValue,
    pkgname: Seq<char>,
    manifest: JsonValue,
    pkgfile: Seq<char>,
    files: Seq<Seq<char>>,
    now: u64,
    rec: JsonValue,
    r: JsonValue,
)
    requires
        is_install_record(rec, manifest, pkgfile, files, now),
        db_updated(db, pkgname, Some(rec), r),
    ensures
        first_match(json_get(r, "installed"@)->Some_0->Object_0@, pkgname, Seq::empty()) is Some,
        first_match(
            json_get(r, "installed"@)->Some_0->Object_0@,
            first_text(manifest, "appname"@),
            first_text(manifest, "branch"@),
        ) is Some,
{
    let es = json_get(r, "installed"@)->Some_0->Object_0@;
    lemma_find_key_some(es, pkgname);
    let i = find_key(es, pkgname)->Some_0;
    assert(es[i].1 == rec);
    let res = rec->Object_0@;
    reveal_strlit("manifest");
    crate::pica_pkg_core::manifest::lemma_sorted_find_key_pub(res, 2);
    assert(json_get(rec, "manifest"@) == Some(manifest));
    lemma_first_match_some(es, pkgname, Seq::empty(), i);
    lemma_first_match_some(es, first_text(manifest, "appname"@), first_text(manifest, "branch"@), i);
}

/// The value a JSON text `1` reads as.
pub open spec fn is_one(v: Option<JsonValue>) -> bool {
    v matches Some(JsonValue::Number(n)) && n@ == "1"@
}

/// A state document made ready for an update: where it is an object, the
/// same entries with `schema` set to 1 and `field` an empty object where it
/// was missing; any other value is replaced by a document with just those
/// two.
pub open spec fn doc_prepared(index: JsonValue, field: Seq<char>, r: JsonValue) -> bool {
    &&& r is Object
    &&& field_sorted(r, field)
    &&& is_one(entry_of(r->Object_0@, "schema"@))
    &&& match index {
        JsonValue::Object(es) => {
            &&& forall|k: Seq<char>| k != "schema"@ && k != field ==> entry_of(r->Object_0@, k) == entry_of(es@, k)
            &&& match entry_of(es@, field) {
                Some(v) => entry_of(r->Object_0@, field) == Some(v),
                None => entry_of(r->Object_0@, field) matches Some(JsonValue::Object(e)) && e@.len() == 0,
            }
        },
        _ => {
            &&& forall|k: Seq<char>| k != "schema"@ && k != field ==> entry_of(r->Object_0@, k) is None
            &&& entry_of(r->Object_0@, field) matches Some(JsonValue::Object(e)) && e@.len() == 0
        },
    }
}

/// Makes a state document ready for an update of its object `field`; a
/// `field` entry that is not an object is an error.
pub fn prepare_doc(index: JsonValue, field: &str) -> (r: Result<JsonValue, CliError>)
    requires
        field_sorted(index, field@),
        field@ != "schema"@,
    ensures
        (index is Object && (json_get(index, field@) matches Some(v) && !(v is Object))) ==> (r matches Err(e)
            && e.code == E_RUNTIME && e.message@ == "json field '"@ + field@ + "' is not object"@),
        !(index is Object && (json_get(index, field@) matches Some(v) && !(v is Object))) ==> (r matches Ok(
            v,
        ) && doc_prepared(index, field@, v)),
{
    let mut es: Vec<(String, JsonValue)> = match index {
        JsonValue::Object(es) => es,
        _ => Vec::new(),
    };
    let ghost start = es@;
    proof {
        crate::pica_pkg_core::manifest::lemma_sorted_entry_pub(start, field@);
        if !(index is Object) {
            assert(keys_sorted(start));
        }
    }
    let ghost old_repos = entry_of(start, field@);
    assert(json_get(index, field@) == if index is Object { entry_of(start, field@) } else { None });
    object_set(&mut es, "schema", JsonValue::Number(copy_str("1")));
    proof {
        reveal_strlit("schema");
    }
    let mut doc = JsonValue::Object(es);
    proof {
        crate::json::lemma_find_key_some(doc->Object_0@, field@);
        crate::pica_pkg_core::manifest::lemma_sorted_entry_pub(doc->Object_0@, field@);
        assert(json_get(doc, field@) == entry_of(doc->Object_0@, field@));
    }
    let ghost mid = doc;
    assert(mid is Object);
    assert(forall|k: Seq<char>| k != "schema"@ ==> entry_of(mid->Object_0@, k) == entry_of(start, k));
    assert(is_one(entry_of(mid->Object_0@, "schema"@)));
    match crate::pica_pkg_cli::helpers::ensure_json_object_field(&mut doc, field) {
        Ok(()) => {
            proof {
                assert(doc is Object);
                assert(entry_of(doc->Object_0@, "schema"@) == entry_of(mid->Object_0@, "schema"@));
                crate::pica_pkg_core::manifest::lemma_sorted_entry_pub(doc->Object_0@, field@);
                crate::json::lemma_find_key_some(doc->Object_0@, field@);
                assert(json_get(doc, field@) == entry_of(doc->Object_0@, field@));
                assert(field_sorted(doc, field@));
                assert(is_one(entry_of(doc->Object_0@, "schema"@)));
                if index is Object {
                    assert(start == index->Object_0@);
                    assert(forall|k: Seq<char>| k != "schema"@ && k != field@ ==> entry_of(doc->Object_0@, k) == entry_of(start, k));
                    match entry_of(start, field@) {
                        Some(v) => {
                            assert(entry_of(doc->Object_0@, field@) == Some(v));
                        },
                        None => {
                            assert(entry_of(doc->Object_0@, field@) matches Some(JsonValue::Object(e)) && e@.len() == 0);
                        },
                    }
                } else {
                    assert(start.len() == 0);
                    assert forall|k: Seq<char>| k != "schema"@ && k != field@ implies entry_of(doc->Object_0@, k) is None by {
                        assert(entry_of(start, k) is None);
                        assert(entry_of(mid->Object_0@, k) == entry_of(start, k));
                    }
                }
                assert(doc_prepared(index, field@, doc));
            }
            Ok(doc)
        },
        Err(e) => {
            proof {
                assert(index is Object);
            }
            Err(e)
        },
    }
}


/// A JSON string with the text `s`.
pub open spec fn is_text(v: JsonValue, s: Seq<char>) -> bool {
    v matches JsonValue::String(t) && t@ == s
}

/// A JSON list of the strings `ss`, in order.
pub open spec fn is_text_list(v: JsonValue, ss: Seq<Seq<char>>) -> bool {
    &&& v is Array
    &&& v->Array_0@.len() == ss.len()
    &&& forall|k: int| 0 <= k < ss.len() ==> is_text(#[trigger] v->Array_0@[k], ss[k])
}

/// The program address a report gives: the manifest's `url`, else its
/// `origin`.
pub open spec fn report_url(m: JsonValue) -> Seq<char> {
    if first_text(m, "url"@).len() == 0 {
        first_text(m, "origin"@)
    } else {
        first_text(m, "url"@)
    }
}

/// The package part of an install report.
pub open spec fn is_report_package(p: JsonValue, m: JsonValue) -> bool {
    &&& p is Object
    &&& keys_sorted(p->Object_0@)
    &&& p->Object_0@.len() == 9
    &&& p->Object_0@[0].0@ == "appname"@ && is_text(p->Object_0@[0].1, first_text(m, "appname"@))
    &&& p->Object_0@[1].0@ == "branch"@ && is_text(p->Object_0@[1].1, first_text(m, "branch"@))
    &&& p->Object_0@[2].0@ == "luci_url"@ && is_text(p->Object_0@[2].1, first_text(m, "luci_url"@))
    &&& p->Object_0@[3].0@ == "os"@ && is_text(p->Object_0@[3].1, first_text(m, "os"@))
    &&& p->Object_0@[4].0@ == "pkgname"@ && is_text(p->Object_0@[4].1, first_text(m, "pkgname"@))
    &&& p->Object_0@[5].0@ == "pkgrel"@ && is_text(p->Object_0@[5].1, first_text(m, "pkgrel"@))
    &&& p->Object_0@[6].0@ == "pkgver"@ && is_text(p->Object_0@[6].1, first_text(m, "pkgver"@))
    &&& p->Object_0@[7].0@ == "protocol"@ && is_text(p->Object_0@[7].1, first_text(m, "protocol"@))
    &&& p->Object_0@[8].0@ == "url"@ && is_text(p->Object_0@[8].1, report_url(m))
}

/// The report of an install: the packages the transaction and the app
/// stage added, the package's identity, the dependency check, the selector
/// and the time.
pub open spec fn is_report_entry(
    r: JsonValue,
    selector: Seq<char>,
    m: JsonValue,
    precheck: JsonValue,
    tx_added: Seq<Seq<char>>,
    app_added: Seq<Seq<char>>,
    now: u64,
) -> bool {
    &&& r is Object
    &&& keys_sorted(r->Object_0@)
    &&& r->Object_0@.len() == 5
    &&& r->Object_0@[0].0@ == "dependency_diff"@
    &&& r->Object_0@[0].1 is Object
    &&& r->Object_0@[0].1->Object_0@.len() == 2
    &&& r->Object_0@[0].1->Object_0@[0].0@ == "app_stage_added"@
    &&& is_text_list(r->Object_0@[0].1->Object_0@[0].1, app_added)
    &&& r->Object_0@[0].1->Object_0@[1].0@ == "transaction_added"@
    &&& is_text_list(r->Object_0@[0].1->Object_0@[1].1, tx_added)
    &&& r->Object_0@[1].0@ == "package"@ && is_report_package(r->Object_0@[1].1, m)
    &&& r->Object_0@[2].0@ == "precheck"@ && r->Object_0@[2].1 == precheck
    &&& r->Object_0@[3].0@ == "selector"@ && is_text(r->Object_0@[3].1, selector)
    &&& r->Object_0@[4].0@ == "updated_at"@
    &&& r->Object_0@[4].1 matches JsonValue::Number(n) && n@ == decimal(now as nat)
}

fn text_list(items: &[String]) -> (r: JsonValue)
    ensures
        is_text_list(r, string_views(items@)),
{
    let mut out: Vec<JsonValue> = Vec::new();
    let mut i: usize = 0;
    while i < items.len()
        invariant
            i <= items@.len(),
            out@.len() == i,
            forall|k: int| 0 <= k < i ==> is_text(#[trigger] out@[k], items@[k]@),
        decreases items.len() - i,
    {
        out.push(JsonValue::String(copy_str(items[i].as_str())));
        i += 1;
    }
    JsonValue::Array(out)
}

fn text_value(s: &str) -> (r: JsonValue)
    ensures
        is_text(r, s@),
{
    JsonValue::String(copy_str(s))
}

fn report_package(m: &JsonValue) -> (r: JsonValue)
    ensures
        is_report_package(r, *m),
{
    let url = get_first(m, "url");
    let program = if url.as_str().is_empty() {
        get_first(m, "origin")
    } else {
        url
    };
    let mut es: Vec<(String, JsonValue)> = Vec::new();
    es.push((copy_str("appname"), text_value(get_first(m, "appname").as_str())));
    es.push((copy_str("branch"), text_value(get_first(m, "branch").as_str())));
    es.push((copy_str("luci_url"), text_value(get_first(m, "luci_url").as_str())));
    es.push((copy_str("os"), text_value(get_first(m, "os").as_str())));
    es.push((copy_str("pkgname"), text_value(get_first(m, "pkgname").as_str())));
    es.push((copy_str("pkgrel"), text_value(get_first(m, "pkgrel").as_str())));
    es.push((copy_str("pkgver"), text_value(get_first(m, "pkgver").as_str())));
    es.push((copy_str("protocol"), text_value(get_first(m, "protocol").as_str())));
    es.push((copy_str("url"), text_value(program.as_str())));
    proof {
        reveal_strlit("appname");
        reveal_strlit("branch");
        reveal_strlit("luci_url");
        reveal_strlit("os");
        reveal_strlit("pkgname");
        reveal_strlit("pkgrel");
        reveal_strlit("pkgver");
        reveal_strlit("protocol");
        reveal_strlit("url");
        reveal_with_fuel(lex_order, 5);
        let ks = seq!["appname"@, "branch"@, "luci_url"@, "os"@, "pkgname"@, "pkgrel"@, "pkgver"@, "protocol"@, "url"@];
        assert(crate::strset::step_less(ks, 0));
        assert(crate::strset::step_less(ks, 1));
        assert(crate::strset::step_less(ks, 2));
        assert(crate::strset::step_less(ks, 3));
        assert(crate::strset::step_less(ks, 4));
        assert(crate::strset::step_less(ks, 5));
        assert(crate::strset::step_less(ks, 6));
        assert(crate::strset::step_less(ks, 7));
        crate::strset::lemma_chain_sorted(ks);
        assert(es@.len() == 9);
        assert forall|k: int| 0 <= k < 9 implies es@[k].0@ == ks[k] by {}
        assert forall|a: int, b: int| 0 <= a < b < es@.len() implies lex_order(
            #[trigger] es@[a].0@,
            #[trigger] es@[b].0@,
        ) == Order::Less by {
            assert(es@[a].0@ == ks[a]);
            assert(es@[b].0@ == ks[b]);
        }
    }
    JsonValue::Object(es)
}

/// The report of an install, as recorded under the package's name.
pub fn install_report_entry(
    selector: &str,
    manifest: &JsonValue,
    precheck: JsonValue,
    tx_added: &[String],
    app_added: &[String],
    now: u64,
) -> (r: JsonValue)
    ensures
        is_report_entry(r, selector@, *manifest, precheck, string_views(tx_added@), string_views(app_added@), now),
{
    let mut diff: Vec<(String, JsonValue)> = Vec::new();
    diff.push((copy_str("app_stage_added"), text_list(app_added)));
    diff.push((copy_str("transaction_added"), text_list(tx_added)));
    let mut es: Vec<(String, JsonValue)> = Vec::new();
    es.push((copy_str("dependency_diff"), JsonValue::Object(diff)));
    es.push((copy_str("package"), report_package(manifest)));
    es.push((copy_str("precheck"), precheck));
    es.push((copy_str("selector"), text_value(selector)));
    es.push((copy_str("updated_at"), JsonValue::Number(decimal_string(now))));
    proof {
        reveal_strlit("dependency_diff");
        reveal_strlit("package");
        reveal_strlit("precheck");
        reveal_strlit("selector");
        reveal_strlit("updated_at");
        reveal_with_fuel(lex_order, 3);
        let ks = seq!["dependency_diff"@, "package"@, "precheck"@, "selector"@, "updated_at"@];
        assert(crate::strset::step_less(ks, 0));
        assert(crate::strset::step_less(ks, 1));
        assert(crate::strset::step_less(ks, 2));
        assert(crate::strset::step_less(ks, 3));
        crate::strset::lemma_chain_sorted(ks);
        assert forall|a: int, b: int| 0 <= a < b < es@.len() implies lex_order(
            #[trigger] es@[a].0@,
            #[trigger] es@[b].0@,
        ) == Order::Less by {
            assert(es@[a].0@ == ks[a]);
            assert(es@[b].0@ == ks[b]);
        }
    }
    JsonValue::Object(es)
}

/// The report document made ready for a new entry: `None` where it could
/// not be read.
pub fn prepare_report(read: Option<JsonValue>) -> (r: Result<JsonValue, CliError>)
    requires
        read matches Some(v) ==> (v is Object || v is Null),
        read matches Some(v) ==> field_sorted(v, "reports"@),
    ensures
        ({
            let doc = match read {
                Some(v) => v,
                None => JsonValue::Null,
            };
            &&& (doc is Object && (json_get(doc, "reports"@) matches Some(v) && !(v is Object))) ==> (r matches Err(
                e,
            ) && e.code == E_RUNTIME && e.message@ == "json field 'reports' is not object"@)
            &&& !(doc is Object && (json_get(doc, "reports"@) matches Some(v) && !(v is Object))) ==> (r matches Ok(
                v,
            ) && doc_prepared(doc, "reports"@, v))
        }),
{
    let doc = match read {
        Some(v) => v,
        None => JsonValue::Null,
    };
    proof {
        reveal_strlit("schema");
        reveal_strlit("reports");
        reveal_strlit("json field '");
        reveal_strlit("' is not object");
        reveal_strlit("json field 'reports' is not object");
        assert("schema"@[1] != "reports"@[1]);
        assert("json field '"@ + "reports"@ + "' is not object"@ =~= "json field 'reports' is not object"@);
    }
    prepare_doc(doc, "reports")
}

/// A state file the tool creates when it is missing.
#[derive(Debug, Clone, Copy)]
pub enum StateFile {
    Conf,
    Db,
    Index,
    Report,
}

/// The content a missing state file is created with: the configuration
/// with no repositories and language `zh-cn`; the database, index and
/// report with schema 1 and no entries.
pub fn default_document(which: StateFile) -> (r: JsonValue)
    ensures
        r is Object,
        keys_sorted(r->Object_0@),
        r->Object_0@.len() == 2,
        match which {
            StateFile::Conf => is_text(r->Object_0@[0].1, "zh-cn"@) && r->Object_0@[0].0@ == "i18n"@
                && r->Object_0@[1].0@ == "repos"@ && (r->Object_0@[1].1 matches JsonValue::Array(a) && a@.len() == 0),
            StateFile::Db => r->Object_0@[0].0@ == "installed"@,
            StateFile::Index => r->Object_0@[0].0@ == "repos"@,
            StateFile::Report => r->Object_0@[0].0@ == "reports"@,
        },
        !(which is Conf) ==> (r->Object_0@[0].1 matches JsonValue::Object(e) && e@.len() == 0)
            && r->Object_0@[1].0@ == "schema"@ && is_one(Some(r->Object_0@[1].1)),
{
    let mut es: Vec<(String, JsonValue)> = Vec::new();
    match which {
        StateFile::Conf => {
            es.push((copy_str("i18n"), JsonValue::String(copy_str("zh-cn"))));
            es.push((copy_str("repos"), JsonValue::Array(Vec::new())));
        },
        _ => {
            let key = match which {
                StateFile::Db => "installed",
                StateFile::Index => "repos",
                _ => "reports",
            };
            es.push((copy_str(key), JsonValue::Object(Vec::new())));
            es.push((copy_str("schema"), JsonValue::Number(copy_str("1"))));
        },
    }
    proof {
        reveal_strlit("i18n");
        reveal_strlit("repos");
        reveal_strlit("installed");
        reveal_strlit("reports");
        reveal_strlit("schema");
        reveal_with_fuel(lex_order, 3);
        assert(lex_order("i18n"@, "repos"@) == Order::Less);
        assert(lex_order("installed"@, "schema"@) == Order::Less);
        assert(lex_order("repos"@, "schema"@) == Order::Less);
        assert(lex_order("reports"@, "schema"@) == Order::Less);
    }
    JsonValue::Object(es)
}

} // verus!
