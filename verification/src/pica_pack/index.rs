//! The repository index a build keeps beside the packages of a backend
//! (`repo.json`): each built package has one entry there, found by its file
//! name, carrying its manifest as an object with the backend added.
use vstd::prelude::*;
use crate::text::{
    trim, split_once_spec, text_lines, text_lines_exec, chars_of, trim_chars, sub_chars,
    first_index_of_exec, string_of, string_views, copy_str, str_eq,
};
use crate::json::{JsonValue, keys_sorted, find_key_exec, json_str};
use crate::pica_pkg_core::manifest::{entry_of, object_insert_absent};
use crate::pica_pack::backend::{BuildBackend, backend_name};

verus! {

/// A package of a backend's repository index.
#[derive(Debug)]
pub struct IndexPackage {
    pub pkgname: String,
    pub pkgver: String,
    pub pkgrel: String,
    pub platform: String,
    pub arch: String,
    pub filename: String,
    pub sha256: String,
    pub appname: Option<String>,
    pub branch: Option<String>,
    pub protocol: Option<String>,
    pub url: Option<String>,
    pub origin: Option<String>,
    pub luci_url: Option<String>,
    pub luci_desc: Option<String>,
    pub pica: Option<String>,
    pub download_url: Option<String>,
    pub manifest: Option<JsonValue>,
}

/// A backend's repository index.
#[derive(Debug)]
pub struct PackageIndex {
    pub schema: i64,
    pub packages: Vec<IndexPackage>,
}

impl PackageIndex {
    /// The index a backend starts with, and the one kept when the file
    /// there cannot be read as an index.
    pub fn empty() -> (r: PackageIndex)
        ensures
            r.schema == 1,
            r.packages@.len() == 0,
    {
        PackageIndex { schema: 1, packages: Vec::new() }
    }
}

/// The key and value of a manifest line `key = value`, both trimmed; a line
/// without `=`, or with an empty key or value, carries none.
pub open spec fn manifest_pair(line: Seq<char>) -> Option<(Seq<char>, Seq<char>)> {
    match split_once_spec(line, '=') {
        Some((k, v)) => if trim(k).len() > 0 && trim(v).len() > 0 {
            Some((trim(k), trim(v)))
        } else {
            None
        },
        None => None,
    }
}

/// The pairs of the lines that carry one, in order.
pub open spec fn pairs_of(lines: Seq<Seq<char>>) -> Seq<(Seq<char>, Seq<char>)>
    decreases lines.len(),
{
    if lines.len() == 0 {
        Seq::empty()
    } else {
        pairs_of(lines.drop_last()) + match manifest_pair(lines.last()) {
            Some(p) => seq![p],
            None => Seq::empty(),
        }
    }
}

/// The value of the last pair with key `k`.
pub open spec fn last_value(pairs: Seq<(Seq<char>, Seq<char>)>, k: Seq<char>) -> Option<Seq<char>>
    decreases pairs.len(),
{
    if pairs.len() == 0 {
        None
    } else if pairs.last().0 == k {
        Some(pairs.last().1)
    } else {
        last_value(pairs.drop_last(), k)
    }
}

/// The entry under `k` of the manifest object of an index entry: `pkgmgr`
/// is the backend; any other key has the value of its last line.
pub open spec fn index_manifest_value(text: Seq<char>, backend: Seq<char>, k: Seq<char>) -> Option<Seq<char>> {
    if k == "pkgmgr"@ {
        Some(backend)
    } else {
        last_value(pairs_of(text_lines(text)), k)
    }
}

/// The entries of an object whose values are the given texts, by key.
pub open spec fn object_holds(es: Seq<(String, JsonValue)>, f: spec_fn(Seq<char>) -> Option<Seq<char>>) -> bool {
    &&& keys_sorted(es)
    &&& forall|k: Seq<char>|
        #![trigger entry_of(es, k)]
        json_str(entry_of(es, k)) == f(k) && (entry_of(es, k) is Some <==> f(k) is Some)
}

proof fn lemma_last_value_prepend(p: (Seq<char>, Seq<char>), t: Seq<(Seq<char>, Seq<char>)>, k: Seq<char>)
    ensures
        last_value(seq![p] + t, k) == match last_value(t, k) {
            Some(v) => Some(v),
            None => if p.0 == k {
                Some(p.1)
            } else {
                None
            },
        },
    decreases t.len(),
{
    let u = seq![p] + t;
    if t.len() == 0 {
        assert(u.last() == p);
        assert(u.drop_last() =~= Seq::<(Seq<char>, Seq<char>)>::empty());
        assert(last_value(u.drop_last(), k) is None);
    } else {
        assert(u.last() == t.last());
        assert(u.drop_last() =~= seq![p] + t.drop_last());
        lemma_last_value_prepend(p, t.drop_last(), k);
        if t.last().0 != k {
            assert(last_value(u, k) == last_value(seq![p] + t.drop_last(), k));
            assert(last_value(t, k) == last_value(t.drop_last(), k));
        }
    }
}

fn manifest_pairs(text: &str) -> (r: Vec<(String, String)>)
    ensures
        r@.map_values(|x: (String, String)| (x.0@, x.1@)) == pairs_of(text_lines(text@)),
{
    let lines = text_lines_exec(text);
    let ghost ls = string_views(lines@);
    let mut out: Vec<(String, String)> = Vec::new();
    let mut n: usize = 0;
    while n < lines.len()
        invariant
            n <= lines@.len(),
            ls == string_views(lines@),
            ls == text_lines(text@),
            out@.map_values(|x: (String, String)| (x.0@, x.1@)) == pairs_of(ls.take(n as int)),
        decreases lines.len() - n,
    {
        assert(ls.take(n + 1).drop_last() =~= ls.take(n as int));
        assert(ls.take(n + 1).last() == lines@[n as int]@);
        let ghost before = out@.map_values(|x: (String, String)| (x.0@, x.1@));
        let l = chars_of(lines[n].as_str());
        match first_index_of_exec(&l, '=') {
            None => {
                assert(out@.map_values(|x: (String, String)| (x.0@, x.1@)) =~= pairs_of(ls.take(n + 1)));
            },
            Some(i) => {
                let ln = l.len();
                assert(i < ln);
                let k = sub_chars(&l, 0, i);
                let v = sub_chars(&l, i + 1, ln);
                assert(k@ =~= l@.take(i as int));
                assert(v@ =~= l@.skip(i + 1));
                let key = trim_chars(&k);
                let val = trim_chars(&v);
                if key.len() > 0 && val.len() > 0 {
                    out.push((string_of(&key), string_of(&val)));
                    assert(out@.map_values(|x: (String, String)| (x.0@, x.1@)) =~= before.push(
                        (key@, val@),
                    ));
                    assert(pairs_of(ls.take(n + 1)) =~= pairs_of(ls.take(n as int)).push((key@, val@)));
                } else {
                    assert(out@.map_values(|x: (String, String)| (x.0@, x.1@)) =~= pairs_of(ls.take(n + 1)));
                }
            },
        }
        n += 1;
    }
    assert(ls.take(lines@.len() as int) =~= ls);
    out
}

/// The manifest object of an index entry: each `key = value` line of the
/// manifest text with a non-empty key and value, a later line for a key
/// replacing an earlier one, and `pkgmgr` set to the backend.
pub fn index_manifest(text: &str, backend: BuildBackend) -> (r: JsonValue)
    ensures
        r matches JsonValue::Object(es) && object_holds(
            es@,
            |k: Seq<char>| index_manifest_value(text@, backend_name(backend), k),
        ),
{
    let pairs = manifest_pairs(text);
    let ghost pv = pairs@.map_values(|x: (String, String)| (x.0@, x.1@));
    let ghost bn = backend_name(backend);
    let ghost n = pairs@.len() as int;
    let mut es: Vec<(String, JsonValue)> = Vec::new();
    proof {
        crate::json::lemma_find_key_some(es@, "pkgmgr"@);
    }
    object_insert_absent(&mut es, "pkgmgr", JsonValue::String(copy_str(backend.as_str())));
    proof {
        assert forall|k: Seq<char>| #![trigger entry_of(es@, k)]
            json_str(entry_of(es@, k)) == (if k == "pkgmgr"@ {
                Some(bn)
            } else {
                last_value(pv.subrange(n, n), k)
            }) && (entry_of(es@, k) is Some <==> (if k == "pkgmgr"@ {
                Some(bn)
            } else {
                last_value(pv.subrange(n, n), k)
            }) is Some) by {
            assert(pv.subrange(n, n).len() == 0);
            if k != "pkgmgr"@ {
                crate::json::lemma_find_key_some(Seq::<(String, JsonValue)>::empty(), k);
            }
        }
    }
    let mut j: usize = pairs.len();
    while j > 0
        invariant
            j <= pairs@.len(),
            n == pairs@.len(),
            pv == pairs@.map_values(|x: (String, String)| (x.0@, x.1@)),
            keys_sorted(es@),
            forall|k: Seq<char>| #![trigger entry_of(es@, k)]
                json_str(entry_of(es@, k)) == (if k == "pkgmgr"@ {
                    Some(bn)
                } else {
                    last_value(pv.subrange(j as int, n), k)
                }) && (entry_of(es@, k) is Some <==> (if k == "pkgmgr"@ {
                    Some(bn)
                } else {
                    last_value(pv.subrange(j as int, n), k)
                }) is Some),
        decreases j,
    {
        j -= 1;
        let ghost old_es = es@;
        let ghost p = pv[j as int];
        proof {
            assert(pv.subrange(j as int, n) =~= seq![p] + pv.subrange(j + 1, n));
            assert forall|k: Seq<char>| #![trigger last_value(pv.subrange(j as int, n), k)]
                last_value(pv.subrange(j as int, n), k) == match last_value(pv.subrange(j + 1, n), k) {
                    Some(v) => Some(v),
                    None => if p.0 == k {
                        Some(p.1)
                    } else {
                        None
                    },
                } by {
                lemma_last_value_prepend(p, pv.subrange(j + 1, n), k);
            }
        }
        let key = pairs[j].0.as_str();
        match find_key_exec(&es, key) {
            Some(_) => {
                proof {
                    assert(entry_of(old_es, p.0) is Some);
                    assert forall|k: Seq<char>| #![trigger entry_of(es@, k)]
                        json_str(entry_of(es@, k)) == (if k == "pkgmgr"@ {
                            Some(bn)
                        } else {
                            last_value(pv.subrange(j as int, n), k)
                        }) && (entry_of(es@, k) is Some <==> (if k == "pkgmgr"@ {
                            Some(bn)
                        } else {
                            last_value(pv.subrange(j as int, n), k)
                        }) is Some) by {
                        assert(last_value(pv.subrange(j as int, n), k) == match last_value(pv.subrange(j + 1, n), k) {
                            Some(v) => Some(v),
                            None => if p.0 == k { Some(p.1) } else { None },
                        });
                    }
                }
            },
            None => {
                proof {
                    assert(entry_of(old_es, p.0) is None);
                }
                object_insert_absent(&mut es, key, JsonValue::String(pairs[j].1.clone()));
                proof {
                    assert forall|k: Seq<char>| #![trigger entry_of(es@, k)]
                        json_str(entry_of(es@, k)) == (if k == "pkgmgr"@ {
                            Some(bn)
                        } else {
                            last_value(pv.subrange(j as int, n), k)
                        }) && (entry_of(es@, k) is Some <==> (if k == "pkgmgr"@ {
                            Some(bn)
                        } else {
                            last_value(pv.subrange(j as int, n), k)
                        }) is Some) by {
                        assert(last_value(pv.subrange(j as int, n), k) == match last_value(pv.subrange(j + 1, n), k) {
                            Some(v) => Some(v),
                            None => if p.0 == k { Some(p.1) } else { None },
                        });
                        if k != p.0 {
                            assert(entry_of(es@, k) == entry_of(old_es, k));
                        }
                    }
                }
            },
        }
    }
    assert(pv.subrange(0, n) =~= pv);
    JsonValue::Object(es)
}

/// The packages of an index other than those with file name `f`, in order.
pub open spec fn without_file(ps: Seq<IndexPackage>, f: Seq<char>) -> Seq<IndexPackage> {
    ps.filter(|p: IndexPackage| p.filename@ != f)
}

/// The index with `entry` as the one package of its file name: packages
/// with that file name are dropped, the others keep their order, and
/// `entry` comes last.
pub fn index_with(index: PackageIndex, entry: IndexPackage) -> (r: PackageIndex)
    ensures
        r.schema == index.schema,
        r.packages@ == without_file(index.packages@, entry.filename@).push(entry),
{
    let PackageIndex { schema, packages } = index;
    let ghost orig = packages@;
    let ghost f = entry.filename@;
    let mut rest = packages;
    assert(orig.len() == rest.len());
    let mut out: Vec<IndexPackage> = Vec::new();
    let mut k: usize = 0;
    while rest.len() > 0
        invariant
            k <= orig.len(),
            orig.len() <= usize::MAX,
            f == entry.filename@,
            k + rest@.len() == orig.len(),
            rest@ == orig.skip(k as int),
            out@ == without_file(orig.take(k as int), f),
        decreases rest.len(),
    {
        let p = rest.remove(0);
        proof {
            assert(orig.take(k + 1).drop_last() =~= orig.take(k as int));
            assert(orig.take(k + 1).last() == p);
        }
        let keep = !str_eq(p.filename.as_str(), entry.filename.as_str());
        if keep {
            let ghost before = out@;
            assert(without_file(orig.take(k + 1), f) == before.push(orig[k as int])) by {
                reveal(Seq::filter);
                let t = orig.take(k + 1);
                assert(t.drop_last() == orig.take(k as int));
                assert(t.last() == orig[k as int]);
                assert(t.last().filename@ != f);
            }
            out.push(p);
        } else {
            assert(without_file(orig.take(k + 1), f) == without_file(orig.take(k as int), f)) by {
                reveal(Seq::filter);
            }
        }
        proof {
            assert(rest@ =~= orig.skip(k + 1));
        }
        k += 1;
    }
    assert(orig.skip(k as int).len() == 0);
    assert(orig.take(k as int) =~= orig);
    out.push(entry);
    PackageIndex { schema, packages: out }
}

/// The index entry of a built package: its names and target, its file
/// name and checksum, the app name set to the package name, the required
/// client version when there is one, and the manifest object of
/// `index_manifest`.
pub fn index_entry(
    pkgname: &str,
    pkgver: &str,
    pkgrel: &str,
    platform: &str,
    arch: &str,
    filename: &str,
    sha256: &str,
    pica: &str,
    manifest_text: &str,
    backend: BuildBackend,
) -> (r: IndexPackage)
    ensures
        r.pkgname@ == pkgname@,
        r.pkgver@ == pkgver@,
        r.pkgrel@ == pkgrel@,
        r.platform@ == platform@,
        r.arch@ == arch@,
        r.filename@ == filename@,
        r.sha256@ == sha256@,
        r.appname matches Some(a) && a@ == pkgname@,
        r.branch is None && r.protocol is None && r.url is None && r.origin is None,
        r.luci_url is None && r.luci_desc is None && r.download_url is None,
        pica@.len() == 0 ==> r.pica is None,
        pica@.len() > 0 ==> (r.pica matches Some(v) && v@ == pica@),
        r.manifest matches Some(JsonValue::Object(es)) && object_holds(
            es@,
            |k: Seq<char>| index_manifest_value(manifest_text@, backend_name(backend), k),
        ),
{
    proof {
        reveal_strlit("");
    }
    let pica_field = if str_eq(pica, "") {
        None
    } else {
        assert(pica@.len() > 0) by {
            if pica@.len() == 0 {
                assert(pica@ =~= ""@);
            }
        }
        Some(copy_str(pica))
    };
    IndexPackage {
        pkgname: copy_str(pkgname),
        pkgver: copy_str(pkgver),
        pkgrel: copy_str(pkgrel),
        platform: copy_str(platform),
        arch: copy_str(arch),
        filename: copy_str(filename),
        sha256: copy_str(sha256),
        appname: Some(copy_str(pkgname)),
        branch: None,
        protocol: None,
        url: None,
        origin: None,
        luci_url: None,
        luci_desc: None,
        pica: pica_field,
        download_url: None,
        manifest: Some(index_manifest(manifest_text, backend)),
    }
}

proof fn lemma_without_file_in(ps: Seq<IndexPackage>, f: Seq<char>, i: int)
    requires
        0 <= i < without_file(ps, f).len(),
    ensures
        ps.contains(without_file(ps, f)[i]),
    decreases ps.len(),
{
    reveal(Seq::filter);
    if ps.len() > 0 {
        let w0 = without_file(ps.drop_last(), f);
        if i < w0.len() {
            assert(without_file(ps, f)[i] == w0[i]);
            lemma_without_file_in(ps.drop_last(), f, i);
            let j = choose|j: int| 0 <= j < ps.drop_last().len() && ps.drop_last()[j] == w0[i];
            assert(ps[j] == w0[i]);
        } else {
            assert(without_file(ps, f)[i] == ps.last());
            assert(ps[ps.len() - 1] == ps.last());
        }
    }
}

/// After a build writes its entry, the index holds exactly one package of
/// that file name, the new entry, last; and every other package it held
/// before is still there, in its order.
pub proof fn law_one_entry_per_file(ps: Seq<IndexPackage>, e: IndexPackage)
    ensures
        ({
            let r = without_file(ps, e.filename@).push(e);
            &&& r.last() == e
            &&& forall|i: int| 0 <= i < r.len() - 1 ==> (#[trigger] r[i]).filename@ != e.filename@
            &&& forall|p: IndexPackage| p.filename@ != e.filename@ ==> (ps.contains(p) <==> r.contains(p))
        }),
{
    broadcast use vstd::seq_lib::group_filter_ensures;
    let w = without_file(ps, e.filename@);
    let r = w.push(e);
    assert forall|i: int| 0 <= i < r.len() - 1 implies (#[trigger] r[i]).filename@ != e.filename@ by {
        assert(r[i] == w[i]);
    }
    assert forall|p: IndexPackage| p.filename@ != e.filename@ implies (ps.contains(p) <==> r.contains(p)) by {
        if r.contains(p) {
            let i = choose|i: int| 0 <= i < r.len() && r[i] == p;
            assert(i < w.len());
            assert(w[i] == p);
            lemma_without_file_in(ps, e.filename@, i);
        }
        if ps.contains(p) {
            let i = choose|i: int| 0 <= i < ps.len() && ps[i] == p;
            ps.lemma_filter_contains(|q: IndexPackage| q.filename@ != e.filename@, i);
            assert(w.contains(p));
            let j = choose|j: int| 0 <= j < w.len() && w[j] == p;
            assert(r[j] == p);
        }
    }
}

} // verus!
