//! Installing an app by selector: whether it comes from the distribution
//! feeds or from a Pica repository, and what an install from the feeds
//! records.
use vstd::prelude::*;
use crate::text::{copy_str, append_str, str_eq, string_views};
use crate::json::{JsonValue, json_get, keys_sorted};
use crate::strset::{step_less, lemma_chain_sorted};
use crate::text::{Order, lex_order};
use crate::pica_pkg_core::manifest::{first_text, get_first};
use crate::pica_pkg_cli::types::{CliError, FeedPolicy, E_CONFIG_INVALID};
use crate::pica_pkg_cli::state::{is_text, is_text_list};

verus! {

/// Where an app is installed from.
#[derive(Debug, Clone, Copy, PartialEq, Eq, Structural)]
pub enum InstallRoute {
    /// The distribution feeds, through opkg.
    ViaOpkg,
    /// A Pica repository.
    FromRepo,
}

/// The `source` an installed package's manifest records.
pub open spec fn installed_source(db: JsonValue, pkgname: Seq<char>) -> Seq<char> {
    match json_get(db, "installed"@) {
        Some(installed) => match json_get(installed, pkgname) {
            Some(entry) => match json_get(entry, "manifest"@) {
                Some(m) => first_text(m, "source"@),
                None => Seq::empty(),
            },
            None => Seq::empty(),
        },
        None => Seq::empty(),
    }
}

/// An installed app is updated from where it came from: the feeds for
/// `opkg`, a repository for `pica`; otherwise nothing is decided yet.
pub fn route_for_installed(db: &JsonValue, pkgname: Option<&str>) -> (r: Option<InstallRoute>)
    ensures
        match pkgname {
            None => r is None,
            Some(p) => if installed_source(*db, p@) == "opkg"@ {
                r == Some(InstallRoute::ViaOpkg)
            } else if installed_source(*db, p@) == "pica"@ {
                r == Some(InstallRoute::FromRepo)
            } else {
                r is None
            },
        },
{
    let p = match pkgname {
        Some(p) => p,
        None => {
            return None;
        },
    };
    let source = match db.get("installed") {
        Some(installed) => match installed.get(p) {
            Some(entry) => match entry.get("manifest") {
                Some(m) => get_first(m, "source"),
                None => String::new(),
            },
            None => String::new(),
        },
        None => String::new(),
    };
    proof {
        reveal_strlit("");
        reveal_strlit("opkg");
        reveal_strlit("pica");
    }
    if str_eq(source.as_str(), "opkg") {
        Some(InstallRoute::ViaOpkg)
    } else if str_eq(source.as_str(), "pica") {
        Some(InstallRoute::FromRepo)
    } else {
        assert(source@.len() == 0 ==> source@ =~= Seq::<char>::empty());
        None
    }
}

/// Whether a feed package is taken over a bundled one: without prompts
/// under the policies ask, feed-first and feed-only; with prompts under any
/// policy but packaged-only.
pub open spec fn prefers_feed(non_interactive: bool, policy: FeedPolicy) -> bool {
    if non_interactive {
        policy == FeedPolicy::Ask || policy == FeedPolicy::FeedFirst || policy == FeedPolicy::FeedOnly
    } else {
        policy != FeedPolicy::PackagedOnly
    }
}

/// A plain app name that the feeds carry is installed from them when the
/// policy prefers the feeds; anything else comes from a repository.
pub fn route_by_feed(structured: bool, feed_has_app: bool, non_interactive: bool, policy: FeedPolicy) -> (r:
    InstallRoute)
    ensures
        r == (if !structured && feed_has_app && prefers_feed(non_interactive, policy) {
            InstallRoute::ViaOpkg
        } else {
            InstallRoute::FromRepo
        }),
{
    if !structured && feed_has_app {
        let prefer = if non_interactive {
            match policy {
                FeedPolicy::Ask | FeedPolicy::FeedFirst | FeedPolicy::FeedOnly => true,
                _ => false,
            }
        } else {
            match policy {
                FeedPolicy::PackagedOnly => false,
                _ => true,
            }
        };
        if prefer {
            return InstallRoute::ViaOpkg;
        }
    }
    InstallRoute::FromRepo
}

/// The feed packages that make up an app: the app, its LuCI app, and for
/// Chinese its LuCI translation.
pub open spec fn feed_candidates(appname: Seq<char>, lang: Seq<char>) -> Seq<Seq<char>> {
    let base = seq![appname, "luci-app-"@ + appname];
    if lang == "zh-cn"@ {
        base.push("luci-i18n-"@ + appname + "-"@ + lang)
    } else {
        base
    }
}

/// The feed packages that make up an app.
pub fn opkg_candidates(appname: &str, lang: &str) -> (r: Vec<String>)
    ensures
        string_views(r@) == feed_candidates(appname@, lang@),
{
    let mut out: Vec<String> = Vec::new();
    out.push(copy_str(appname));
    let mut luci = copy_str("luci-app-");
    append_str(&mut luci, appname);
    out.push(luci);
    if str_eq(lang, "zh-cn") {
        let mut i18n = copy_str("luci-i18n-");
        append_str(&mut i18n, appname);
        append_str(&mut i18n, "-");
        append_str(&mut i18n, lang);
        out.push(i18n);
    }
    assert(string_views(out@) =~= feed_candidates(appname@, lang@));
    out
}

/// The candidates the feeds carry, in order.
pub open spec fn present_only(cands: Seq<Seq<char>>, present: Seq<bool>) -> Seq<Seq<char>>
    decreases cands.len(),
{
    if cands.len() == 0 || present.len() < cands.len() {
        Seq::empty()
    } else if present[cands.len() - 1] {
        present_only(cands.drop_last(), present.take(cands.len() - 1)).push(cands.last())
    } else {
        present_only(cands.drop_last(), present.take(cands.len() - 1))
    }
}

/// The packages to install from the feeds: the candidates found there; an
/// app none of whose packages is there is an error.
pub fn opkg_install_list(appname: &str, candidates: &Vec<String>, present: &Vec<bool>) -> (r: Result<
    Vec<String>,
    CliError,
>)
    requires
        candidates@.len() == present@.len(),
    ensures
        present_only(string_views(candidates@), present@).len() == 0 ==> (r matches Err(e) && e.code
            == E_CONFIG_INVALID && e.message@ == "opkg: package not found: "@ + appname@),
        present_only(string_views(candidates@), present@).len() > 0 ==> (r matches Ok(v) && string_views(v@)
            == present_only(string_views(candidates@), present@)),
{
    let ghost cs = string_views(candidates@);
    let mut out: Vec<String> = Vec::new();
    let mut i: usize = 0;
    while i < candidates.len()
        invariant
            i <= candidates@.len(),
            candidates@.len() == present@.len(),
            cs == string_views(candidates@),
            string_views(out@) == present_only(cs.take(i as int), present@.take(i as int)),
        decreases candidates.len() - i,
    {
        let ghost t = cs.take(i + 1);
        assert(t.drop_last() =~= cs.take(i as int));
        assert(present@.take(i + 1).take(i as int) =~= present@.take(i as int));
        if present[i] {
            let ghost before = string_views(out@);
            out.push(copy_str(candidates[i].as_str()));
            assert(string_views(out@) =~= before.push(candidates@[i as int]@));
        }
        i += 1;
    }
    assert(cs.take(candidates@.len() as int) =~= cs);
    assert(present@.take(present@.len() as int) =~= present@);
    if out.len() == 0 {
        let mut m = copy_str("opkg: package not found: ");
        append_str(&mut m, appname);
        return Err(CliError::new(E_CONFIG_INVALID, m.as_str()));
    }
    Ok(out)
}

/// The version recorded for a feed install: the app package's, else the
/// first installed package's.
pub fn opkg_base_version(app_version: Option<&str>, first_version: Option<&str>) -> (r: String)
    ensures
        r@ == (match app_version {
            Some(v) if v@.len() > 0 => v@,
            _ => match first_version {
                Some(f) => f@,
                None => Seq::empty(),
            },
        }),
{
    proof {
        reveal_strlit("");
    }
    match app_version {
        Some(v) if !v.is_empty() => copy_str(v),
        _ => match first_version {
            Some(f) => copy_str(f),
            None => {
                let e = String::new();
                assert(e@ =~= Seq::<char>::empty());
                e
            },
        },
    }
}

/// The manifest recorded for an app installed from the feeds.
pub open spec fn is_feed_manifest(
    r: JsonValue,
    appname: Seq<char>,
    branch: Seq<char>,
    pkgver: Seq<char>,
    os: Seq<char>,
    platform: Seq<char>,
    packages: Seq<Seq<char>>,
) -> bool {
    &&& r is Object
    &&& keys_sorted(r->Object_0@)
    &&& r->Object_0@.len() == 10
    &&& r->Object_0@[0].0@ == "appname"@ && is_text(r->Object_0@[0].1, appname)
    &&& r->Object_0@[1].0@ == "arch"@ && is_text(r->Object_0@[1].1, "all"@)
    &&& r->Object_0@[2].0@ == "branch"@ && is_text(r->Object_0@[2].1, branch)
    &&& r->Object_0@[3].0@ == "opkg"@ && is_text_list(r->Object_0@[3].1, packages)
    &&& r->Object_0@[4].0@ == "os"@ && is_text(r->Object_0@[4].1, os)
    &&& r->Object_0@[5].0@ == "pkgmgr"@ && is_text(r->Object_0@[5].1, "opkg"@)
    &&& r->Object_0@[6].0@ == "pkgname"@ && is_text(r->Object_0@[6].1, appname)
    &&& r->Object_0@[7].0@ == "pkgver"@ && is_text(r->Object_0@[7].1, pkgver)
    &&& r->Object_0@[8].0@ == "platform"@ && is_text(r->Object_0@[8].1, platform)
    &&& r->Object_0@[9].0@ == "source"@ && is_text(r->Object_0@[9].1, "opkg"@)
}

fn text(s: &str) -> (r: JsonValue)
    ensures
        is_text(r, s@),
{
    JsonValue::String(copy_str(s))
}

/// The manifest recorded for an app installed from the feeds.
pub fn opkg_manifest(
    appname: &str,
    branch: &str,
    pkgver: &str,
    os: &str,
    platform: &str,
    packages: &Vec<String>,
) -> (r: JsonValue)
    ensures
        is_feed_manifest(r, appname@, branch@, pkgver@, os@, platform@, string_views(packages@)),
{
    let mut items: Vec<JsonValue> = Vec::new();
    let mut i: usize = 0;
    while i < packages.len()
        invariant
            i <= packages@.len(),
            items@.len() == i,
            forall|k: int| 0 <= k < i ==> is_text(#[trigger] items@[k], packages@[k]@),
        decreases packages.len() - i,
    {
        items.push(text(packages[i].as_str()));
        i += 1;
    }
    let mut es: Vec<(String, JsonValue)> = Vec::new();
    es.push((copy_str("appname"), text(appname)));
    es.push((copy_str("arch"), text("all")));
    es.push((copy_str("branch"), text(branch)));
    es.push((copy_str("opkg"), JsonValue::Array(items)));
    es.push((copy_str("os"), text(os)));
    es.push((copy_str("pkgmgr"), text("opkg")));
    es.push((copy_str("pkgname"), text(appname)));
    es.push((copy_str("pkgver"), text(pkgver)));
    es.push((copy_str("platform"), text(platform)));
    es.push((copy_str("source"), text("opkg")));
    proof {
        reveal_strlit("appname");
        reveal_strlit("arch");
        reveal_strlit("branch");
        reveal_strlit("opkg");
        reveal_strlit("os");
        reveal_strlit("pkgmgr");
        reveal_strlit("pkgname");
        reveal_strlit("pkgver");
        reveal_strlit("platform");
        reveal_strlit("source");
        reveal_with_fuel(lex_order, 5);
        let ks = seq![
            "appname"@,
            "arch"@,
            "branch"@,
            "opkg"@,
            "os"@,
            "pkgmgr"@,
            "pkgname"@,
            "pkgver"@,
            "platform"@,
            "source"@,
        ];
        assert(step_less(ks, 0));
        assert(step_less(ks, 1));
        assert(step_less(ks, 2));
        assert(step_less(ks, 3));
        assert(step_less(ks, 4));
        assert(step_less(ks, 5));
        assert(step_less(ks, 6));
        assert(step_less(ks, 7));
        assert(step_less(ks, 8));
        lemma_chain_sorted(ks);
        assert forall|a: int, b: int| 0 <= a < b < es@.len() implies lex_order(
            #[trigger] es@[a].0@,
            #[trigger] es@[b].0@,
        ) == Order::Less by {
            assert(es@[a].0@ == ks[a]);
            assert(es@[b].0@ == ks[b]);
        }
        assert(string_views(packages@).len() == packages@.len());
        assert forall|k: int| 0 <= k < packages@.len() implies is_text(
            #[trigger] items@[k],
            string_views(packages@)[k],
        ) by {}
    }
    JsonValue::Object(es)
}

} // verus!
