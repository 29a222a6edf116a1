//! Where dependency groups come from: the distribution feeds through opkg,
//! or the package files bundled with the package.
use vstd::prelude::*;
use crate::text::{
    chars_of, starts_with, starts_with_str, str_eq, copy_str, append_str, string_views,
    decimal_string, decimal,
};
use crate::pica_pkg_cli::types::{
    App, CliError, FeedPolicy, E_CONFIG_INVALID, E_POLICY_INVALID, E_RUNTIME,
};

verus! {

/// The number of non-empty names.
pub open spec fn nonempty_count(l: Seq<Seq<char>>) -> nat
    decreases l.len(),
{
    if l.len() == 0 {
        0
    } else {
        nonempty_count(l.drop_last()) + if l.last().len() > 0 {
            1nat
        } else {
            0nat
        }
    }
}

/// How far the decision on feeds has come.
pub enum FeedStep {
    /// 1: install from the feeds; 0: from the bundled files; -1: refuse.
    Decided(i8),
    /// Update the feed lists, then report for each non-empty name, in order,
    /// whether the feeds offer it.
    ProbeFeeds,
    /// Ask this question; yes means the feeds.
    Ask(String),
}

/// The question put when some names are found in the feeds.
pub open spec fn feed_question(label: Seq<char>, available: nat, total: nat) -> Seq<char> {
    "Found "@ + decimal(available) + "/"@ + decimal(total) + " "@ + label
        + " packages in opkg feeds. Use feeds instead of packaged ipks?"@
}

/// The number of `true` entries.
pub open spec fn true_count(v: Seq<bool>) -> nat
    decreases v.len(),
{
    if v.len() == 0 {
        0
    } else {
        true_count(v.drop_last()) + if v.last() {
            1nat
        } else {
            0nat
        }
    }
}

/// The decision, given what is known so far: `probe` is the availability of
/// each non-empty name in the feeds, once probed; `answer` the reply to the
/// question, once asked.
pub open spec fn feed_step(
    policy: FeedPolicy,
    non_interactive: bool,
    label: Seq<char>,
    list: Seq<Seq<char>>,
    have_ipk_dir: bool,
    probe: Option<Seq<bool>>,
    answer: Option<bool>,
) -> Option<(int, Seq<char>)> {
    // (-2, question) stands for asking, (-3, _) for probing.
    match policy {
        FeedPolicy::FeedOnly => if list.len() == 0 {
            Some((-1, Seq::empty()))
        } else {
            Some((1, Seq::empty()))
        },
        FeedPolicy::PackagedOnly => Some((0, Seq::empty())),
        FeedPolicy::FeedFirst => if list.len() == 0 {
            Some((0, Seq::empty()))
        } else {
            Some((1, Seq::empty()))
        },
        FeedPolicy::PackagedFirst => if have_ipk_dir {
            Some((0, Seq::empty()))
        } else {
            Some((1, Seq::empty()))
        },
        FeedPolicy::Ask => if !have_ipk_dir {
            Some((1, Seq::empty()))
        } else if list.len() == 0 {
            Some((0, Seq::empty()))
        } else {
            match probe {
                None => Some((-3, Seq::empty())),
                Some(p) => if p.len() != nonempty_count(list) {
                    None
                } else if true_count(p) == 0 {
                    Some((0, Seq::empty()))
                } else if non_interactive {
                    Some((1, Seq::empty()))
                } else {
                    match answer {
                        None => Some(
                            (-2, feed_question(label, true_count(p), nonempty_count(list))),
                        ),
                        Some(yes) => if yes {
                            Some((1, Seq::empty()))
                        } else {
                            Some((0, Seq::empty()))
                        },
                    }
                },
            }
        },
    }
}

/// Whether `r` is the step that `feed_step` describes.
pub open spec fn step_matches(r: FeedStep, s: (int, Seq<char>)) -> bool {
    match r {
        FeedStep::Decided(d) => s.0 == d as int && -1 <= s.0 <= 1,
        FeedStep::ProbeFeeds => s.0 == -3,
        FeedStep::Ask(q) => s.0 == -2 && q@ == s.1,
    }
}

fn count_nonempty(list: &[String]) -> (r: usize)
    ensures
        r as nat == nonempty_count(string_views(list@)),
        r <= list@.len(),
{
    let mut n: usize = 0;
    let mut i: usize = 0;
    while i < list.len()
        invariant
            i <= list@.len(),
            n <= i,
            n as nat == nonempty_count(string_views(list@).take(i as int)),
        decreases list.len() - i,
    {
        assert(string_views(list@).take(i + 1).drop_last() =~= string_views(list@).take(i as int));
        if !list[i].as_str().is_empty() {
            n += 1;
        }
        i += 1;
    }
    assert(string_views(list@).take(list@.len() as int) =~= string_views(list@));
    n
}

fn count_true(v: &Vec<bool>) -> (r: usize)
    ensures
        r as nat == true_count(v@),
        r <= v@.len(),
{
    let mut n: usize = 0;
    let mut i: usize = 0;
    while i < v.len()
        invariant
            i <= v@.len(),
            n <= i,
            n as nat == true_count(v@.take(i as int)),
        decreases v.len() - i,
    {
        assert(v@.take(i + 1).drop_last() =~= v@.take(i as int));
        if v[i] {
            n += 1;
        }
        i += 1;
    }
    assert(v@.take(v@.len() as int) =~= v@);
    n
}

/// Whether to install a dependency group from the feeds (1), from the
/// bundled files (0), or to refuse (-1), under the app's feed policy. Under
/// the `ask` policy the caller probes the feeds and may have to ask; it
/// calls again with what it learned. `None` when `probe` does not have one
/// entry per non-empty name.
pub fn should_use_feeds(
    app: &App,
    label: &str,
    pkg_list: &[String],
    have_ipk_dir: bool,
    probe: Option<&Vec<bool>>,
    answer: Option<bool>,
) -> (r: Option<FeedStep>)
    ensures
        match feed_step(
            app.options.feed_policy,
            app.options.non_interactive,
            label@,
            string_views(pkg_list@),
            have_ipk_dir,
            match probe {
                Some(p) => Some(p@),
                None => None,
            },
            answer,
        ) {
            Some(s) => r is Some && step_matches(r->Some_0, s),
            None => r is None,
        },
{
    let empty = pkg_list.len() == 0;
    match app.options.feed_policy {
        FeedPolicy::FeedOnly => if empty {
            Some(FeedStep::Decided(-1))
        } else {
            Some(FeedStep::Decided(1))
        },
        FeedPolicy::PackagedOnly => Some(FeedStep::Decided(0)),
        FeedPolicy::FeedFirst => if empty {
            Some(FeedStep::Decided(0))
        } else {
            Some(FeedStep::Decided(1))
        },
        FeedPolicy::PackagedFirst => if have_ipk_dir {
            Some(FeedStep::Decided(0))
        } else {
            Some(FeedStep::Decided(1))
        },
        FeedPolicy::Ask => {
            if !have_ipk_dir {
                return Some(FeedStep::Decided(1));
            }
            if empty {
                return Some(FeedStep::Decided(0));
            }
            match probe {
                None => Some(FeedStep::ProbeFeeds),
                Some(p) => {
                    let total = count_nonempty(pkg_list);
                    if p.len() != total {
                        return None;
                    }
                    let available = count_true(p);
                    if available == 0 {
                        return Some(FeedStep::Decided(0));
                    }
                    if app.options.non_interactive {
                        return Some(FeedStep::Decided(1));
                    }
                    match answer {
                        None => {
                            let mut q = copy_str("Found ");
                            append_str(&mut q, decimal_string(available as u64).as_str());
                            append_str(&mut q, "/");
                            append_str(&mut q, decimal_string(total as u64).as_str());
                            append_str(&mut q, " ");
                            append_str(&mut q, label);
                            append_str(
                                &mut q,
                                " packages in opkg feeds. Use feeds instead of packaged ipks?",
                            );
                            Some(FeedStep::Ask(q))
                        },
                        Some(yes) => if yes {
                            Some(FeedStep::Decided(1))
                        } else {
                            Some(FeedStep::Decided(0))
                        },
                    }
                },
            }
        },
    }
}

/// How a dependency group is installed.
pub enum FeedInstall {
    /// Nothing to install.
    Skip,
    /// Install these names from the feeds, in order.
    Feeds(Vec<String>),
    /// Install the package files of this bundled directory.
    IpkDir(String),
}

/// Nothing to do for a group without names and without bundled files.
pub open spec fn group_empty(list: Seq<Seq<char>>, have_ipk_dir: bool) -> bool {
    list.len() == 0 && !have_ipk_dir
}

/// The non-empty names, in order.
pub open spec fn nonempty_names(list: Seq<Seq<char>>) -> Seq<Seq<char>> {
    list.filter(|s: Seq<char>| s.len() > 0)
}

/// How to install a dependency group, given the feed decision `use_feeds`
/// (which only matters when the group is not empty).
pub fn install_via_feeds_or_ipk(
    app: &App,
    label: &str,
    pkg_list: &[String],
    ipk_dir: &str,
    have_ipk_dir: bool,
    use_feeds: i8,
) -> (r: Result<FeedInstall, CliError>)
    ensures
        group_empty(string_views(pkg_list@), have_ipk_dir) ==> r matches Ok(FeedInstall::Skip),
        !group_empty(string_views(pkg_list@), have_ipk_dir) ==> {
            if use_feeds == -1 {
                r is Err && r->Err_0.code == E_POLICY_INVALID && r->Err_0.message@ == label@
                    + " requires feed packages under feed-only policy"@
            } else if use_feeds == 1 {
                if pkg_list@.len() == 0 {
                    r is Err && r->Err_0.code == E_CONFIG_INVALID && r->Err_0.message@ == label@
                        + " packages not defined in manifest"@
                } else {
                    r matches Ok(FeedInstall::Feeds(v)) && string_views(v@) == nonempty_names(
                        string_views(pkg_list@),
                    )
                }
            } else if have_ipk_dir {
                r matches Ok(FeedInstall::IpkDir(d)) && d@ == ipk_dir@
            } else {
                r is Err && r->Err_0.code == E_RUNTIME && r->Err_0.message@ == label@
                    + " not available in feeds and no packaged ipks provided"@
            }
        },
{
    if pkg_list.len() == 0 && !have_ipk_dir {
        return Ok(FeedInstall::Skip);
    }
    if use_feeds == -1 {
        let mut m = copy_str(label);
        append_str(&mut m, " requires feed packages under feed-only policy");
        return Err(CliError { code: E_POLICY_INVALID, message: m });
    }
    if use_feeds == 1 {
        if pkg_list.len() == 0 {
            let mut m = copy_str(label);
            append_str(&mut m, " packages not defined in manifest");
            return Err(CliError { code: E_CONFIG_INVALID, message: m });
        }
        let mut names: Vec<String> = Vec::new();
        let mut i: usize = 0;
        while i < pkg_list.len()
            invariant
                i <= pkg_list@.len(),
                string_views(names@) == nonempty_names(string_views(pkg_list@).take(i as int)),
            decreases pkg_list.len() - i,
        {
            proof {
                let t = string_views(pkg_list@).take(i + 1);
                assert(t.drop_last() =~= string_views(pkg_list@).take(i as int));
                assert(t.last() == pkg_list@[i as int]@);
                reveal(Seq::filter);
            }
            if !pkg_list[i].as_str().is_empty() {
                let ghost before = string_views(names@);
                names.push(pkg_list[i].clone());
                assert(string_views(names@) =~= before.push(pkg_list@[i as int]@));
            }
            i += 1;
        }
        assert(string_views(pkg_list@).take(pkg_list@.len() as int) =~= string_views(pkg_list@));
        return Ok(FeedInstall::Feeds(names));
    }
    if have_ipk_dir {
        return Ok(FeedInstall::IpkDir(copy_str(ipk_dir)));
    }
    let mut m = copy_str(label);
    append_str(&mut m, " not available in feeds and no packaged ipks provided");
    Err(CliError { code: E_RUNTIME, message: m })
}

/// A path whose extension is exactly `ipk`.
pub open spec fn is_ipk_path(s: Seq<char>) -> bool {
    let f = crate::pica_pkg_cli::pkgmgr::apk::file_name_of(s);
    f.len() > 4 && crate::text::ends_with(f, ".ipk"@)
}

/// The package files of a bundled directory, from the paths of its entries:
/// those with the `ipk` extension, in order; an error when there are none.
pub fn ipk_install_plan(label: &str, dir: &str, entries: &Vec<String>) -> (r: Result<Vec<String>, CliError>)
    ensures
        match r {
            Ok(v) => string_views(v@) == string_views(entries@).filter(|s: Seq<char>| is_ipk_path(s))
                && v@.len() > 0,
            Err(e) => string_views(entries@).filter(|s: Seq<char>| is_ipk_path(s)).len() == 0
                && e.code == E_CONFIG_INVALID && e.message@ == "no ipk files found in "@ + label@
                + " dir: "@ + dir@,
        },
{
    let mut out: Vec<String> = Vec::new();
    let mut i: usize = 0;
    while i < entries.len()
        invariant
            i <= entries@.len(),
            string_views(out@) == string_views(entries@).take(i as int).filter(
                |s: Seq<char>| is_ipk_path(s),
            ),
        decreases entries.len() - i,
    {
        proof {
            let t = string_views(entries@).take(i + 1);
            assert(t.drop_last() =~= string_views(entries@).take(i as int));
            assert(t.last() == entries@[i as int]@);
            reveal(Seq::filter);
        }
        let cs = chars_of(entries[i].as_str());
        let f = crate::pica_pkg_cli::pkgmgr::apk::file_name_exec(&cs);
        if f.len() > 4 && crate::text::ends_with_str(&f, ".ipk") {
            let ghost before = string_views(out@);
            out.push(entries[i].clone());
            assert(string_views(out@) =~= before.push(entries@[i as int]@));
        }
        i += 1;
    }
    assert(string_views(entries@).take(entries@.len() as int) =~= string_views(entries@));
    if out.len() == 0 {
        let mut m = copy_str("no ipk files found in ");
        append_str(&mut m, label);
        append_str(&mut m, " dir: ");
        append_str(&mut m, dir);
        return Err(CliError { code: E_CONFIG_INVALID, message: m });
    }
    Ok(out)
}

pub open spec fn is_i18n_name(s: Seq<char>) -> bool {
    starts_with(s, "luci-i18n-"@)
}

pub open spec fn is_luci_app_name(s: Seq<char>) -> bool {
    starts_with(s, "luci-app-"@)
}

/// Names that are neither LuCI apps nor translations.
pub open spec fn core_group(l: Seq<Seq<char>>) -> Seq<Seq<char>> {
    l.filter(|s: Seq<char>| s.len() > 0 && !is_i18n_name(s) && !is_luci_app_name(s))
}

/// LuCI apps that are not translations.
pub open spec fn luci_group(l: Seq<Seq<char>>) -> Seq<Seq<char>> {
    l.filter(|s: Seq<char>| s.len() > 0 && !is_i18n_name(s) && is_luci_app_name(s))
}

/// LuCI translations.
pub open spec fn i18n_group(l: Seq<Seq<char>>) -> Seq<Seq<char>> {
    l.filter(|s: Seq<char>| s.len() > 0 && is_i18n_name(s))
}

/// The non-empty names with the other packages first, then the LuCI apps,
/// then the translations, each group in the order of the list.
pub open spec fn reordered(l: Seq<Seq<char>>) -> Seq<Seq<char>> {
    core_group(l) + luci_group(l) + i18n_group(l)
}

/// Puts LuCI apps after the other packages and translations last.
pub fn reorder_app_list(list: Vec<String>) -> (r: Vec<String>)
    ensures
        string_views(r@) == reordered(string_views(list@)),
{
    let ghost l = string_views(list@);
    let mut core: Vec<String> = Vec::new();
    let mut luci: Vec<String> = Vec::new();
    let mut i18n: Vec<String> = Vec::new();
    let mut i: usize = 0;
    while i < list.len()
        invariant
            l == string_views(list@),
            i <= list@.len(),
            string_views(core@) == core_group(l.take(i as int)),
            string_views(luci@) == luci_group(l.take(i as int)),
            string_views(i18n@) == i18n_group(l.take(i as int)),
        decreases list.len() - i,
    {
        proof {
            let t = l.take(i + 1);
            assert(t.drop_last() =~= l.take(i as int));
            assert(t.last() == list@[i as int]@);
            reveal(Seq::filter);
        }
        let item = list[i].clone();
        let cs = chars_of(item.as_str());
        if cs.len() > 0 {
            if starts_with_str(&cs, "luci-i18n-") {
                let ghost before = string_views(i18n@);
                i18n.push(item);
                assert(string_views(i18n@) =~= before.push(list@[i as int]@));
            } else if starts_with_str(&cs, "luci-app-") {
                let ghost before = string_views(luci@);
                luci.push(item);
                assert(string_views(luci@) =~= before.push(list@[i as int]@));
            } else {
                let ghost before = string_views(core@);
                core.push(item);
                assert(string_views(core@) =~= before.push(list@[i as int]@));
            }
        }
        i += 1;
    }
    assert(l.take(list@.len() as int) =~= l);
    let ghost c0 = string_views(core@);
    let ghost c1 = string_views(luci@);
    let ghost c2 = string_views(i18n@);
    core.append(&mut luci);
    assert(string_views(core@) =~= c0 + c1);
    core.append(&mut i18n);
    assert(string_views(core@) =~= c0 + c1 + c2);
    core
}

/// The names of `after` that are not in `before`, in order.
pub open spec fn added_names(before: Seq<Seq<char>>, after: Seq<Seq<char>>) -> Seq<Seq<char>> {
    after.filter(|x: Seq<char>| !before.contains(x))
}

fn names_contain(v: &[String], x: &str) -> (r: bool)
    ensures
        r == string_views(v@).contains(x@),
{
    let mut i: usize = 0;
    while i < v.len()
        invariant
            i <= v@.len(),
            forall|j: int| 0 <= j < i ==> v@[j]@ != x@,
        decreases v.len() - i,
    {
        if str_eq(v[i].as_str(), x) {
            assert(string_views(v@)[i as int] == x@);
            return true;
        }
        i += 1;
    }
    assert(!string_views(v@).contains(x@)) by {
        if string_views(v@).contains(x@) {
            let j = choose|j: int| 0 <= j < string_views(v@).len() && string_views(v@)[j] == x@;
            assert(v@[j]@ == x@);
        }
    }
    false
}

/// The packages that appeared between two snapshots of the installed list.
pub fn pkg_list_diff_added(before: &[String], after: &[String]) -> (r: Vec<String>)
    ensures
        string_views(r@) == added_names(string_views(before@), string_views(after@)),
{
    let ghost b = string_views(before@);
    let ghost a = string_views(after@);
    let mut out: Vec<String> = Vec::new();
    let mut i: usize = 0;
    while i < after.len()
        invariant
            b == string_views(before@),
            a == string_views(after@),
            i <= after@.len(),
            string_views(out@) == added_names(b, a.take(i as int)),
        decreases after.len() - i,
    {
        proof {
            let t = a.take(i + 1);
            assert(t.drop_last() =~= a.take(i as int));
            assert(t.last() == after@[i as int]@);
            reveal(Seq::filter);
        }
        if !names_contain(before, after[i].as_str()) {
            let ghost prev = string_views(out@);
            out.push(after[i].clone());
            assert(string_views(out@) =~= prev.push(after@[i as int]@));
        }
        i += 1;
    }
    assert(a.take(after@.len() as int) =~= a);
    out
}

/// A name is reported as added exactly when it is in the later snapshot and
/// not in the earlier one.
pub proof fn law_diff_added_members(before: Seq<Seq<char>>, after: Seq<Seq<char>>, x: Seq<char>)
    ensures
        added_names(before, after).contains(x) <==> (after.contains(x) && !before.contains(x)),
{
    broadcast use vstd::seq_lib::group_filter_ensures;
    let pred = |y: Seq<char>| !before.contains(y);
    if after.contains(x) && !before.contains(x) {
        let k = choose|k: int| 0 <= k < after.len() && after[k] == x;
        assert(pred(after[k]));
        after.lemma_filter_contains(pred, k);
    }
    if added_names(before, after).contains(x) {
        let f = after.filter(pred);
        let k = choose|k: int| 0 <= k < f.len() && f[k] == x;
        after.lemma_filter_pred(pred, k);
        lemma_filter_member(after, pred, k);
    }
}

proof fn lemma_filter_member(s: Seq<Seq<char>>, pred: spec_fn(Seq<char>) -> bool, k: int)
    requires
        0 <= k < s.filter(pred).len(),
    ensures
        s.contains(s.filter(pred)[k]),
    decreases s.len(),
{
    reveal(Seq::filter);
    if s.len() > 0 {
        let sub = s.drop_last().filter(pred);
        if pred(s.last()) && k == sub.len() {
            assert(s.filter(pred)[k] == s.last());
            assert(s[s.len() - 1] == s.last());
        } else {
            assert(s.filter(pred)[k] == sub[k]);
            lemma_filter_member(s.drop_last(), pred, k);
            let j = choose|j: int| 0 <= j < s.drop_last().len() && s.drop_last()[j] == sub[k];
            assert(s[j] == sub[k]);
        }
    }
}

} // verus!
