//! Lists of names kept in ascending order without repeats, as the tool
//! reports package lists after sorting and removing duplicates.
use vstd::prelude::*;
use crate::text::{Order, lex_order, lex_order_chars, chars_of, string_views};

verus! {

pub proof fn lemma_lex_order_antisym(a: Seq<char>, b: Seq<char>)
    ensures
        lex_order(a, b) == Order::Equal <==> a == b,
    decreases a.len(),
{
    if a.len() > 0 && b.len() > 0 {
        lemma_lex_order_antisym(a.drop_first(), b.drop_first());
        if a[0] == b[0] {
            if a.drop_first() == b.drop_first() {
                assert(a =~= seq![a[0]] + a.drop_first());
                assert(b =~= seq![b[0]] + b.drop_first());
            }
        }
        if a == b {
            assert(a.drop_first() == b.drop_first());
        }
    } else if a.len() == 0 && b.len() == 0 {
        assert(a =~= b);
    } else if a.len() == 0 {
        assert(a != b);
    } else {
        assert(a != b);
    }
}

pub proof fn lemma_lex_order_swap(a: Seq<char>, b: Seq<char>)
    ensures
        lex_order(a, b) == Order::Less <==> lex_order(b, a) == Order::Greater,
    decreases a.len(),
{
    if a.len() > 0 && b.len() > 0 {
        lemma_lex_order_swap(a.drop_first(), b.drop_first());
    }
}

pub proof fn lemma_lex_order_trans(a: Seq<char>, b: Seq<char>, c: Seq<char>)
    requires
        lex_order(a, b) == Order::Less,
        lex_order(b, c) == Order::Less,
    ensures
        lex_order(a, c) == Order::Less,
    decreases a.len(),
{
    if a.len() == 0 {
        assert(c.len() > 0);
    } else {
        assert(b.len() > 0);
        assert(c.len() > 0);
        assert(a[0] <= b[0]);
        assert(b[0] <= c[0]);
        if a[0] == b[0] && b[0] == c[0] {
            lemma_lex_order_trans(a.drop_first(), b.drop_first(), c.drop_first());
        }
    }
}

/// Every earlier entry comes strictly before every later one.
pub open spec fn strictly_sorted(s: Seq<Seq<char>>) -> bool {
    forall|i: int, j: int|
        0 <= i < j < s.len() ==> lex_order(#[trigger] s[i], #[trigger] s[j]) == Order::Less
}

/// Inserts `item` at its place in an ascending list, unless it is there.
pub fn insert_sorted(v: &mut Vec<String>, item: String)
    requires
        strictly_sorted(string_views(old(v)@)),
    ensures
        strictly_sorted(string_views(final(v)@)),
        forall|x: Seq<char>|
            string_views(final(v)@).contains(x) <==> (string_views(old(v)@).contains(x) || x
                == item@),
{
    let ghost old_views = string_views(v@);
    let ic = chars_of(item.as_str());
    let mut i: usize = 0;
    let mut greater = false;
    while i < v.len() && !greater
        invariant
            old_views == string_views(v@),
            v@ == old(v)@,
            ic@ == item@,
            i <= v@.len(),
            strictly_sorted(old_views),
            greater ==> i < v@.len() && lex_order(old_views[i as int], item@) == Order::Greater,
            forall|k: int| 0 <= k < i ==> lex_order(#[trigger] old_views[k], item@) == Order::Less,
        decreases v.len() - i + (if greater { 0int } else { 1int }),
    {
        let vc = chars_of(v[i].as_str());
        assert(old_views[i as int] == vc@);
        let o = lex_order_chars(&vc, &ic);
        if o == Order::Equal {
            proof {
                lemma_lex_order_antisym(vc@, ic@);
                assert forall|x: Seq<char>|
                    string_views(v@).contains(x) <==> (old_views.contains(x) || x == item@) by {
                    if x == item@ {
                        assert(old_views[i as int] == x);
                    }
                }
            }
            return;
        }
        if o == Order::Greater {
            greater = true;
        } else {
            i += 1;
        }
    }
    let ghost pos = i as int;
    proof {
        if pos < old_views.len() {
            assert(greater);
            lemma_lex_order_swap(item@, old_views[pos]);
        }
    }
    v.insert(i, item);
    proof {
        let nv = string_views(v@);
        assert(nv =~= old_views.insert(pos, item@));
        assert forall|a: int, b: int| 0 <= a < b < nv.len() implies lex_order(
            #[trigger] nv[a],
            #[trigger] nv[b],
        ) == Order::Less by {
            if b < pos {
            } else if a < pos && b == pos {
            } else if a < pos && b > pos {
                assert(nv[b] == old_views[b - 1]);
                if b - 1 > pos {
                    lemma_lex_order_trans(item@, old_views[pos], old_views[b - 1]);
                }
                lemma_lex_order_trans(old_views[a], item@, old_views[b - 1]);
            } else if a == pos {
                assert(nv[b] == old_views[b - 1]);
                if b - 1 > pos {
                    lemma_lex_order_trans(item@, old_views[pos], old_views[b - 1]);
                }
            } else {
                assert(nv[a] == old_views[a - 1]);
                assert(nv[b] == old_views[b - 1]);
            }
        }
        assert forall|x: Seq<char>| nv.contains(x) <==> (old_views.contains(x) || x == item@) by {
            if nv.contains(x) {
                let k = choose|k: int| 0 <= k < nv.len() && nv[k] == x;
                if k < pos {
                    assert(old_views[k] == x);
                } else if k > pos {
                    assert(old_views[k - 1] == x);
                }
            }
            if old_views.contains(x) {
                let k = choose|k: int| 0 <= k < old_views.len() && old_views[k] == x;
                if k < pos {
                    assert(nv[k] == x);
                } else {
                    assert(nv[k + 1] == x);
                }
            }
            if x == item@ {
                assert(nv[pos] == x);
            }
        }
    }
}

/// The names in ascending order, each once.
pub fn sorted_unique(items: &Vec<String>) -> (r: Vec<String>)
    ensures
        strictly_sorted(string_views(r@)),
        forall|x: Seq<char>|
            string_views(r@).contains(x) <==> string_views(items@).contains(x),
{
    let mut out: Vec<String> = Vec::new();
    let mut i: usize = 0;
    while i < items.len()
        invariant
            i <= items@.len(),
            strictly_sorted(string_views(out@)),
            forall|x: Seq<char>|
                string_views(out@).contains(x) <==> string_views(items@.take(i as int)).contains(x),
        decreases items.len() - i,
    {
        let s = items[i].clone();
        let ghost prev = string_views(out@);
        insert_sorted(&mut out, s);
        proof {
            assert(string_views(items@.take(i + 1)) =~= string_views(items@.take(i as int)).push(
                items@[i as int]@,
            ));
            assert forall|x: Seq<char>|
                string_views(items@.take(i + 1)).contains(x) <==> (string_views(
                    items@.take(i as int),
                ).contains(x) || x == items@[i as int]@) by {
                let a = string_views(items@.take(i as int));
                let b = a.push(items@[i as int]@);
                if b.contains(x) {
                    let k = choose|k: int| 0 <= k < b.len() && b[k] == x;
                    if k < a.len() {
                        assert(a[k] == x);
                    }
                }
                if a.contains(x) {
                    let k = choose|k: int| 0 <= k < a.len() && a[k] == x;
                    assert(b[k] == x);
                }
                if x == items@[i as int]@ {
                    assert(b[a.len() as int] == x);
                }
            }
            assert forall|x: Seq<char>|
                string_views(out@).contains(x) <==> string_views(items@.take(i + 1)).contains(x) by {
                assert(prev.contains(x) <==> string_views(items@.take(i as int)).contains(x));
            }
        }
        i += 1;
    }
    assert(items@.take(items@.len() as int) =~= items@);
    out
}


/// Where `item` is or belongs in an ascending list: `(true, i)` when entry
/// `i` is `item`, else `(false, i)` with the smaller entries before `i` and
/// the greater from `i` on.
pub fn sorted_position(v: &Vec<String>, item: &[char]) -> (r: (bool, usize))
    requires
        strictly_sorted(string_views(v@)),
    ensures
        r.1 <= v@.len(),
        r.0 ==> r.1 < v@.len() && v@[r.1 as int]@ == item@,
        !r.0 ==> (forall|k: int| 0 <= k < r.1 ==> lex_order(#[trigger] string_views(v@)[k], item@)
            == Order::Less) && (forall|k: int|
            r.1 <= k < v@.len() ==> lex_order(#[trigger] string_views(v@)[k], item@)
                == Order::Greater),
        !r.0 ==> !string_views(v@).contains(item@),
{
    let ghost views = string_views(v@);
    let mut i: usize = 0;
    while i < v.len()
        invariant
            views == string_views(v@),
            i <= v@.len(),
            strictly_sorted(views),
            forall|k: int| 0 <= k < i ==> lex_order(#[trigger] views[k], item@) == Order::Less,
        decreases v.len() - i,
    {
        let vc = chars_of(v[i].as_str());
        assert(views[i as int] == vc@);
        let o = lex_order_chars(&vc, item);
        if o == Order::Equal {
            proof {
                lemma_lex_order_antisym(vc@, item@);
            }
            return (true, i);
        }
        if o == Order::Greater {
            proof {
                assert forall|k: int| i <= k < v@.len() implies lex_order(
                    #[trigger] views[k],
                    item@,
                ) == Order::Greater by {
                    if k > i {
                        lemma_lex_order_swap(item@, views[i as int]);
                        lemma_lex_order_trans(item@, views[i as int], views[k]);
                        lemma_lex_order_swap(item@, views[k]);
                    }
                }
                assert(!views.contains(item@)) by {
                    if views.contains(item@) {
                        let k = choose|k: int| 0 <= k < views.len() && views[k] == item@;
                        lemma_lex_order_refl_local(item@);
                    }
                }
            }
            return (false, i);
        }
        i += 1;
    }
    proof {
        assert(!views.contains(item@)) by {
            if views.contains(item@) {
                let k = choose|k: int| 0 <= k < views.len() && views[k] == item@;
                lemma_lex_order_refl_local(item@);
            }
        }
    }
    (false, i)
}

proof fn lemma_lex_order_refl_local(a: Seq<char>)
    ensures
        lex_order(a, a) == Order::Equal,
{
    lemma_lex_order_antisym(a, a);
}
/// Every earlier entry comes before or equals every later one.
pub open spec fn sorted(s: Seq<Seq<char>>) -> bool {
    forall|i: int, j: int|
        0 <= i < j < s.len() ==> lex_order(#[trigger] s[i], #[trigger] s[j]) != Order::Greater
}

/// The texts in ascending order, repeats kept (a stable insertion sort).
pub fn sort_texts(items: Vec<String>) -> (r: Vec<String>)
    ensures
        sorted(string_views(r@)),
        string_views(r@).to_multiset() == string_views(items@).to_multiset(),
{
    broadcast use vstd::seq_lib::group_to_multiset_ensures;
    let mut out: Vec<String> = Vec::new();
    let mut i: usize = 0;
    let ghost src = string_views(items@);
    while i < items.len()
        invariant
            i <= items@.len(),
            src == string_views(items@),
            sorted(string_views(out@)),
            string_views(out@).to_multiset() == src.take(i as int).to_multiset(),
        decreases items.len() - i,
    {
        let ic = chars_of(items[i].as_str());
        let ghost ov = string_views(out@);
        let mut j: usize = 0;
        let mut found = false;
        while j < out.len() && !found
            invariant
                ov == string_views(out@),
                j <= ov.len(),
                ic@ == items@[i as int]@,
                found ==> j < ov.len() && lex_order(ov[j as int], ic@) == Order::Greater,
                forall|k: int| 0 <= k < j ==> lex_order(#[trigger] ov[k], ic@) != Order::Greater,
            decreases ov.len() - j + (if found { 0int } else { 1int }),
        {
            let oc = chars_of(out[j].as_str());
            assert(ov[j as int] == oc@);
            if lex_order_chars(&oc, &ic) == Order::Greater {
                found = true;
            } else {
                j += 1;
            }
        }
        let item = items[i].clone();
        out.insert(j, item);
        proof {
            let nv = string_views(out@);
            let x = items@[i as int]@;
            assert(nv =~= ov.insert(j as int, x));
            assert forall|a: int, b: int| 0 <= a < b < nv.len() implies lex_order(
                #[trigger] nv[a],
                #[trigger] nv[b],
            ) != Order::Greater by {
                if b < j {
                } else if a < j && b == j {
                } else if a < j && b > j {
                    assert(nv[b] == ov[b - 1]);
                    assert(nv[a] == ov[a]);
                } else if a == j {
                    assert(nv[b] == ov[b - 1]);
                    lemma_not_greater_before_greater(ov, j as int, b - 1, x, found);
                } else {
                    assert(nv[a] == ov[a - 1]);
                    assert(nv[b] == ov[b - 1]);
                }
            }
            assert(src.take(i + 1) =~= src.take(i as int).push(x));
            vstd::seq_lib::to_multiset_insert(ov, j as int, x);
            vstd::seq_lib::to_multiset_build(src.take(i as int), x);
        }
        i += 1;
    }
    assert(src.take(items@.len() as int) =~= src);
    out
}

/// An item placed before the first greater entry is not greater than any
/// later entry.
proof fn lemma_not_greater_before_greater(ov: Seq<Seq<char>>, j: int, b: int, x: Seq<char>, found: bool)
    requires
        sorted(ov),
        0 <= j <= b < ov.len(),
        found ==> lex_order(ov[j], x) == Order::Greater,
        !found ==> j == ov.len(),
    ensures
        lex_order(x, ov[b]) != Order::Greater,
{
    lemma_lex_order_swap(x, ov[j]);
    if b > j {
        assert(lex_order(ov[j], ov[b]) != Order::Greater);
        lemma_lex_order_antisym(ov[j], ov[b]);
        if lex_order(ov[j], ov[b]) == Order::Less {
            lemma_lex_order_trans(x, ov[j], ov[b]);
        }
    }
}


/// The entry at `i` comes strictly before the next one.
pub open spec fn step_less(ks: Seq<Seq<char>>, i: int) -> bool {
    lex_order(ks[i], ks[i + 1]) == Order::Less
}

pub proof fn lemma_chain_pair(ks: Seq<Seq<char>>, a: int, b: int)
    requires
        forall|i: int| 0 <= i < ks.len() - 1 ==> #[trigger] step_less(ks, i),
        0 <= a < b < ks.len(),
    ensures
        lex_order(ks[a], ks[b]) == Order::Less,
    decreases b - a,
{
    assert(step_less(ks, b - 1));
    if b > a + 1 {
        lemma_chain_pair(ks, a, b - 1);
        lemma_lex_order_trans(ks[a], ks[b - 1], ks[b]);
    }
}

/// A list whose neighbours are in ascending order is in ascending order.
pub proof fn lemma_chain_sorted(ks: Seq<Seq<char>>)
    requires
        forall|i: int| 0 <= i < ks.len() - 1 ==> #[trigger] step_less(ks, i),
    ensures
        forall|a: int, b: int| 0 <= a < b < ks.len() ==> lex_order(#[trigger] ks[a], #[trigger] ks[b]) == Order::Less,
{
    assert forall|a: int, b: int| 0 <= a < b < ks.len() implies lex_order(#[trigger] ks[a], #[trigger] ks[b])
        == Order::Less by {
        lemma_chain_pair(ks, a, b);
    }
}

} // verus!
