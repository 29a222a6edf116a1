//! Package manifests: `key = value` lines, `#` comments, repeated keys
//! collected into lists; held as a JSON object with keys in ascending order.
use vstd::prelude::*;
use crate::text::{
    Order, trim, first_index_of, split_once_spec, split_seq, chars_of, split_chars, trim_chars,
    first_index_of_exec, sub_chars, string_of, copy_str, append_str, push_char, views, string_views,
    lex_order, str_eq,
};
use crate::json::{JsonValue, find_key, json_get, json_text, push_json_text, keys_sorted, lemma_find_key_some, find_key_exec};
use crate::strset::{strictly_sorted, sorted_position, lemma_lex_order_antisym};
use crate::pica_pkg_core::version::version_key;
use crate::pica_core::selector::canonical;

verus! {

/// The text of a line before its first `#`.
pub open spec fn before_hash(raw: Seq<char>) -> Seq<char> {
    match first_index_of(raw, '#') {
        Some(i) => raw.take(i),
        None => raw,
    }
}

/// The key and value of a manifest line, if it has them: comments cut,
/// split at the first `=`, both sides trimmed, the key not empty.
pub open spec fn parse_line(raw: Seq<char>) -> Option<(Seq<char>, Seq<char>)> {
    let l = trim(before_hash(raw));
    if l.len() == 0 {
        None
    } else {
        match split_once_spec(l, '=') {
            None => None,
            Some((k, v)) => if trim(k).len() == 0 {
                None
            } else {
                Some((trim(k), trim(v)))
            },
        }
    }
}

/// The values of each key, in the order of the lines.
pub open spec fn kv_model(lines: Seq<Seq<char>>) -> Map<Seq<char>, Seq<Seq<char>>>
    decreases lines.len(),
{
    if lines.len() == 0 {
        Map::empty()
    } else {
        let m = kv_model(lines.drop_last());
        match parse_line(lines.last()) {
            None => m,
            Some((k, v)) => if m.contains_key(k) {
                m.insert(k, m[k].push(v))
            } else {
                m.insert(k, seq![v])
            },
        }
    }
}

/// The values of each key of a manifest text.
pub open spec fn manifest_model(text: Seq<char>) -> Map<Seq<char>, Seq<Seq<char>>> {
    kv_model(split_seq(text, '\n'))
}

/// A JSON entry holding the values: one value as a string, more as an
/// array of strings.
pub open spec fn entry_matches(j: JsonValue, vals: Seq<Seq<char>>) -> bool {
    if vals.len() == 1 {
        j is String && j->String_0@ == vals[0]
    } else {
        vals.len() >= 2 && j is Array && j->Array_0@.len() == vals.len() && forall|t: int|
            0 <= t < vals.len() ==> (#[trigger] j->Array_0@[t]) is String
                && j->Array_0@[t]->String_0@ == vals[t]
    }
}

/// The object holds exactly the keys of the model, in ascending order, each
/// with its values.
pub open spec fn object_matches(v: JsonValue, m: Map<Seq<char>, Seq<Seq<char>>>) -> bool {
    &&& v is Object
    &&& keys_sorted(v->Object_0@)
    &&& forall|k: Seq<char>| #[trigger] m.contains_key(k) <==> find_key(v->Object_0@, k) is Some
    &&& forall|i: int|
        0 <= i < v->Object_0@.len() ==> entry_matches(
            (#[trigger] v->Object_0@[i]).1,
            m[v->Object_0@[i].0@],
        )
}

/// A package manifest.
#[derive(Debug)]
pub struct Manifest {
    pub value: JsonValue,
}

fn parse_line_exec(raw: &[char]) -> (r: Option<(Vec<char>, Vec<char>)>)
    ensures
        match r {
            Some((k, v)) => parse_line(raw@) == Some((k@, v@)),
            None => parse_line(raw@) is None,
        },
{
    let cut = match first_index_of_exec(raw, '#') {
        Some(i) => sub_chars(raw, 0, i),
        None => sub_chars(raw, 0, raw.len()),
    };
    assert(cut@ =~= before_hash(raw@));
    let l = trim_chars(&cut);
    if l.len() == 0 {
        return None;
    }
    match first_index_of_exec(&l, '=') {
        None => None,
        Some(i) => {
            let k = sub_chars(&l, 0, i);
            let v = sub_chars(&l, i + 1, l.len());
            assert(k@ =~= l@.take(i as int));
            assert(v@ =~= l@.skip(i + 1));
            let tk = trim_chars(&k);
            if tk.len() == 0 {
                return None;
            }
            let tv = trim_chars(&v);
            Some((tk, tv))
        },
    }
}

proof fn lemma_sorted_find_key(es: Seq<(String, JsonValue)>, i: int)
    requires
        keys_sorted(es),
        0 <= i < es.len(),
    ensures
        find_key(es, es[i].0@) == Some(i),
{
    lemma_find_key_some(es, es[i].0@);
    match find_key(es, es[i].0@) {
        Some(j) => {
            if j < i {
                assert(lex_order(es[j].0@, es[i].0@) == Order::Less);
                lemma_lex_order_antisym(es[j].0@, es[i].0@);
            }
        },
        None => {},
    }
}

impl Manifest {
    /// Reads a manifest text. Blank lines, comments and lines without `=` or
    /// with an empty key are skipped; a key given more than once keeps all
    /// its values, in order.
    pub fn from_text(content: &str) -> (r: Manifest)
        ensures
            object_matches(r.value, manifest_model(content@)),
    {
        let cs = chars_of(content);
        let lines = split_chars(&cs, '\n');
        let ghost ls = views(lines@);
        let mut keys: Vec<String> = Vec::new();
        let mut vals: Vec<Vec<String>> = Vec::new();
        let mut n: usize = 0;
        while n < lines.len()
            invariant
                ls == views(lines@),
                ls == split_seq(content@, '\n'),
                n <= lines@.len(),
                keys@.len() == vals@.len(),
                strictly_sorted(string_views(keys@)),
                forall|k: Seq<char>|
                    #[trigger] kv_model(ls.take(n as int)).contains_key(k) <==> string_views(
                        keys@,
                    ).contains(k),
                forall|i: int|
                    0 <= i < keys@.len() ==> kv_model(ls.take(n as int))[#[trigger] keys@[i]@]
                        == string_views(vals@[i]@),
                forall|i: int| 0 <= i < vals@.len() ==> (#[trigger] vals@[i])@.len() >= 1,
            decreases lines.len() - n,
        {
            let ghost before_model = kv_model(ls.take(n as int));
            assert(ls.take(n + 1).drop_last() =~= ls.take(n as int));
            assert(ls.take(n + 1).last() == lines@[n as int]@);
            match parse_line_exec(&lines[n]) {
                None => {},
                Some((k, v)) => {
                    let (found, pos) = sorted_position(&keys, &k);
                    if found {
                        let mut inner = vals.remove(pos);
                        inner.push(string_of(&v));
                        vals.insert(pos, inner);
                        proof {
                            let m2 = kv_model(ls.take(n + 1));
                            assert(string_views(keys@)[pos as int] == k@);
                            assert(before_model.contains_key(k@));
                            assert(m2 == before_model.insert(k@, before_model[k@].push(v@)));
                            assert forall|k2: Seq<char>|
                                #[trigger] m2.contains_key(k2) <==> string_views(keys@).contains(k2) by {
                                if k2 == k@ {
                                    assert(string_views(keys@)[pos as int] == k@);
                                }
                            }
                            assert forall|i: int|
                                0 <= i < keys@.len() implies m2[#[trigger] keys@[i]@] == string_views(
                                    vals@[i]@,
                                ) by {
                                if i != pos {
                                    assert(keys@[i]@ != k@) by {
                                        assert(string_views(keys@)[i] == keys@[i]@);
                                        assert(string_views(keys@)[pos as int] == keys@[pos as int]@);
                                        if i < pos {
                                            assert(lex_order(keys@[i]@, keys@[pos as int]@) == Order::Less);
                                        } else {
                                            assert(lex_order(keys@[pos as int]@, keys@[i]@) == Order::Less);
                                        }
                                        lemma_lex_order_antisym(keys@[i]@, keys@[pos as int]@);
                                    }
                                } else {
                                    assert(string_views(vals@[i]@) =~= before_model[k@].push(v@));
                                }
                            }
                        }
                    } else {
                        let ghost old_keys = string_views(keys@);
                        let ghost old_vals = vals@;
                        keys.insert(pos, string_of(&k));
                        let mut one: Vec<String> = Vec::new();
                        one.push(string_of(&v));
                        vals.insert(pos, one);
                        proof {
                            let m2 = kv_model(ls.take(n + 1));
                            let nk = string_views(keys@);
                            assert(nk =~= old_keys.insert(pos as int, k@));
                            assert(m2 == before_model.insert(k@, seq![v@]));
                            assert forall|a: int, b: int| 0 <= a < b < nk.len() implies lex_order(
                                #[trigger] nk[a],
                                #[trigger] nk[b],
                            ) == Order::Less by {
                                if b < pos {
                                } else if a < pos && b == pos {
                                } else if a < pos && b > pos {
                                    assert(nk[b] == old_keys[b - 1]);
                                    crate::strset::lemma_lex_order_swap(k@, old_keys[b - 1]);
                                    crate::strset::lemma_lex_order_trans(old_keys[a], k@, old_keys[b - 1]);
                                } else if a == pos {
                                    assert(nk[b] == old_keys[b - 1]);
                                    crate::strset::lemma_lex_order_swap(k@, old_keys[b - 1]);
                                } else {
                                    assert(nk[a] == old_keys[a - 1]);
                                    assert(nk[b] == old_keys[b - 1]);
                                }
                            }
                            assert forall|k2: Seq<char>|
                                #[trigger] m2.contains_key(k2) <==> nk.contains(k2) by {
                                if k2 == k@ {
                                    assert(nk[pos as int] == k@);
                                } else {
                                    if old_keys.contains(k2) {
                                        let j = choose|j: int| 0 <= j < old_keys.len() && old_keys[j] == k2;
                                        if j < pos {
                                            assert(nk[j] == k2);
                                        } else {
                                            assert(nk[j + 1] == k2);
                                        }
                                    }
                                    if nk.contains(k2) {
                                        let j = choose|j: int| 0 <= j < nk.len() && nk[j] == k2;
                                        if j < pos {
                                            assert(old_keys[j] == k2);
                                        } else if j > pos {
                                            assert(old_keys[j - 1] == k2);
                                        }
                                    }
                                }
                            }
                            assert forall|i: int|
                                0 <= i < keys@.len() implies m2[#[trigger] keys@[i]@] == string_views(
                                    vals@[i]@,
                                ) by {
                                assert(nk[i] == keys@[i]@);
                                if i < pos {
                                    assert(keys@[i]@ == old_keys[i]);
                                    assert(vals@[i] == old_vals[i]);
                                    assert(old_keys[i] != k@);
                                } else if i > pos {
                                    assert(keys@[i]@ == old_keys[i - 1]);
                                    assert(vals@[i] == old_vals[i - 1]);
                                    assert(old_keys[i - 1] != k@);
                                } else {
                                    assert(string_views(vals@[i]@) =~= seq![v@]);
                                }
                            }
                            assert forall|i: int| 0 <= i < vals@.len() implies (#[trigger] vals@[i])@.len() >= 1 by {
                                if i < pos {
                                    assert(vals@[i] == old_vals[i]);
                                } else if i > pos {
                                    assert(vals@[i] == old_vals[i - 1]);
                                }
                            }
                        }
                    }
                },
            }
            n += 1;
        }
        assert(ls.take(lines@.len() as int) =~= ls);
        let ghost model = kv_model(ls);
        let mut es: Vec<(String, JsonValue)> = Vec::new();
        let mut i: usize = 0;
        while i < keys.len()
            invariant
                i <= keys@.len(),
                keys@.len() == vals@.len(),
                es@.len() == i,
                forall|j: int| 0 <= j < i ==> (#[trigger] es@[j]).0@ == keys@[j]@,
                forall|j: int| 0 <= j < i ==> entry_matches((#[trigger] es@[j]).1, string_views(vals@[j]@)),
                forall|j: int| 0 <= j < vals@.len() ==> (#[trigger] vals@[j])@.len() >= 1,
            decreases keys.len() - i,
        {
            let group = &vals[i];
            assert(group@.len() >= 1);
            let entry = if group.len() == 1 {
                JsonValue::String(group[0].clone())
            } else {
                let mut items: Vec<JsonValue> = Vec::new();
                let mut t: usize = 0;
                while t < group.len()
                    invariant
                        t <= group@.len(),
                        items@.len() == t,
                        forall|q: int|
                            0 <= q < t ==> (#[trigger] items@[q]) is String && items@[q]->String_0@
                                == group@[q]@,
                    decreases group.len() - t,
                {
                    items.push(JsonValue::String(group[t].clone()));
                    t += 1;
                }
                JsonValue::Array(items)
            };
            assert(entry_matches(entry, string_views(vals@[i as int]@)));
            es.push((keys[i].clone(), entry));
            i += 1;
        }
        proof {
            assert forall|a: int, b: int| 0 <= a < b < es@.len() implies lex_order(
                #[trigger] es@[a].0@,
                #[trigger] es@[b].0@,
            ) == Order::Less by {
                assert(string_views(keys@)[a] == keys@[a]@);
                assert(string_views(keys@)[b] == keys@[b]@);
            }
            assert forall|k: Seq<char>| #[trigger] model.contains_key(k) <==> find_key(es@, k) is Some by {
                lemma_find_key_some(es@, k);
                if model.contains_key(k) {
                    let j = choose|j: int| 0 <= j < string_views(keys@).len() && string_views(keys@)[j] == k;
                    assert(es@[j].0@ == k);
                }
                if find_key(es@, k) is Some {
                    let j = find_key(es@, k)->Some_0;
                    assert(string_views(keys@)[j] == k);
                }
            }
            assert forall|j: int| 0 <= j < es@.len() implies entry_matches(
                (#[trigger] es@[j]).1,
                model[es@[j].0@],
            ) by {
                assert(model[keys@[j]@] == string_views(vals@[j]@));
            }
        }
        Manifest { value: JsonValue::Object(es) }
    }
}


/// The text of a JSON value as manifests show it: strings as they are,
/// `true`/`false`, numbers as written, nothing for null, compact JSON for
/// arrays and objects.
pub open spec fn value_text(v: JsonValue) -> Seq<char> {
    match v {
        JsonValue::String(s) => s@,
        JsonValue::Bool(b) => if b {
            "true"@
        } else {
            "false"@
        },
        JsonValue::Number(n) => n@,
        JsonValue::Null => Seq::empty(),
        _ => json_text(v),
    }
}

pub fn value_to_text(v: &JsonValue) -> (r: String)
    ensures
        r@ == value_text(*v),
{
    match v {
        JsonValue::String(s) => s.clone(),
        JsonValue::Bool(b) => if *b {
            copy_str("true")
        } else {
            copy_str("false")
        },
        JsonValue::Number(n) => n.clone(),
        JsonValue::Null => String::new(),
        _ => {
            let mut out = String::new();
            push_json_text(&mut out, v);
            out
        },
    }
}

/// The first value of a key: the first item of a list, the value itself
/// otherwise, nothing for a missing key or null.
pub open spec fn first_text(v: JsonValue, key: Seq<char>) -> Seq<char> {
    match json_get(v, key) {
        None => Seq::empty(),
        Some(JsonValue::Null) => Seq::empty(),
        Some(JsonValue::Array(items)) => if items@.len() == 0 {
            Seq::empty()
        } else {
            value_text(items@[0])
        },
        Some(e) => value_text(e),
    }
}

/// The value of a key that is neither a list nor null, else nothing.
pub open spec fn scalar_text(v: JsonValue, key: Seq<char>) -> Seq<char> {
    match json_get(v, key) {
        None => Seq::empty(),
        Some(JsonValue::Null) => Seq::empty(),
        Some(JsonValue::Array(_)) => Seq::empty(),
        Some(e) => value_text(e),
    }
}

/// All values of a key: the items of a list, or the one value.
pub open spec fn array_texts(v: JsonValue, key: Seq<char>) -> Seq<Seq<char>> {
    match json_get(v, key) {
        None => Seq::empty(),
        Some(JsonValue::Null) => Seq::empty(),
        Some(JsonValue::Array(items)) => items@.map_values(|x: JsonValue| value_text(x)),
        Some(e) => seq![value_text(e)],
    }
}

pub fn get_first(value: &JsonValue, key: &str) -> (r: String)
    ensures
        r@ == first_text(*value, key@),
{
    match value.get(key) {
        None => String::new(),
        Some(JsonValue::Null) => String::new(),
        Some(JsonValue::Array(items)) => if items.len() == 0 {
            String::new()
        } else {
            value_to_text(&items[0])
        },
        Some(e) => value_to_text(e),
    }
}

pub fn get_scalar(value: &JsonValue, key: &str) -> (r: String)
    ensures
        r@ == scalar_text(*value, key@),
{
    match value.get(key) {
        None => String::new(),
        Some(JsonValue::Null) => String::new(),
        Some(JsonValue::Array(_)) => String::new(),
        Some(e) => value_to_text(e),
    }
}

pub fn get_array(value: &JsonValue, key: &str) -> (r: Vec<String>)
    ensures
        string_views(r@) == array_texts(*value, key@),
{
    let mut out: Vec<String> = Vec::new();
    match value.get(key) {
        None => {},
        Some(JsonValue::Null) => {},
        Some(JsonValue::Array(items)) => {
            let mut i: usize = 0;
            while i < items.len()
                invariant
                    i <= items@.len(),
                    string_views(out@) == items@.take(i as int).map_values(
                        |x: JsonValue| value_text(x),
                    ),
                decreases items.len() - i,
            {
                let t = value_to_text(&items[i]);
                let ghost before = string_views(out@);
                out.push(t);
                assert(string_views(out@) =~= before.push(value_text(items@[i as int])));
                assert(items@.take(i + 1).map_values(|x: JsonValue| value_text(x)) =~= items@.take(
                    i as int,
                ).map_values(|x: JsonValue| value_text(x)).push(value_text(items@[i as int])));
                i += 1;
            }
            assert(items@.take(items@.len() as int) =~= items@);
        },
        Some(e) => {
            let t = value_to_text(e);
            out.push(t);
            assert(string_views(out@) =~= seq![value_text(*e)]);
        },
    }
    out
}

/// The entry of `k`, found by its key.
pub open spec fn entry_of(es: Seq<(String, JsonValue)>, k: Seq<char>) -> Option<JsonValue> {
    match find_key(es, k) {
        Some(i) => Some(es[i].1),
        None => None,
    }
}

proof fn lemma_sorted_entry(es: Seq<(String, JsonValue)>, k: Seq<char>)
    requires
        keys_sorted(es),
    ensures
        forall|i: int| 0 <= i < es.len() && es[i].0@ == k ==> entry_of(es, k) == Some(es[i].1),
        (forall|i: int| 0 <= i < es.len() ==> es[i].0@ != k) ==> entry_of(es, k) is None,
{
    lemma_find_key_some(es, k);
    assert forall|i: int| 0 <= i < es.len() && es[i].0@ == k implies entry_of(es, k) == Some(
        es[i].1,
    ) by {
        lemma_sorted_find_key(es, i);
    }
}

pub proof fn lemma_sorted_find_key_pub(es: Seq<(String, JsonValue)>, i: int)
    requires
        keys_sorted(es),
        0 <= i < es.len(),
    ensures
        find_key(es, es[i].0@) == Some(i),
{
    lemma_sorted_find_key(es, i);
}

pub proof fn lemma_sorted_entry_pub(es: Seq<(String, JsonValue)>, k: Seq<char>)
    requires
        keys_sorted(es),
    ensures
        forall|i: int| 0 <= i < es.len() && es[i].0@ == k ==> entry_of(es, k) == Some(es[i].1),
        (forall|i: int| 0 <= i < es.len() ==> es[i].0@ != k) ==> entry_of(es, k) is None,
{
    lemma_sorted_entry(es, k);
}

/// Adds an entry for a key the object does not have, at its place.
pub fn object_insert_absent(es: &mut Vec<(String, JsonValue)>, key: &str, val: JsonValue)
    requires
        keys_sorted(old(es)@),
        find_key(old(es)@, key@) is None,
    ensures
        keys_sorted(final(es)@),
        entry_of(final(es)@, key@) == Some(val),
        forall|k: Seq<char>| k != key@ ==> entry_of(final(es)@, k) == entry_of(old(es)@, k),
{
    let ghost old_es = es@;
    let mut ks: Vec<String> = Vec::new();
    let mut i: usize = 0;
    while i < es.len()
        invariant
            es@ == old_es,
            i <= es@.len(),
            ks@.len() == i,
            forall|j: int| 0 <= j < i ==> (#[trigger] ks@[j])@ == es@[j].0@,
        decreases es.len() - i,
    {
        ks.push(es[i].0.clone());
        i += 1;
    }
    assert(strictly_sorted(string_views(ks@))) by {
        assert forall|a: int, b: int| 0 <= a < b < ks@.len() implies lex_order(
            #[trigger] string_views(ks@)[a],
            #[trigger] string_views(ks@)[b],
        ) == Order::Less by {
            assert(string_views(ks@)[a] == old_es[a].0@);
            assert(string_views(ks@)[b] == old_es[b].0@);
        }
    }
    let kc = chars_of(key);
    let (found, pos) = sorted_position(&ks, &kc);
    proof {
        lemma_find_key_some(old_es, key@);
        if found {
            assert(old_es[pos as int].0@ == key@);
        }
    }
    es.insert(pos, (copy_str(key), val));
    proof {
        let ne = es@;
        assert(ne =~= old_es.insert(pos as int, ne[pos as int]));
        assert forall|a: int, b: int| 0 <= a < b < ne.len() implies lex_order(
            #[trigger] ne[a].0@,
            #[trigger] ne[b].0@,
        ) == Order::Less by {
            if b < pos {
            } else if a < pos && b == pos {
                assert(string_views(ks@)[a] == old_es[a].0@);
            } else if a < pos && b > pos {
                assert(string_views(ks@)[a] == old_es[a].0@);
                assert(string_views(ks@)[b - 1] == old_es[b - 1].0@);
                crate::strset::lemma_lex_order_swap(key@, old_es[b - 1].0@);
                crate::strset::lemma_lex_order_trans(old_es[a].0@, key@, old_es[b - 1].0@);
            } else if a == pos {
                assert(string_views(ks@)[b - 1] == old_es[b - 1].0@);
                crate::strset::lemma_lex_order_swap(key@, old_es[b - 1].0@);
            } else {
                assert(ne[a] == old_es[a - 1]);
                assert(ne[b] == old_es[b - 1]);
            }
        }
        lemma_sorted_entry(ne, key@);
        assert(ne[pos as int].0@ == key@);
        assert forall|k: Seq<char>| k != key@ implies entry_of(ne, k) == entry_of(old_es, k) by {
            lemma_sorted_entry(ne, k);
            lemma_sorted_entry(old_es, k);
            if exists|j: int| 0 <= j < old_es.len() && old_es[j].0@ == k {
                let j = choose|j: int| 0 <= j < old_es.len() && old_es[j].0@ == k;
                if j < pos {
                    assert(ne[j] == old_es[j]);
                } else {
                    assert(ne[j + 1] == old_es[j]);
                }
            } else {
                assert forall|j: int| 0 <= j < ne.len() implies ne[j].0@ != k by {
                    if j < pos {
                        assert(ne[j] == old_es[j]);
                    } else if j > pos {
                        assert(ne[j] == old_es[j - 1]);
                    }
                }
            }
        }
    }
}

/// The entry of `key` is what it was, or the string `text` when there was none.
pub open spec fn defaulted(old_entry: Option<JsonValue>, new_entry: Option<JsonValue>, text: Seq<char>) -> bool {
    if old_entry is Some {
        new_entry == old_entry
    } else {
        new_entry matches Some(JsonValue::String(s)) && s@ == text
    }
}

/// Sets the entry of `key`, replacing it or adding it at its place.
pub fn object_set(es: &mut Vec<(String, JsonValue)>, key: &str, val: JsonValue)
    requires
        keys_sorted(old(es)@),
    ensures
        keys_sorted(final(es)@),
        entry_of(final(es)@, key@) == Some(val),
        forall|k: Seq<char>| k != key@ ==> entry_of(final(es)@, k) == entry_of(old(es)@, k),
{
    proof {
        lemma_find_key_some(es@, key@);
    }
    match find_key_exec(es, key) {
        None => object_insert_absent(es, key, val),
        Some(i) => {
            let ghost old_es = es@;
            let k = es[i].0.clone();
            es.set(i, (k, val));
            proof {
                let ne = es@;
                assert forall|a: int, b: int| 0 <= a < b < ne.len() implies lex_order(
                    #[trigger] ne[a].0@,
                    #[trigger] ne[b].0@,
                ) == Order::Less by {
                    assert(ne[a].0@ == old_es[a].0@);
                    assert(ne[b].0@ == old_es[b].0@);
                }
                lemma_sorted_entry(ne, key@);
                assert(old_es[i as int].0@ == key@);
                assert(ne[i as int].0@ == key@);
                assert(ne[i as int].1 == val);
                assert forall|k2: Seq<char>| k2 != key@ implies entry_of(ne, k2) == entry_of(old_es, k2) by {
                    lemma_sorted_entry(ne, k2);
                    lemma_sorted_entry(old_es, k2);
                    if exists|j: int| 0 <= j < old_es.len() && old_es[j].0@ == k2 {
                        let j = choose|j: int| 0 <= j < old_es.len() && old_es[j].0@ == k2;
                        assert(j != i);
                        assert(ne[j] == old_es[j]);
                    } else {
                        assert forall|j: int| 0 <= j < ne.len() implies ne[j].0@ != k2 by {
                            if j != i {
                                assert(ne[j] == old_es[j]);
                            }
                        }
                    }
                }
            }
        },
    }
}

/// Removes the entry of `key`, if any.
pub fn object_remove(es: &mut Vec<(String, JsonValue)>, key: &str)
    requires
        keys_sorted(old(es)@),
    ensures
        keys_sorted(final(es)@),
        entry_of(final(es)@, key@) is None,
        forall|k: Seq<char>| k != key@ ==> entry_of(final(es)@, k) == entry_of(old(es)@, k),
{
    proof {
        lemma_find_key_some(es@, key@);
        lemma_sorted_entry(es@, key@);
    }
    match find_key_exec(es, key) {
        None => {},
        Some(i) => {
            let ghost old_es = es@;
            es.remove(i);
            proof {
                let ne = es@;
                assert(ne =~= old_es.remove(i as int));
                assert forall|a: int, b: int| 0 <= a < b < ne.len() implies lex_order(
                    #[trigger] ne[a].0@,
                    #[trigger] ne[b].0@,
                ) == Order::Less by {
                    if a < i && b >= i {
                        assert(ne[b] == old_es[b + 1]);
                    } else if a >= i {
                        assert(ne[a] == old_es[a + 1]);
                        assert(ne[b] == old_es[b + 1]);
                    }
                }
                lemma_sorted_entry(ne, key@);
                assert forall|j: int| 0 <= j < ne.len() implies ne[j].0@ != key@ by {
                    if j < i {
                        assert(ne[j] == old_es[j]);
                        assert(lex_order(old_es[j].0@, old_es[i as int].0@) == Order::Less);
                        lemma_lex_order_antisym(old_es[j].0@, old_es[i as int].0@);
                    } else {
                        assert(ne[j] == old_es[j + 1]);
                        assert(lex_order(old_es[i as int].0@, old_es[j + 1].0@) == Order::Less);
                        lemma_lex_order_antisym(old_es[i as int].0@, old_es[j + 1].0@);
                    }
                }
                assert forall|k2: Seq<char>| k2 != key@ implies entry_of(ne, k2) == entry_of(old_es, k2) by {
                    lemma_sorted_entry(ne, k2);
                    lemma_sorted_entry(old_es, k2);
                    if exists|j: int| 0 <= j < old_es.len() && old_es[j].0@ == k2 {
                        let j = choose|j: int| 0 <= j < old_es.len() && old_es[j].0@ == k2;
                        if j < i {
                            assert(ne[j] == old_es[j]);
                        } else {
                            assert(j != i);
                            assert(ne[j - 1] == old_es[j]);
                        }
                    } else {
                        assert forall|j: int| 0 <= j < ne.len() implies ne[j].0@ != k2 by {
                            if j < i {
                                assert(ne[j] == old_es[j]);
                            } else {
                                assert(ne[j] == old_es[j + 1]);
                            }
                        }
                    }
                }
            }
        },
    }
}

/// `r` is `v` with `key` set to the string `text` when the object lacks it.
pub open spec fn with_default_text(v: JsonValue, key: Seq<char>, text: Seq<char>, r: JsonValue) -> bool {
    match v {
        JsonValue::Object(es) => r is Object && keys_sorted(r->Object_0@) && defaulted(
            entry_of(es@, key),
            entry_of(r->Object_0@, key),
            text,
        ) && forall|k: Seq<char>| k != key ==> entry_of(r->Object_0@, k) == entry_of(es@, k),
        _ => r == v,
    }
}

/// The lines of a key: one `key = text` line per value.
pub open spec fn items_lines(k: Seq<char>, items: Seq<JsonValue>) -> Seq<char>
    decreases items.len(),
{
    if items.len() == 0 {
        Seq::empty()
    } else {
        items_lines(k, items.drop_last()) + k + " = "@ + value_text(items.last()) + "\n"@
    }
}

pub open spec fn entry_lines(k: Seq<char>, v: JsonValue) -> Seq<char> {
    match v {
        JsonValue::Array(items) => items_lines(k, items@),
        _ => k + " = "@ + value_text(v) + "\n"@,
    }
}

/// The manifest text of the entries, in their order.
pub open spec fn pretty_text(es: Seq<(String, JsonValue)>) -> Seq<char>
    decreases es.len(),
{
    if es.len() == 0 {
        Seq::empty()
    } else {
        pretty_text(es.drop_last()) + entry_lines(es.last().0@, es.last().1)
    }
}

fn push_line(out: &mut String, k: &str, v: &JsonValue)
    ensures
        final(out)@ == old(out)@ + k@ + " = "@ + value_text(*v) + "\n"@,
{
    append_str(out, k);
    append_str(out, " = ");
    let t = value_to_text(v);
    append_str(out, t.as_str());
    append_str(out, "\n");
}

/// `pkgver-pkgrel` of a manifest value, or `pkgver` without a release.
pub fn version_display(value: &JsonValue) -> (r: String)
    ensures
        r@ == version_key(first_text(*value, "pkgver"@), first_text(*value, "pkgrel"@)),
{
    let pkgver = get_first(value, "pkgver");
    let pkgrel = get_first(value, "pkgrel");
    crate::pica_pkg_core::version::pkgver_cmp_key(pkgver.as_str(), pkgrel.as_str())
}

impl Manifest {
    pub fn get_first(&self, key: &str) -> (r: String)
        ensures
            r@ == first_text(self.value, key@),
    {
        get_first(&self.value, key)
    }

    pub fn get_scalar(&self, key: &str) -> (r: String)
        ensures
            r@ == scalar_text(self.value, key@),
    {
        get_scalar(&self.value, key)
    }

    pub fn get_array(&self, key: &str) -> (r: Vec<String>)
        ensures
            string_views(r@) == array_texts(self.value, key@),
    {
        get_array(&self.value, key)
    }

    /// `pkgver-pkgrel`, or `pkgver` without a release.
    pub fn pkgver_display(&self) -> (r: String)
        ensures
            r@ == version_key(first_text(self.value, "pkgver"@), first_text(self.value, "pkgrel"@)),
    {
        version_display(&self.value)
    }

    /// `appname(branch)`, or `appname`; the app name falls back to the
    /// given package name.
    pub fn canonical_selector(&self, fallback_pkgname: &str) -> (r: String)
        ensures
            r@ == canonical(
                if first_text(self.value, "appname"@).len() == 0 {
                    fallback_pkgname@
                } else {
                    first_text(self.value, "appname"@)
                },
                Seq::empty(),
                first_text(self.value, "branch"@),
            ),
    {
        let appname = self.get_first("appname");
        let appname = if appname.as_str().is_empty() {
            copy_str(fallback_pkgname)
        } else {
            appname
        };
        let selector = crate::pica_core::selector::Selector {
            raw: String::new(),
            norm: String::new(),
            appname,
            version: String::new(),
            branch: self.get_first("branch"),
        };
        selector.to_canonical_string()
    }

    /// Whether `type` lists `target`.
    pub fn has_type(&self, target: &str) -> (r: bool)
        ensures
            r == array_texts(self.value, "type"@).contains(target@),
    {
        let types = self.get_array("type");
        let mut i: usize = 0;
        while i < types.len()
            invariant
                i <= types@.len(),
                string_views(types@) == array_texts(self.value, "type"@),
                forall|j: int| 0 <= j < i ==> types@[j]@ != target@,
            decreases types.len() - i,
        {
            if str_eq(types[i].as_str(), target) {
                assert(string_views(types@)[i as int] == target@);
                return true;
            }
            i += 1;
        }
        assert(!string_views(types@).contains(target@)) by {
            if string_views(types@).contains(target@) {
                let j = choose|j: int| 0 <= j < string_views(types@).len() && string_views(types@)[j] == target@;
                assert(types@[j]@ == target@);
            }
        }
        false
    }

    /// The manifest with `source` set when it has none.
    pub fn with_source_default(self, source: &str) -> (r: Manifest)
        requires
            self.value is Object ==> keys_sorted(self.value->Object_0@),
        ensures
            with_default_text(self.value, "source"@, source@, r.value),
    {
        match self.value {
            JsonValue::Object(mut es) => {
                proof {
                    lemma_find_key_some(es@, "source"@);
                }
                match find_key_exec(&es, "source") {
                    Some(_) => Manifest { value: JsonValue::Object(es) },
                    None => {
                        object_insert_absent(&mut es, "source", JsonValue::String(copy_str(source)));
                        Manifest { value: JsonValue::Object(es) }
                    },
                }
            },
            other => Manifest { value: other },
        }
    }

    /// The manifest with empty `branch` and `protocol` set where absent.
    pub fn with_selector_defaults(self, fallback_pkgname: &str) -> (r: Manifest)
        requires
            self.value is Object ==> keys_sorted(self.value->Object_0@),
        ensures
            match self.value {
                JsonValue::Object(es) => r.value is Object && keys_sorted(r.value->Object_0@)
                    && defaulted(entry_of(es@, "branch"@), entry_of(r.value->Object_0@, "branch"@), Seq::empty())
                    && defaulted(entry_of(es@, "protocol"@), entry_of(r.value->Object_0@, "protocol"@), Seq::empty())
                    && forall|k: Seq<char>| k != "branch"@ && k != "protocol"@ ==> entry_of(r.value->Object_0@, k) == entry_of(es@, k),
                _ => r.value == self.value,
            },
    {
        match self.value {
            JsonValue::Object(mut es) => {
                let ghost e0 = es@;
                if find_key_exec(&es, "branch").is_none() {
                    object_insert_absent(&mut es, "branch", JsonValue::String(String::new()));
                }
                let ghost e1 = es@;
                proof {
                    reveal_strlit("branch");
                    reveal_strlit("protocol");
                    assert("branch"@.len() != "protocol"@.len());
                }
                if find_key_exec(&es, "protocol").is_none() {
                    object_insert_absent(&mut es, "protocol", JsonValue::String(String::new()));
                }
                Manifest { value: JsonValue::Object(es) }
            },
            other => Manifest { value: other },
        }
    }

    /// The first value of `key`, or an error when it is empty.
    pub fn require_non_empty(&self, key: &str) -> (r: Result<String, String>)
        ensures
            first_text(self.value, key@).len() == 0 ==> r is Err && r->Err_0@ == "manifest missing "@ + key@,
            first_text(self.value, key@).len() > 0 ==> r is Ok && r->Ok_0@ == first_text(self.value, key@),
    {
        let value = self.get_first(key);
        if value.as_str().is_empty() {
            let mut m = copy_str("manifest missing ");
            append_str(&mut m, key);
            Err(m)
        } else {
            Ok(value)
        }
    }

    /// The manifest as compact JSON text.
    pub fn to_string(&self) -> (r: Result<String, String>)
        ensures
            r matches Ok(t) && t@ == json_text(self.value),
    {
        let mut out = String::new();
        push_json_text(&mut out, &self.value);
        assert(out@ =~= json_text(self.value));
        Ok(out)
    }

    /// The manifest as text: one `key = value` line per value, keys in order.
    pub fn to_pretty_text(&self) -> (r: String)
        ensures
            r@ == match self.value {
                JsonValue::Object(es) => pretty_text(es@),
                _ => Seq::empty(),
            },
    {
        let mut out = String::new();
        match &self.value {
            JsonValue::Object(es) => {
                let mut i: usize = 0;
                while i < es.len()
                    invariant
                        i <= es@.len(),
                        out@ == pretty_text(es@.take(i as int)),
                    decreases es.len() - i,
                {
                    assert(es@.take(i + 1).drop_last() =~= es@.take(i as int));
                    let k = es[i].0.as_str();
                    match &es[i].1 {
                        JsonValue::Array(items) => {
                            let ghost start = out@;
                            let mut t: usize = 0;
                            while t < items.len()
                                invariant
                                    t <= items@.len(),
                                    out@ == start + items_lines(k@, items@.take(t as int)),
                                decreases items.len() - t,
                            {
                                assert(items@.take(t + 1).drop_last() =~= items@.take(t as int));
                                push_line(&mut out, k, &items[t]);
                                assert(out@ =~= start + items_lines(k@, items@.take(t + 1)));
                                t += 1;
                            }
                            assert(items@.take(items@.len() as int) =~= items@);
                        },
                        other => {
                            push_line(&mut out, k, other);
                        },
                    }
                    assert(out@ =~= pretty_text(es@.take(i + 1)));
                    i += 1;
                }
                assert(es@.take(es@.len() as int) =~= es@);
            },
            _ => {},
        }
        out
    }
}


/// A manifest reads back what its text says: every value of a key, in the
/// order of the lines (a repeated key is a list), and its first value;
/// nothing for a key the text does not set.
pub proof fn law_manifest_values_read_back(text: Seq<char>, m: JsonValue, key: Seq<char>)
    requires
        object_matches(m, manifest_model(text)),
    ensures
        array_texts(m, key) == (if manifest_model(text).contains_key(key) {
            manifest_model(text)[key]
        } else {
            Seq::empty()
        }),
        first_text(m, key) == (if manifest_model(text).contains_key(key) {
            manifest_model(text)[key][0]
        } else {
            Seq::empty()
        }),
{
    let model = manifest_model(text);
    let es = m->Object_0@;
    lemma_find_key_some(es, key);
    assert(model.contains_key(key) <==> find_key(es, key) is Some);
    match find_key(es, key) {
        Some(i) => {
            assert(es[i].0@ == key);
            assert(json_get(m, key) == Some(es[i].1));
            let vals = model[key];
            assert(entry_matches(es[i].1, vals));
            if vals.len() == 1 {
                assert(array_texts(m, key) =~= vals);
            } else {
                let items = es[i].1->Array_0@;
                assert(items.map_values(|x: JsonValue| value_text(x)) =~= vals);
            }
        },
        None => {},
    }
}

} // verus!
