//! Reading back the text a manifest prints: the keys and values that a
//! manifest text gives are the ones its printed text gives again.
use vstd::prelude::*;
use crate::text::{
    trim, trim_start, trim_end, is_whitespace, split_seq, first_index_of, split_once_spec,
    lemma_first_index_absent, lemma_first_index_after,
};
use crate::pica_pkg_core::manifest::{
    before_hash, parse_line, kv_model, manifest_model, items_lines, entry_lines, pretty_text,
    value_text, object_matches, entry_matches,
};
use crate::json::{JsonValue, keys_sorted, find_key, lemma_find_key_some};
use crate::strset::lemma_lex_order_antisym;
use crate::text::Order;

verus! {

/// No `c` anywhere in `s`.
pub open spec fn avoids(s: Seq<char>, c: char) -> bool {
    forall|i: int| 0 <= i < s.len() ==> s[i] != c
}

/// Neither end of `s` is whitespace.
pub open spec fn trimmed(s: Seq<char>) -> bool {
    s.len() == 0 || (!is_whitespace(s[0]) && !is_whitespace(s.last()))
}

pub proof fn lemma_first_index_facts(s: Seq<char>, c: char)
    ensures
        match first_index_of(s, c) {
            Some(i) => 0 <= i < s.len() && s[i] == c && forall|j: int| 0 <= j < i ==> s[j] != c,
            None => avoids(s, c),
        },
    decreases s.len(),
{
    if s.len() > 0 && s[0] != c {
        lemma_first_index_facts(s.drop_first(), c);
        match first_index_of(s.drop_first(), c) {
            Some(i) => {
                assert forall|j: int| 0 <= j < i + 1 implies s[j] != c by {
                    if j > 0 {
                        assert(s[j] == s.drop_first()[j - 1]);
                    }
                }
            },
            None => {
                assert forall|j: int| 0 <= j < s.len() implies s[j] != c by {
                    if j > 0 {
                        assert(s[j] == s.drop_first()[j - 1]);
                    }
                }
            },
        }
    }
}

proof fn lemma_trim_start_skip(s: Seq<char>) -> (n: int)
    ensures
        0 <= n <= s.len(),
        trim_start(s) == s.skip(n),
        trim_start(s).len() > 0 ==> !is_whitespace(trim_start(s)[0]),
    decreases s.len(),
{
    if s.len() > 0 && is_whitespace(s[0]) {
        let m = lemma_trim_start_skip(s.drop_first());
        assert(s.drop_first().skip(m) =~= s.skip(m + 1));
        m + 1
    } else {
        assert(s.skip(0) =~= s);
        0
    }
}

proof fn lemma_trim_end_take(s: Seq<char>) -> (n: int)
    ensures
        0 <= n <= s.len(),
        trim_end(s) == s.take(n),
        trim_end(s).len() > 0 ==> !is_whitespace(trim_end(s).last()),
    decreases s.len(),
{
    if s.len() > 0 && is_whitespace(s.last()) {
        let m = lemma_trim_end_take(s.drop_last());
        assert(s.drop_last().take(m) =~= s.take(m));
        m
    } else {
        assert(s.take(s.len() as int) =~= s);
        s.len() as int
    }
}

/// A trimmed text keeps out what the text kept out, and has no whitespace
/// at its ends.
proof fn lemma_trim_facts(s: Seq<char>)
    ensures
        trimmed(trim(s)),
        forall|c: char| avoids(s, c) ==> avoids(trim(s), c),
{
    let a = lemma_trim_start_skip(s);
    let t = trim_start(s);
    let b = lemma_trim_end_take(t);
    if trim(s).len() > 0 {
        assert(trim(s)[0] == t[0]);
    }
    assert forall|c: char| avoids(s, c) implies avoids(trim(s), c) by {
        assert forall|i: int| 0 <= i < trim(s).len() implies trim(s)[i] != c by {
            assert(trim(s)[i] == s[i + a]);
        }
    }
}

pub proof fn lemma_split_len(s: Seq<char>, sep: char)
    ensures
        split_seq(s, sep).len() >= 1,
    decreases s.len(),
{
    if s.len() > 0 {
        lemma_split_len(s.drop_last(), sep);
    }
}

/// The pieces of a split hold no separator.
proof fn lemma_split_pieces_avoid(s: Seq<char>, sep: char)
    ensures
        forall|i: int| 0 <= i < split_seq(s, sep).len() ==> avoids(#[trigger] split_seq(s, sep)[i], sep),
    decreases s.len(),
{
    lemma_split_len(s, sep);
    if s.len() > 0 {
        lemma_split_pieces_avoid(s.drop_last(), sep);
        lemma_split_len(s.drop_last(), sep);
        let r = split_seq(s.drop_last(), sep);
        if s.last() != sep {
            assert forall|i: int| 0 <= i < split_seq(s, sep).len() implies avoids(
                #[trigger] split_seq(s, sep)[i],
                sep,
            ) by {
                if i == r.len() - 1 {
                    assert(avoids(r[i], sep));
                    assert(split_seq(s, sep)[i] == r.last().push(s.last()));
                }
            }
        }
    }
}

/// Text without a separator extends the last piece.
proof fn lemma_split_extend(x: Seq<char>, line: Seq<char>, sep: char)
    requires
        avoids(line, sep),
    ensures
        split_seq(x + line, sep) == split_seq(x, sep).update(
            split_seq(x, sep).len() - 1,
            split_seq(x, sep).last() + line,
        ),
    decreases line.len(),
{
    let r0 = split_seq(x, sep);
    lemma_split_len(x, sep);
    if line.len() == 0 {
        assert(x + line =~= x);
        assert(r0.last() + line =~= r0.last());
        assert(r0.update(r0.len() - 1, r0.last()) =~= r0);
    } else {
        let lp = line.drop_last();
        lemma_split_extend(x, lp, sep);
        assert((x + line).drop_last() =~= x + lp);
        assert((x + line).last() == line.last());
        assert(line.last() == line[line.len() - 1]);
        let r1 = split_seq(x + lp, sep);
        assert(r1.last().push(line.last()) =~= r0.last() + line);
        assert(split_seq(x + line, sep) =~= r0.update(r0.len() - 1, r0.last() + line));
    }
}

/// Splitting a text that ends a line after earlier lines.
proof fn lemma_split_line(x: Seq<char>, ls: Seq<Seq<char>>, line: Seq<char>)
    requires
        split_seq(x, '\n') == ls.push(Seq::<char>::empty()),
        avoids(line, '\n'),
    ensures
        split_seq(x + line + seq!['\n'], '\n') == ls.push(line).push(Seq::<char>::empty()),
{
    lemma_split_extend(x, line, '\n');
    let y = x + line;
    assert(Seq::<char>::empty() + line =~= line);
    assert(split_seq(y, '\n') =~= ls.push(line));
    let z = x + line + seq!['\n'];
    assert(z.drop_last() =~= y);
    assert(z.last() == '\n');
}

/// A key as reading a line leaves it: not empty, no whitespace at its ends,
/// and no `=`, `#` or line break in it.
pub open spec fn key_ok(k: Seq<char>) -> bool {
    k.len() > 0 && trimmed(k) && avoids(k, '=') && avoids(k, '#') && avoids(k, '\n')
}

/// A value as reading a line leaves it: no whitespace at its ends, and no
/// `#` or line break in it.
pub open spec fn value_ok(v: Seq<char>) -> bool {
    trimmed(v) && avoids(v, '#') && avoids(v, '\n')
}

/// Every key of the model is as reading leaves it and has at least one
/// value, each as reading leaves it.
pub open spec fn model_ok(m: Map<Seq<char>, Seq<Seq<char>>>) -> bool {
    forall|k: Seq<char>|
        #[trigger] m.contains_key(k) ==> key_ok(k) && m[k].len() >= 1 && forall|t: int|
            0 <= t < m[k].len() ==> value_ok(#[trigger] m[k][t])
}

/// The line `key = value` reads back as that key and value.
proof fn lemma_parse_printed(k: Seq<char>, v: Seq<char>)
    requires
        key_ok(k),
        value_ok(v),
    ensures
        parse_line(k + " = "@ + v) == Some((k, v)),
{
    reveal_strlit(" = ");
    let line = k + " = "@ + v;
    let kk = k.push(' ');
    assert(line =~= kk + seq!['='] + (seq![' '] + v));
    assert forall|i: int| 0 <= i < line.len() implies line[i] != '#' by {
        if i < k.len() {
            assert(line[i] == k[i]);
        } else if i >= k.len() + 3 {
            assert(line[i] == v[i - k.len() - 3]);
        }
    }
    lemma_first_index_absent(line, '#');
    assert(before_hash(line) == line);
    assert(line[0] == k[0]);
    assert(trim_start(line) == line);
    let rest = if v.len() == 0 {
        Seq::<char>::empty()
    } else {
        seq![' '] + v
    };
    if v.len() == 0 {
        assert(is_whitespace(line.last()));
        assert(line.drop_last() =~= kk + seq!['=']);
        assert(trim_end(kk + seq!['=']) == kk + seq!['=']);
        assert(trim(line) =~= kk + seq!['='] + rest);
    } else {
        assert(line.last() == v.last());
        assert(trim_end(line) == line);
        assert(trim(line) =~= kk + seq!['='] + rest);
    }
    let l = trim(line);
    assert forall|i: int| 0 <= i < kk.len() implies kk[i] != '=' by {
        if i < k.len() {
            assert(kk[i] == k[i]);
        }
    }
    lemma_first_index_after(kk, '=', rest);
    assert(l.take(kk.len() as int) =~= kk);
    assert(l.skip(kk.len() as int + 1) =~= rest);
    assert(split_once_spec(l, '=') == Some((kk, rest)));
    assert(kk[0] == k[0]);
    assert(trim_start(kk) == kk);
    assert(kk.drop_last() =~= k);
    assert(trim_end(k) == k);
    assert(trim_end(kk) == k);
    if v.len() > 0 {
        assert(rest.drop_first() =~= v);
        assert(trim_start(v) == v);
        assert(trim_start(rest) == v);
        assert(trim_end(v) == v);
    }
    assert(trim(rest) == v);
}

/// What reading a line gives is as reading leaves keys and values.
proof fn lemma_parse_line_facts(raw: Seq<char>)
    requires
        avoids(raw, '\n'),
    ensures
        match parse_line(raw) {
            Some((k, v)) => key_ok(k) && value_ok(v),
            None => true,
        },
{
    let h = before_hash(raw);
    lemma_first_index_facts(raw, '#');
    assert(avoids(h, '#'));
    assert(avoids(h, '\n'));
    let l = trim(h);
    lemma_trim_facts(h);
    if l.len() > 0 {
        lemma_first_index_facts(l, '=');
        match first_index_of(l, '=') {
            Some(i) => {
                let k0 = l.take(i);
                let v0 = l.skip(i + 1);
                assert(avoids(k0, '='));
                assert(avoids(k0, '#'));
                assert(avoids(k0, '\n'));
                assert(avoids(v0, '#'));
                assert(avoids(v0, '\n'));
                lemma_trim_facts(k0);
                lemma_trim_facts(v0);
            },
            None => {},
        }
    }
}

/// The model of lines without line breaks is as reading leaves it.
proof fn lemma_kv_model_ok(lines: Seq<Seq<char>>)
    requires
        forall|i: int| 0 <= i < lines.len() ==> avoids(#[trigger] lines[i], '\n'),
    ensures
        model_ok(kv_model(lines)),
    decreases lines.len(),
{
    if lines.len() > 0 {
        let lp = lines.drop_last();
        assert forall|i: int| 0 <= i < lp.len() implies avoids(#[trigger] lp[i], '\n') by {
            assert(lp[i] == lines[i]);
        }
        lemma_kv_model_ok(lp);
        assert(avoids(lines[lines.len() - 1], '\n'));
        lemma_parse_line_facts(lines.last());
        let m = kv_model(lp);
        match parse_line(lines.last()) {
            None => {},
            Some((k, v)) => {
                let n = kv_model(lines);
                assert forall|key: Seq<char>| #[trigger] n.contains_key(key) implies key_ok(key)
                    && n[key].len() >= 1 && forall|t: int|
                    0 <= t < n[key].len() ==> value_ok(#[trigger] n[key][t]) by {
                    if key == k {
                        if m.contains_key(k) {
                            assert(n[key] == m[k].push(v));
                            assert forall|t: int| 0 <= t < n[key].len() implies value_ok(
                                #[trigger] n[key][t],
                            ) by {
                                if t < m[k].len() {
                                    assert(n[key][t] == m[k][t]);
                                }
                            }
                        } else {
                            assert(n[key] == seq![v]);
                        }
                    } else {
                        assert(m.contains_key(key));
                        assert(n[key] == m[key]);
                    }
                }
            },
        }
    }
}

/// The model of any manifest text is as reading leaves it.
pub proof fn lemma_manifest_model_ok(text: Seq<char>)
    ensures
        model_ok(manifest_model(text)),
{
    lemma_split_pieces_avoid(text, '\n');
    lemma_kv_model_ok(split_seq(text, '\n'));
}

/// The printed line of a key and a value.
pub open spec fn printed(k: Seq<char>, v: Seq<char>) -> Seq<char> {
    k + " = "@ + v
}

/// The printed lines of a key and its values.
pub open spec fn lines_of(k: Seq<char>, vals: Seq<Seq<char>>) -> Seq<Seq<char>> {
    vals.map_values(|v: Seq<char>| printed(k, v))
}

/// The values an entry prints: the items of a list, else the one value.
pub open spec fn entry_values(v: JsonValue) -> Seq<Seq<char>> {
    match v {
        JsonValue::Array(items) => items@.map_values(|x: JsonValue| value_text(x)),
        _ => seq![value_text(v)],
    }
}

/// The printed lines of the entries, in order.
pub open spec fn printed_lines(es: Seq<(String, JsonValue)>) -> Seq<Seq<char>>
    decreases es.len(),
{
    if es.len() == 0 {
        Seq::empty()
    } else {
        printed_lines(es.drop_last()) + lines_of(es.last().0@, entry_values(es.last().1))
    }
}

/// An entry whose key and printed values read back as themselves.
pub open spec fn entry_ok(k: Seq<char>, v: JsonValue) -> bool {
    &&& key_ok(k)
    &&& entry_values(v).len() >= 1
    &&& forall|t: int| 0 <= t < entry_values(v).len() ==> value_ok(#[trigger] entry_values(v)[t])
}

proof fn lemma_printed_avoids(k: Seq<char>, v: Seq<char>)
    requires
        key_ok(k),
        value_ok(v),
    ensures
        avoids(printed(k, v), '\n'),
{
    reveal_strlit(" = ");
    let line = printed(k, v);
    assert forall|i: int| 0 <= i < line.len() implies line[i] != '\n' by {
        if i < k.len() {
            assert(line[i] == k[i]);
        } else if i >= k.len() + 3 {
            assert(line[i] == v[i - k.len() - 3]);
        }
    }
}

/// Splitting the printed lines of one entry after earlier lines.
proof fn lemma_split_entry(x: Seq<char>, ls: Seq<Seq<char>>, k: Seq<char>, v: JsonValue)
    requires
        split_seq(x, '\n') == ls.push(Seq::<char>::empty()),
        entry_ok(k, v),
    ensures
        split_seq(x + entry_lines(k, v), '\n') == (ls + lines_of(k, entry_values(v))).push(
            Seq::<char>::empty(),
        ),
{
    reveal_strlit("\n");
    match v {
        JsonValue::Array(items) => {
            assert forall|t: int| 0 <= t < items@.len() implies value_ok(
                #[trigger] value_text(items@[t]),
            ) by {
                assert(entry_values(v)[t] == value_text(items@[t]));
            }
            lemma_split_items(x, ls, k, items@);
        },
        _ => {
            assert(entry_values(v)[0] == value_text(v));
            lemma_printed_avoids(k, value_text(v));
            lemma_split_line(x, ls, printed(k, value_text(v)));
            assert(x + entry_lines(k, v) =~= x + printed(k, value_text(v)) + seq!['\n']);
            assert(ls.push(printed(k, value_text(v))) =~= ls + lines_of(k, entry_values(v)));
        },
    }
}

proof fn lemma_split_items(x: Seq<char>, ls: Seq<Seq<char>>, k: Seq<char>, items: Seq<JsonValue>)
    requires
        split_seq(x, '\n') == ls.push(Seq::<char>::empty()),
        key_ok(k),
        forall|t: int| 0 <= t < items.len() ==> value_ok(#[trigger] value_text(items[t])),
    ensures
        split_seq(x + items_lines(k, items), '\n') == (ls + lines_of(
            k,
            items.map_values(|j: JsonValue| value_text(j)),
        )).push(Seq::<char>::empty()),
    decreases items.len(),
{
    reveal_strlit("\n");
    let vals = items.map_values(|j: JsonValue| value_text(j));
    if items.len() == 0 {
        assert(x + items_lines(k, items) =~= x);
        assert(ls + lines_of(k, vals) =~= ls);
    } else {
        let ip = items.drop_last();
        assert forall|t: int| 0 <= t < ip.len() implies value_ok(#[trigger] value_text(ip[t])) by {
            assert(ip[t] == items[t]);
        }
        lemma_split_items(x, ls, k, ip);
        let vp = ip.map_values(|j: JsonValue| value_text(j));
        let y = x + items_lines(k, ip);
        let last = value_text(items.last());
        assert(value_ok(value_text(items[items.len() - 1])));
        lemma_printed_avoids(k, last);
        lemma_split_line(y, ls + lines_of(k, vp), printed(k, last));
        assert(x + items_lines(k, items) =~= y + printed(k, last) + seq!['\n']);
        assert((ls + lines_of(k, vp)).push(printed(k, last)) =~= ls + lines_of(k, vals));
    }
}

/// The printed text of the entries splits into their printed lines.
proof fn lemma_split_pretty(es: Seq<(String, JsonValue)>)
    requires
        forall|i: int| 0 <= i < es.len() ==> entry_ok((#[trigger] es[i]).0@, es[i].1),
    ensures
        split_seq(pretty_text(es), '\n') == printed_lines(es).push(Seq::<char>::empty()),
    decreases es.len(),
{
    if es.len() == 0 {
        assert(split_seq(pretty_text(es), '\n') =~= Seq::<Seq<char>>::empty().push(
            Seq::<char>::empty(),
        ));
    } else {
        let ep = es.drop_last();
        assert forall|i: int| 0 <= i < ep.len() implies entry_ok((#[trigger] ep[i]).0@, ep[i].1) by {
            assert(ep[i] == es[i]);
        }
        lemma_split_pretty(ep);
        assert(entry_ok(es[es.len() - 1].0@, es[es.len() - 1].1));
        lemma_split_entry(pretty_text(ep), printed_lines(ep), es.last().0@, es.last().1);
    }
}

/// Reading the printed lines of a new key after earlier lines adds the key
/// with its values.
proof fn lemma_kv_lines(pre: Seq<Seq<char>>, k: Seq<char>, vals: Seq<Seq<char>>)
    requires
        !kv_model(pre).contains_key(k),
        key_ok(k),
        vals.len() >= 1,
        forall|t: int| 0 <= t < vals.len() ==> value_ok(#[trigger] vals[t]),
    ensures
        kv_model(pre + lines_of(k, vals)) == kv_model(pre).insert(k, vals),
    decreases vals.len(),
{
    let vp = vals.drop_last();
    let v = vals.last();
    assert(value_ok(vals[vals.len() - 1]));
    lemma_parse_printed(k, v);
    let all = pre + lines_of(k, vals);
    assert(all.drop_last() =~= pre + lines_of(k, vp));
    assert(all.last() == printed(k, v));
    if vp.len() == 0 {
        assert(pre + lines_of(k, vp) =~= pre);
        assert(vals =~= seq![v]);
    } else {
        assert forall|t: int| 0 <= t < vp.len() implies value_ok(#[trigger] vp[t]) by {
            assert(vp[t] == vals[t]);
        }
        lemma_kv_lines(pre, k, vp);
        assert(vp.push(v) =~= vals);
        assert(kv_model(pre).insert(k, vp).insert(k, vp.push(v)) =~= kv_model(pre).insert(k, vals));
    }
}

/// The keys of the entries, each with the values it prints.
pub open spec fn entries_model(es: Seq<(String, JsonValue)>) -> Map<Seq<char>, Seq<Seq<char>>>
    decreases es.len(),
{
    if es.len() == 0 {
        Map::empty()
    } else {
        entries_model(es.drop_last()).insert(es.last().0@, entry_values(es.last().1))
    }
}

/// No key is given twice.
pub open spec fn keys_distinct(es: Seq<(String, JsonValue)>) -> bool {
    forall|i: int, j: int| 0 <= i < j < es.len() ==> (#[trigger] es[i]).0@ != (#[trigger] es[j]).0@
}

proof fn lemma_entries_model_keys(es: Seq<(String, JsonValue)>)
    requires
        keys_distinct(es),
    ensures
        forall|k: Seq<char>|
            #[trigger] entries_model(es).contains_key(k) <==> exists|i: int|
                0 <= i < es.len() && (#[trigger] es[i]).0@ == k,
        forall|i: int|
            0 <= i < es.len() ==> entries_model(es)[(#[trigger] es[i]).0@] == entry_values(es[i].1),
    decreases es.len(),
{
    if es.len() > 0 {
        let ep = es.drop_last();
        assert forall|i: int, j: int| 0 <= i < j < ep.len() implies (#[trigger] ep[i]).0@ != (
        #[trigger] ep[j]).0@ by {
            assert(ep[i] == es[i] && ep[j] == es[j]);
        }
        lemma_entries_model_keys(ep);
        let n = es.len() - 1;
        assert forall|k: Seq<char>| #[trigger] entries_model(es).contains_key(k) <==> exists|i: int|
            0 <= i < es.len() && (#[trigger] es[i]).0@ == k by {
            if entries_model(es).contains_key(k) {
                if k == es[n].0@ {
                    assert(es[n].0@ == k);
                } else {
                    assert(entries_model(ep).contains_key(k));
                    let i = choose|i: int| 0 <= i < ep.len() && (#[trigger] ep[i]).0@ == k;
                    assert(es[i] == ep[i]);
                }
            }
            if exists|i: int| 0 <= i < es.len() && (#[trigger] es[i]).0@ == k {
                let i = choose|i: int| 0 <= i < es.len() && (#[trigger] es[i]).0@ == k;
                if i < n {
                    assert(ep[i] == es[i]);
                    assert(entries_model(ep).contains_key(k));
                }
            }
        }
        assert forall|i: int| 0 <= i < es.len() implies entries_model(es)[(#[trigger] es[i]).0@]
            == entry_values(es[i].1) by {
            if i < n {
                assert(ep[i] == es[i]);
                assert(es[i].0@ != es[n].0@);
            }
        }
    }
}

/// Reading the printed lines of entries with distinct keys gives each key
/// with the values it prints.
proof fn lemma_kv_printed(es: Seq<(String, JsonValue)>)
    requires
        keys_distinct(es),
        forall|i: int| 0 <= i < es.len() ==> entry_ok((#[trigger] es[i]).0@, es[i].1),
    ensures
        kv_model(printed_lines(es)) == entries_model(es),
    decreases es.len(),
{
    if es.len() > 0 {
        let ep = es.drop_last();
        let n = es.len() - 1;
        assert forall|i: int, j: int| 0 <= i < j < ep.len() implies (#[trigger] ep[i]).0@ != (
        #[trigger] ep[j]).0@ by {
            assert(ep[i] == es[i] && ep[j] == es[j]);
        }
        assert forall|i: int| 0 <= i < ep.len() implies entry_ok((#[trigger] ep[i]).0@, ep[i].1) by {
            assert(ep[i] == es[i]);
        }
        lemma_kv_printed(ep);
        lemma_entries_model_keys(ep);
        let k = es[n].0@;
        if entries_model(ep).contains_key(k) {
            let i = choose|i: int| 0 <= i < ep.len() && (#[trigger] ep[i]).0@ == k;
            assert(ep[i] == es[i]);
        }
        assert(entry_ok(es[n].0@, es[n].1));
        lemma_kv_lines(printed_lines(ep), k, entry_values(es[n].1));
    }
}

/// Printing a manifest that a text gave, and reading the printed text, gives
/// every key of the text again with the same values in the same order, and
/// no other key.
pub proof fn law_manifest_print_reads_back(text: Seq<char>, m: JsonValue)
    requires
        object_matches(m, manifest_model(text)),
    ensures
        manifest_model(pretty_text(m->Object_0@)) == manifest_model(text),
{
    let model = manifest_model(text);
    let es = m->Object_0@;
    lemma_manifest_model_ok(text);
    assert forall|i: int, j: int| 0 <= i < j < es.len() implies (#[trigger] es[i]).0@ != (
    #[trigger] es[j]).0@ by {
        assert(lex_order_less(es, i, j));
        lemma_lex_order_antisym(es[i].0@, es[j].0@);
    }
    assert forall|i: int| 0 <= i < es.len() implies entry_ok((#[trigger] es[i]).0@, es[i].1) by {
        let k = es[i].0@;
        lemma_find_key_some(es, k);
        assert(model.contains_key(k));
        let vals = model[k];
        assert(entry_matches(es[i].1, vals));
        lemma_entry_values_match(es[i].1, vals);
    }
    lemma_split_pretty(es);
    let lines = printed_lines(es);
    assert(split_seq(pretty_text(es), '\n').drop_last() =~= lines);
    assert(parse_line(Seq::<char>::empty()) is None) by {
        lemma_first_index_absent(Seq::<char>::empty(), '#');
    }
    lemma_kv_printed(es);
    lemma_entries_model_keys(es);
    assert forall|k: Seq<char>| #[trigger] model.contains_key(k) <==> entries_model(es).contains_key(k) by {
        lemma_find_key_some(es, k);
        if entries_model(es).contains_key(k) {
            let i = choose|i: int| 0 <= i < es.len() && (#[trigger] es[i]).0@ == k;
            assert(find_key(es, k) is Some);
        }
    }
    assert forall|k: Seq<char>| #[trigger] model.contains_key(k) implies entries_model(es)[k] == model[k] by {
        lemma_find_key_some(es, k);
        let i = find_key(es, k)->Some_0;
        assert(es[i].0@ == k);
        lemma_entry_values_match(es[i].1, model[k]);
    }
    assert(entries_model(es) =~= model);
}

spec fn lex_order_less(es: Seq<(String, JsonValue)>, i: int, j: int) -> bool {
    crate::text::lex_order(es[i].0@, es[j].0@) == Order::Less
}

/// The values an entry prints are the values it matches.
proof fn lemma_entry_values_match(v: JsonValue, vals: Seq<Seq<char>>)
    requires
        entry_matches(v, vals),
    ensures
        entry_values(v) == vals,
{
    if vals.len() == 1 {
        assert(entry_values(v) =~= vals);
    } else {
        let items = v->Array_0@;
        assert(entry_values(v) =~= vals) by {
            assert forall|t: int| 0 <= t < vals.len() implies entry_values(v)[t] == vals[t] by {
                assert(items[t] is String);
            }
        }
    }
}

} // verus!
