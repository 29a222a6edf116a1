//! JSON documents as plain values: the configuration, the package database,
//! the repository index and package manifests are all held in this form.
//! Objects keep their keys in ascending order, as the JSON maps of the
//! package database are written.
use vstd::prelude::*;
use crate::text::{
    Order, lex_order, chars_of, lex_order_chars, chars_eq_str, push_char, append_str, append_chars,
    decimal,
};

verus! {

/// A JSON value.
#[derive(Debug)]
pub enum JsonValue {
    Null,
    Bool(bool),
    /// A number, held as its JSON text.
    Number(String),
    String(String),
    Array(Vec<JsonValue>),
    /// Entries with distinct keys in ascending order.
    Object(Vec<(String, JsonValue)>),
}

/// Position of key `k` among the entries, if present.
pub open spec fn find_key(es: Seq<(String, JsonValue)>, k: Seq<char>) -> Option<int>
    decreases es.len(),
{
    if es.len() == 0 {
        None
    } else if es[0].0@ == k {
        Some(0)
    } else {
        match find_key(es.drop_first(), k) {
            Some(i) => Some(i + 1),
            None => None,
        }
    }
}

/// `value.get(key)`: the entry of an object under `key`.
pub open spec fn json_get(v: JsonValue, k: Seq<char>) -> Option<JsonValue> {
    match v {
        JsonValue::Object(es) => match find_key(es@, k) {
            Some(i) => Some(es@[i].1),
            None => None,
        },
        _ => None,
    }
}

/// `value.as_str()`.
pub open spec fn json_str(v: Option<JsonValue>) -> Option<Seq<char>> {
    match v {
        Some(JsonValue::String(s)) => Some(s@),
        _ => None,
    }
}

/// The text at `k` when it is a string, else the empty text.
pub open spec fn str_or_empty(v: JsonValue, k: Seq<char>) -> Seq<char> {
    match json_str(json_get(v, k)) {
        Some(s) => s,
        None => Seq::empty(),
    }
}

/// Keys in strictly ascending order.
pub open spec fn keys_sorted(es: Seq<(String, JsonValue)>) -> bool {
    forall|i: int, j: int|
        0 <= i < j < es.len() ==> lex_order(#[trigger] es[i].0@, #[trigger] es[j].0@)
            == Order::Less
}

pub proof fn lemma_find_key_some(es: Seq<(String, JsonValue)>, k: Seq<char>)
    ensures
        match find_key(es, k) {
            Some(i) => 0 <= i < es.len() && es[i].0@ == k && forall|j: int|
                0 <= j < i ==> es[j].0@ != k,
            None => forall|j: int| 0 <= j < es.len() ==> es[j].0@ != k,
        },
    decreases es.len(),
{
    if es.len() > 0 {
        lemma_find_key_some(es.drop_first(), k);
        if es[0].0@ != k {
            assert forall|j: int| 0 <= j < es.len() && es[j].0@ == k implies j > 0 by {}
            match find_key(es.drop_first(), k) {
                Some(i) => {
                    assert forall|j: int| 0 <= j < i + 1 implies es[j].0@ != k by {
                        if j > 0 {
                            assert(es[j] == es.drop_first()[j - 1]);
                        }
                    }
                },
                None => {
                    assert forall|j: int| 0 <= j < es.len() implies es[j].0@ != k by {
                        if j > 0 {
                            assert(es[j] == es.drop_first()[j - 1]);
                        }
                    }
                },
            }
        }
    }
}

/// Finds the position of a key among object entries.
pub fn find_key_exec(es: &Vec<(String, JsonValue)>, k: &str) -> (r: Option<usize>)
    ensures
        match r {
            Some(i) => find_key(es@, k@) == Some(i as int) && i < es@.len(),
            None => find_key(es@, k@) == None::<int>,
        },
{
    let mut i: usize = 0;
    proof {
        lemma_find_key_some(es@, k@);
    }
    while i < es.len()
        invariant
            i <= es@.len(),
            forall|j: int| 0 <= j < i ==> es@[j].0@ != k@,
            match find_key(es@, k@) {
                Some(m) => 0 <= m < es@.len() && es@[m].0@ == k@ && forall|j: int|
                    0 <= j < m ==> es@[j].0@ != k@,
                None => forall|j: int| 0 <= j < es@.len() ==> es@[j].0@ != k@,
            },
        decreases es.len() - i,
    {
        let key_chars = chars_of(es[i].0.as_str());
        if chars_eq_str(&key_chars, k) {
            proof {
                match find_key(es@, k@) {
                    Some(m) => {
                        assert(m == i);
                    },
                    None => {},
                }
            }
            return Some(i);
        }
        i += 1;
    }
    proof {
        match find_key(es@, k@) {
            Some(m) => {
                assert(es@[m].0@ != k@);
            },
            None => {},
        }
    }
    None
}

impl JsonValue {
    /// The entry of an object under `key`.
    pub fn get(&self, key: &str) -> (r: Option<&JsonValue>)
        ensures
            match r {
                Some(v) => json_get(*self, key@) == Some(*v),
                None => json_get(*self, key@) == None::<JsonValue>,
            },
    {
        match self {
            JsonValue::Object(es) => match find_key_exec(es, key) {
                Some(i) => Some(&es[i].1),
                None => None,
            },
            _ => None,
        }
    }

    /// The text of a string value.
    pub fn as_str(&self) -> (r: Option<&String>)
        ensures
            match r {
                Some(s) => json_str(Some(*self)) == Some(s@),
                None => json_str(Some(*self)) == None::<Seq<char>>,
            },
    {
        match self {
            JsonValue::String(s) => Some(s),
            _ => None,
        }
    }

    /// Whether the value is an object.
    pub fn is_object(&self) -> (r: bool)
        ensures
            r == (*self is Object),
    {
        match self {
            JsonValue::Object(_) => true,
            _ => false,
        }
    }
}

/// The text of the string under `key` of an object, or empty.
pub fn get_str_or_empty(v: &JsonValue, key: &str) -> (r: String)
    ensures
        r@ == str_or_empty(*v, key@),
{
    match v.get(key) {
        Some(JsonValue::String(s)) => s.clone(),
        _ => String::new(),
    }
}


/// The four lower-case hex digits of a code below 0x10000.
pub open spec fn hex4(c: nat) -> Seq<char> {
    seq![hex_digit(c / 4096 % 16), hex_digit(c / 256 % 16), hex_digit(c / 16 % 16), hex_digit(c % 16)]
}

pub open spec fn hex_digit(d: nat) -> char {
    if d < 10 {
        crate::text::digit_char(d)
    } else {
        ((('a' as u32) + (d - 10)) as char)
    }
}

/// A character as it stands inside a JSON string.
pub open spec fn escape_char(c: char) -> Seq<char> {
    if c == '"' {
        seq!['\\', '"']
    } else if c == '\\' {
        seq!['\\', '\\']
    } else if c == '\u{8}' {
        seq!['\\', 'b']
    } else if c == '\u{c}' {
        seq!['\\', 'f']
    } else if c == '\n' {
        seq!['\\', 'n']
    } else if c == '\r' {
        seq!['\\', 'r']
    } else if c == '\t' {
        seq!['\\', 't']
    } else if (c as u32) < 0x20 {
        seq!['\\', 'u'] + hex4(c as nat)
    } else {
        seq![c]
    }
}

/// The escaped characters of a string.
pub open spec fn escape_text(s: Seq<char>) -> Seq<char>
    decreases s.len(),
{
    if s.len() == 0 {
        Seq::empty()
    } else {
        escape_text(s.drop_last()) + escape_char(s.last())
    }
}

/// A JSON string literal.
pub open spec fn quoted(s: Seq<char>) -> Seq<char> {
    seq!['"'] + escape_text(s) + seq!['"']
}

/// Compact JSON text of a value.
pub open spec fn json_text(v: JsonValue) -> Seq<char>
    decreases v,
{
    match v {
        JsonValue::Null => "null"@,
        JsonValue::Bool(b) => if b {
            "true"@
        } else {
            "false"@
        },
        JsonValue::Number(n) => n@,
        JsonValue::String(s) => quoted(s@),
        JsonValue::Array(items) => seq!['['] + items_text(items@) + seq![']'],
        JsonValue::Object(es) => seq!['{'] + entries_text(es@) + seq!['}'],
    }
}

/// The items, comma separated.
pub open spec fn items_text(items: Seq<JsonValue>) -> Seq<char>
    decreases items,
{
    if items.len() == 0 {
        Seq::empty()
    } else if items.len() == 1 {
        json_text(items[0])
    } else {
        items_text(items.drop_last()) + seq![','] + json_text(items.last())
    }
}

/// The entries `"key":value`, comma separated.
pub open spec fn entries_text(es: Seq<(String, JsonValue)>) -> Seq<char>
    decreases es,
{
    if es.len() == 0 {
        Seq::empty()
    } else if es.len() == 1 {
        quoted(es[0].0@) + seq![':'] + json_text(es[0].1)
    } else {
        entries_text(es.drop_last()) + seq![','] + quoted(es.last().0@) + seq![':'] + json_text(
            es.last().1,
        )
    }
}

fn hex_digit_exec(d: u32) -> (c: char)
    requires
        d < 16,
    ensures
        c == hex_digit(d as nat),
{
    if d < 10 {
        let b: u8 = 48u8 + (d as u8);
        b as char
    } else {
        let b: u8 = 97u8 + ((d - 10) as u8);
        b as char
    }
}

fn push_escaped(out: &mut String, c: char)
    ensures
        final(out)@ == old(out)@ + escape_char(c),
{
    if c == '"' {
        push_char(out, '\\');
        push_char(out, '"');
    } else if c == '\\' {
        push_char(out, '\\');
        push_char(out, '\\');
    } else if c == '\u{8}' {
        push_char(out, '\\');
        push_char(out, 'b');
    } else if c == '\u{c}' {
        push_char(out, '\\');
        push_char(out, 'f');
    } else if c == '\n' {
        push_char(out, '\\');
        push_char(out, 'n');
    } else if c == '\r' {
        push_char(out, '\\');
        push_char(out, 'r');
    } else if c == '\t' {
        push_char(out, '\\');
        push_char(out, 't');
    } else if (c as u32) < 0x20 {
        let n = c as u32;
        push_char(out, '\\');
        push_char(out, 'u');
        push_char(out, hex_digit_exec(n / 4096 % 16));
        push_char(out, hex_digit_exec(n / 256 % 16));
        push_char(out, hex_digit_exec(n / 16 % 16));
        push_char(out, hex_digit_exec(n % 16));
        assert(hex4(c as nat) == seq![
            hex_digit((n / 4096 % 16) as nat),
            hex_digit((n / 256 % 16) as nat),
            hex_digit((n / 16 % 16) as nat),
            hex_digit((n % 16) as nat),
        ]);
    } else {
        push_char(out, c);
    }
    assert(final(out)@ =~= old(out)@ + escape_char(c));
}

/// Appends a JSON string literal.
pub fn push_quoted(out: &mut String, s: &str)
    ensures
        final(out)@ == old(out)@ + quoted(s@),
{
    let cs = chars_of(s);
    push_char(out, '"');
    let ghost start = out@;
    let mut i: usize = 0;
    while i < cs.len()
        invariant
            i <= cs@.len(),
            cs@ == s@,
            out@ == start + escape_text(cs@.take(i as int)),
        decreases cs.len() - i,
    {
        assert(cs@.take(i + 1).drop_last() =~= cs@.take(i as int));
        push_escaped(out, cs[i]);
        assert(out@ =~= start + escape_text(cs@.take(i + 1)));
        i += 1;
    }
    assert(cs@.take(cs@.len() as int) =~= cs@);
    push_char(out, '"');
    assert(out@ =~= old(out)@ + quoted(s@));
}

/// Appends the compact JSON text of a value.
#[verifier::loop_isolation(false)]
pub fn push_json_text(out: &mut String, v: &JsonValue)
    ensures
        final(out)@ == old(out)@ + json_text(*v),
    decreases v,
{
    match v {
        JsonValue::Null => append_str(out, "null"),
        JsonValue::Bool(b) => if *b {
            append_str(out, "true")
        } else {
            append_str(out, "false")
        },
        JsonValue::Number(n) => append_str(out, n.as_str()),
        JsonValue::String(s) => push_quoted(out, s.as_str()),
        JsonValue::Array(items) => {
            push_char(out, '[');
            let ghost start = out@;
            let mut i: usize = 0;
            while i < items.len()
                invariant
                    i <= items@.len(),
                    out@ == start + items_text(items@.take(i as int)),
                decreases items.len() - i,
            {
                proof {
                    vstd::std_specs::vec::axiom_vec_index_decreases(*items, i as int);
                    assert(v->Array_0 == *items);
                    assert(decreases_to!(*v => v->Array_0));
                    assert(decreases_to!(*v => items@[i as int]));
                }
                if i > 0 {
                    push_char(out, ',');
                }
                push_json_text(out, &items[i]);
                proof {
                    let t = items@.take(i + 1);
                    assert(t.drop_last() =~= items@.take(i as int));
                    assert(t.last() == items@[i as int]);
                    if i == 0 {
                        assert(t[0] == items@[0]);
                    }
                }
                assert(out@ =~= start + items_text(items@.take(i + 1)));
                i += 1;
            }
            assert(items@.take(items@.len() as int) =~= items@);
            push_char(out, ']');
            assert(out@ =~= old(out)@ + json_text(*v));
        },
        JsonValue::Object(es) => {
            push_char(out, '{');
            let ghost start = out@;
            let mut i: usize = 0;
            while i < es.len()
                invariant
                    i <= es@.len(),
                    out@ == start + entries_text(es@.take(i as int)),
                decreases es.len() - i,
            {
                proof {
                    vstd::std_specs::vec::axiom_vec_index_decreases(*es, i as int);
                    assert(v->Object_0 == *es);
                    assert(decreases_to!(*v => v->Object_0));
                    assert(decreases_to!(es@[i as int] => es@[i as int].1));
                    assert(decreases_to!(*v => es@[i as int].1));
                }
                if i > 0 {
                    push_char(out, ',');
                }
                push_quoted(out, es[i].0.as_str());
                push_char(out, ':');
                push_json_text(out, &es[i].1);
                proof {
                    let t = es@.take(i + 1);
                    assert(t.drop_last() =~= es@.take(i as int));
                    assert(t.last() == es@[i as int]);
                    if i == 0 {
                        assert(t[0] == es@[0]);
                    }
                }
                assert(out@ =~= start + entries_text(es@.take(i + 1)));
                i += 1;
            }
            assert(es@.take(es@.len() as int) =~= es@);
            push_char(out, '}');
            assert(out@ =~= old(out)@ + json_text(*v));
        },
    }
}

/// The text of the string under `key`, if it is a string.
pub fn get_str(v: &JsonValue, key: &str) -> (r: Option<String>)
    ensures
        match r {
            Some(s) => json_str(json_get(*v, key@)) == Some(s@),
            None => json_str(json_get(*v, key@)) is None,
        },
{
    match v.get(key) {
        Some(JsonValue::String(s)) => Some(s.clone()),
        _ => None,
    }
}

/// The text of the string under `key`, or `default`.
pub open spec fn str_or(v: JsonValue, key: Seq<char>, default: Seq<char>) -> Seq<char> {
    match json_str(json_get(v, key)) {
        Some(s) => s,
        None => default,
    }
}

/// The text of the string under `key`, or `default`.
pub fn get_str_or(v: &JsonValue, key: &str, default: &str) -> (r: String)
    ensures
        r@ == str_or(*v, key@, default@),
{
    match get_str(v, key) {
        Some(s) => s,
        None => crate::text::copy_str(default),
    }
}
} // verus!
