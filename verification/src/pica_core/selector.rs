//! Package selectors: `app`, `app(branch)`, `app:version`,
//! `app:version(branch)`, `app@author`, `app@author(branch)`,
//! `app@author:version` and `app@author:version(branch)`, with full-width
//! `：（）` accepted as their ASCII forms. The author names where an app
//! comes from; it is never a version.
use vstd::prelude::*;
use crate::text::{
    first_index_of, last_index_of, split_once_spec, contains_char, chars_of, string_of,
    sub_chars, first_index_of_exec, last_index_of_exec, contains_char_exec, copy_str, push_char,
    append_str, lemma_first_index_absent, lemma_first_index_after, lemma_last_index_before,
};

verus! {

/// A parsed selector.
#[derive(Debug, Clone)]
pub struct Selector {
    pub raw: String,
    pub norm: String,
    pub appname: String,
    pub version: String,
    pub branch: String,
}

pub open spec fn normalize_char(c: char) -> char {
    if c == '：' {
        ':'
    } else if c == '（' {
        '('
    } else if c == '）' {
        ')'
    } else {
        c
    }
}

/// The selector text with full-width `：（）` replaced by `:()`.
pub open spec fn normalize(raw: Seq<char>) -> Seq<char> {
    raw.map_values(|c: char| normalize_char(c))
}

/// `head(tail)` split into `head` and `tail`: the text must end with `)`,
/// the last `(` must not start it, and both parts must be non-empty.
pub open spec fn paren_split(input: Seq<char>) -> Option<(Seq<char>, Seq<char>)> {
    if input.len() == 0 || input.last() != ')' {
        None
    } else {
        match last_index_of(input, '(') {
            None => None,
            Some(p) => {
                let head = input.take(p);
                let tail = input.subrange(p + 1, input.len() - 1);
                if p == 0 || head.len() == 0 || tail.len() == 0 {
                    None
                } else {
                    Some((head, tail))
                }
            },
        }
    }
}

/// Version and branch of the text after `:`.
pub open spec fn version_branch_of(tail: Seq<char>) -> (Seq<char>, Seq<char>) {
    match paren_split(tail) {
        Some((v, b)) => (v, b),
        None => (tail, Seq::empty()),
    }
}

/// (appname, version, branch) of a normalized selector.
pub open spec fn selector_parts(norm: Seq<char>) -> (Seq<char>, Seq<char>, Seq<char>) {
    match split_once_spec(norm, '@') {
        Some((left, right)) => match split_once_spec(right, ':') {
            Some((_, tail)) => {
                let (v, b) = version_branch_of(tail);
                (left, v, b)
            },
            None => match paren_split(right) {
                Some((_, b)) => (left, Seq::empty(), b),
                None => (left, Seq::empty(), Seq::empty()),
            },
        },
        None => match split_once_spec(norm, ':') {
            Some((left, tail)) => {
                let (v, b) = version_branch_of(tail);
                (left, v, b)
            },
            None => match paren_split(norm) {
                Some((head, b)) => (head, Seq::empty(), b),
                None => (norm, Seq::empty(), Seq::empty()),
            },
        },
    }
}

/// `appname[:version][(branch)]`.
pub open spec fn canonical(appname: Seq<char>, version: Seq<char>, branch: Seq<char>) -> Seq<
    char,
> {
    let with_version = if version.len() == 0 {
        appname
    } else {
        appname + seq![':'] + version
    };
    if branch.len() == 0 {
        with_version
    } else {
        with_version + seq!['('] + branch + seq![')']
    }
}

/// Whether a selector text uses any of the structured forms.
pub open spec fn is_structured_spec(value: Seq<char>) -> bool {
    contains_char(value, '@') || contains_char(value, ':') || contains_char(value, '：')
        || contains_char(value, '(') || contains_char(value, '（') || contains_char(value, '）')
}

/// No `@` and none of the full-width `：（）` anywhere in the text.
pub open spec fn free_of_markers(s: Seq<char>) -> bool {
    forall|i: int|
        0 <= i < s.len() ==> s[i] != '@' && s[i] != '：' && s[i] != '（' && s[i] != '）'
}

/// A selector written in canonical form, `appname[:version][(branch)]`, parses back into
/// the appname, version and branch it was written from, provided that no part holds `@`
/// or a full-width mark, the appname holds no `:`, the version no `)`, the branch no `(`;
/// that a lone appname is not itself of the form `head(tail)`; and that a branch
/// without a version comes after a non-empty appname and holds no `:`.
pub proof fn law_canonical_selector_round_trip(a: Seq<char>, v: Seq<char>, b: Seq<char>)
    requires
        free_of_markers(a),
        free_of_markers(v),
        free_of_markers(b),
        forall|i: int| 0 <= i < a.len() ==> a[i] != ':',
        forall|i: int| 0 <= i < v.len() ==> v[i] != ')',
        forall|i: int| 0 <= i < b.len() ==> b[i] != '(',
        v.len() == 0 && b.len() == 0 ==> paren_split(a) is None,
        v.len() == 0 && b.len() > 0 ==> a.len() > 0 && forall|i: int| 0 <= i < b.len() ==> b[i] != ':',
    ensures
        normalize(canonical(a, v, b)) == canonical(a, v, b),
        selector_parts(normalize(canonical(a, v, b))) == (a, v, b),
{
    let s = canonical(a, v, b);
    let w = if v.len() == 0 {
        a
    } else {
        a + seq![':'] + v
    };
    assert forall|i: int| 0 <= i < w.len() implies w[i] != '@' && w[i] != '：' && w[i] != '（'
        && w[i] != '）' by {
        if i < a.len() {
            assert(w[i] == a[i]);
        } else if i == a.len() {
            assert(w[i] == ':');
        } else {
            assert(w[i] == v[i - a.len() - 1]);
        }
    }
    assert forall|i: int| 0 <= i < s.len() implies s[i] != '@' && s[i] != '：' && s[i] != '（'
        && s[i] != '）' by {
        if i < w.len() {
            assert(s[i] == w[i]);
        } else if i == w.len() {
            assert(s[i] == '(');
        } else if i < w.len() + 1 + b.len() {
            assert(s[i] == b[i - w.len() - 1]);
        } else {
            assert(s[i] == ')');
        }
    }
    assert(normalize(s) =~= s);
    lemma_first_index_absent(s, '@');
    if v.len() == 0 && b.len() == 0 {
        assert(s == a);
        lemma_first_index_absent(a, ':');
    } else if v.len() == 0 {
        let bc = b + seq![')'];
        assert(s =~= a + seq!['('] + bc);
        assert forall|i: int| 0 <= i < s.len() implies s[i] != ':' by {
            if i < a.len() {
                assert(s[i] == a[i]);
            } else if a.len() < i < a.len() + 1 + b.len() {
                assert(s[i] == b[i - a.len() - 1]);
            }
        }
        lemma_first_index_absent(s, ':');
        assert forall|i: int| 0 <= i < bc.len() implies bc[i] != '(' by {
            if i < b.len() {
                assert(bc[i] == b[i]);
            }
        }
        lemma_last_index_before(a, '(', bc);
        assert(s.last() == ')');
        assert(s.take(a.len() as int) =~= a);
        assert(s.subrange(a.len() as int + 1, s.len() - 1) =~= b);
    } else {
        let rest = if b.len() == 0 {
            v
        } else {
            v + seq!['('] + (b + seq![')'])
        };
        assert(s =~= a + seq![':'] + rest);
        lemma_first_index_after(a, ':', rest);
        assert(s.take(a.len() as int) =~= a);
        assert(s.skip(a.len() as int + 1) =~= rest);
        if b.len() == 0 {
            assert(rest.last() == v[v.len() - 1]);
        } else {
            let bc = b + seq![')'];
            assert forall|i: int| 0 <= i < bc.len() implies bc[i] != '(' by {
                if i < b.len() {
                    assert(bc[i] == b[i]);
                }
            }
            lemma_last_index_before(v, '(', bc);
            assert(rest.take(v.len() as int) =~= v);
            assert(rest.subrange(v.len() as int + 1, rest.len() - 1) =~= b);
        }
    }
}

/// `head(tail)` split of an executable sequence.
fn paren_split_exec(input: &[char]) -> (r: Option<(Vec<char>, Vec<char>)>)
    ensures
        match r {
            Some((h, t)) => paren_split(input@) == Some((h@, t@)),
            None => paren_split(input@) == None::<(Seq<char>, Seq<char>)>,
        },
{
    if input.len() == 0 || input[input.len() - 1] != ')' {
        return None;
    }
    let open_pos = match last_index_of_exec(input, '(') {
        Some(p) => p,
        None => return None,
    };
    if open_pos == 0 {
        return None;
    }
    let head = sub_chars(input, 0, open_pos);
    let tail = sub_chars(input, open_pos + 1, input.len() - 1);
    if head.len() == 0 || tail.len() == 0 {
        return None;
    }
    Some((head, tail))
}

/// Version and branch of the text after `:`.
fn version_branch_exec(tail: &[char]) -> (r: (Vec<char>, Vec<char>))
    ensures
        (r.0@, r.1@) == version_branch_of(tail@),
{
    match paren_split_exec(tail) {
        Some((v, b)) => (v, b),
        None => {
            let t = sub_chars(tail, 0, tail.len());
            assert(t@ =~= tail@);
            (t, Vec::new())
        },
    }
}

fn normalize_exec(raw: &[char]) -> (r: Vec<char>)
    ensures
        r@ == normalize(raw@),
{
    let mut out: Vec<char> = Vec::new();
    let mut i: usize = 0;
    while i < raw.len()
        invariant
            i <= raw@.len(),
            out@ =~= raw@.take(i as int).map_values(|c: char| normalize_char(c)),
        decreases raw.len() - i,
    {
        let c = raw[i];
        let n = if c == '：' {
            ':'
        } else if c == '（' {
            '('
        } else if c == '）' {
            ')'
        } else {
            c
        };
        out.push(n);
        assert(raw@.take(i + 1) =~= raw@.take(i as int).push(c));
        i += 1;
    }
    assert(raw@.take(raw@.len() as int) =~= raw@);
    out
}

/// (appname, version, branch) of a normalized selector.
fn selector_parts_exec(norm: &[char]) -> (r: (Vec<char>, Vec<char>, Vec<char>))
    ensures
        (r.0@, r.1@, r.2@) == selector_parts(norm@),
{
    match first_index_of_exec(norm, '@') {
        Some(at) => {
            let n = norm.len();
            assert(at < n);
            let left = sub_chars(norm, 0, at);
            let right = sub_chars(norm, at + 1, n);
            match first_index_of_exec(&right, ':') {
                Some(colon) => {
                    let tail = sub_chars(&right, colon + 1, right.len());
                    let (v, b) = version_branch_exec(&tail);
                    (left, v, b)
                },
                None => match paren_split_exec(&right) {
                    Some((_, b)) => (left, Vec::new(), b),
                    None => (left, Vec::new(), Vec::new()),
                },
            }
        },
        None => match first_index_of_exec(norm, ':') {
            Some(colon) => {
                let n = norm.len();
                assert(colon < n);
                let left = sub_chars(norm, 0, colon);
                let tail = sub_chars(norm, colon + 1, n);
                let (v, b) = version_branch_exec(&tail);
                (left, v, b)
            },
            None => match paren_split_exec(norm) {
                Some((head, b)) => (head, Vec::new(), b),
                None => {
                    let all = sub_chars(norm, 0, norm.len());
                    assert(all@ =~= norm@);
                    (all, Vec::new(), Vec::new())
                },
            },
        },
    }
}

impl Selector {
    /// Parses a selector; never fails (an unstructured text is an app name).
    pub fn parse(raw: &str) -> (r: Self)
        ensures
            r.raw@ == raw@,
            r.norm@ == normalize(raw@),
            (r.appname@, r.version@, r.branch@) == selector_parts(normalize(raw@)),
    {
        let raw_chars = chars_of(raw);
        let norm = normalize_exec(&raw_chars);
        let (appname, version, branch) = selector_parts_exec(&norm);
        Selector {
            raw: copy_str(raw),
            norm: string_of(&norm),
            appname: string_of(&appname),
            version: string_of(&version),
            branch: string_of(&branch),
        }
    }

    /// Whether a selector text uses any of the structured forms.
    pub fn is_structured(value: &str) -> (r: bool)
        ensures
            r == is_structured_spec(value@),
    {
        let cs = chars_of(value);
        contains_char_exec(&cs, '@') || contains_char_exec(&cs, ':') || contains_char_exec(&cs, '：')
            || contains_char_exec(&cs, '(') || contains_char_exec(&cs, '（') || contains_char_exec(&cs, '）')
    }

    /// `appname[:version][(branch)]`.
    pub fn to_canonical_string(&self) -> (r: String)
        ensures
            r@ == canonical(self.appname@, self.version@, self.branch@),
    {
        let mut out = self.appname.clone();
        if !self.version.as_str().is_empty() {
            push_char(&mut out, ':');
            append_str(&mut out, self.version.as_str());
        }
        if !self.branch.as_str().is_empty() {
            push_char(&mut out, '(');
            append_str(&mut out, self.branch.as_str());
            push_char(&mut out, ')');
        }
        out
    }
}

} // verus!
