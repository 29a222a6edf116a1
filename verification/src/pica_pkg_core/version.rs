//! Version ordering of packages: dotted numeric versions, release numbers,
//! and mixed alphanumeric versions.
use vstd::prelude::*;
use crate::text::{
    Order, flip, int_order, split_seq, all_digits, parse_u64_spec, lex_order, rsplit_once_spec,
    is_ascii_alnum, is_digit, last_index_of, views, split_chars, is_digit_char, parse_u64_chars,
    chars_of, copy_str, push_char, append_str, sub_chars, is_ascii_alnum_char, lex_order_chars, last_index_of_exec,
};

verus! {

// ---------------------------------------------------------------------------
// Model
// ---------------------------------------------------------------------------

/// Every dot-separated piece is a non-empty run of ASCII digits.
pub open spec fn is_dot_numeric(s: Seq<char>) -> bool {
    s.len() > 0 && forall|i: int|
        0 <= i < split_seq(s, '.').len() ==> #[trigger] split_seq(s, '.')[i].len() > 0
            && all_digits(split_seq(s, '.')[i])
}

/// `part.parse::<u64>().unwrap_or(0)`.
pub open spec fn part_number(p: Seq<char>) -> nat {
    match parse_u64_spec(p) {
        Some(v) => v as nat,
        None => 0,
    }
}

/// The numbers of a dotted version.
pub open spec fn dot_numbers(s: Seq<char>) -> Seq<nat> {
    split_seq(s, '.').map_values(|p: Seq<char>| part_number(p))
}

/// Element `i` of `ns`, or 0 past its end.
pub open spec fn padded(ns: Seq<nat>, i: int) -> nat {
    if 0 <= i < ns.len() {
        ns[i]
    } else {
        0
    }
}

pub open spec fn max_len(a: int, b: int) -> int {
    if a >= b {
        a
    } else {
        b
    }
}

/// Comparison of two number lists from position `i` on, the shorter padded with zeros.
pub open spec fn numbers_order_from(a: Seq<nat>, b: Seq<nat>, i: int) -> Order
    decreases max_len(a.len() as int, b.len() as int) - i,
{
    if i >= max_len(a.len() as int, b.len() as int) {
        Order::Equal
    } else if padded(a, i) < padded(b, i) {
        Order::Less
    } else if padded(a, i) > padded(b, i) {
        Order::Greater
    } else {
        numbers_order_from(a, b, i + 1)
    }
}

/// Comparison of two dotted numeric versions; `None` unless both are dotted numeric.
pub open spec fn dot_order(a: Seq<char>, b: Seq<char>) -> Option<Order> {
    if is_dot_numeric(a) && is_dot_numeric(b) {
        Some(numbers_order_from(dot_numbers(a), dot_numbers(b), 0))
    } else {
        None
    }
}

/// `ver_ge`: both dotted numeric and `a` not below `b`.
pub open spec fn ver_ge_spec(a: Seq<char>, b: Seq<char>) -> bool {
    match dot_order(a, b) {
        Some(o) => o != Order::Less,
        None => false,
    }
}

/// The comparison key of a version and release: `pkgver-pkgrel`, or `pkgver` alone.
pub open spec fn version_key(pkgver: Seq<char>, pkgrel: Seq<char>) -> Seq<char> {
    if pkgrel.len() == 0 {
        pkgver
    } else {
        pkgver + seq!['-'] + pkgrel
    }
}

/// A version string split at its last `-` into version and release;
/// without a `-` the release is `0`.
pub open spec fn split_release(s: Seq<char>) -> (Seq<char>, Seq<char>) {
    match rsplit_once_spec(s, '-') {
        Some(pair) => pair,
        None => (s, seq!['0']),
    }
}

/// Comparison of two release numbers; equal unless both parse.
pub open spec fn release_order(a: Seq<char>, b: Seq<char>) -> Order {
    match (parse_u64_spec(a), parse_u64_spec(b)) {
        (Some(x), Some(y)) => int_order(x as int, y as int),
        _ => Order::Equal,
    }
}

/// A piece of a mixed version: a number or a run of letters.
pub enum VerToken {
    Num(nat),
    Text(Seq<char>),
}

/// Length of the run at the start of `t` of ASCII alphanumerics whose
/// digit-ness is `d`.
pub open spec fn same_kind_len(t: Seq<char>, d: bool) -> nat
    decreases t.len(),
{
    if t.len() > 0 && is_ascii_alnum(t[0]) && is_digit(t[0]) == d {
        1 + same_kind_len(t.drop_first(), d)
    } else {
        0
    }
}

pub proof fn lemma_same_kind_len_bound(t: Seq<char>, d: bool)
    ensures
        same_kind_len(t, d) <= t.len(),
    decreases t.len(),
{
    if t.len() > 0 && is_ascii_alnum(t[0]) && is_digit(t[0]) == d {
        lemma_same_kind_len_bound(t.drop_first(), d);
    }
}

/// Length of the token at the start of `s`, which starts with an alphanumeric.
pub open spec fn token_len(s: Seq<char>) -> nat {
    1 + same_kind_len(s.drop_first(), is_digit(s[0]))
}

/// The tokens of a version: maximal runs of digits (as numbers) and of
/// ASCII letters, everything else dropped.
pub open spec fn version_tokens(s: Seq<char>) -> Seq<VerToken>
    decreases s.len(),
{
    if s.len() == 0 {
        Seq::empty()
    } else if !is_ascii_alnum(s[0]) {
        version_tokens(s.drop_first())
    } else {
        let k = token_len(s) as int;
        let seg = s.take(k);
        let tok = if is_digit(s[0]) {
            VerToken::Num(part_number(seg))
        } else {
            VerToken::Text(seg)
        };
        proof {
            lemma_same_kind_len_bound(s.drop_first(), is_digit(s[0]));
        }
        seq![tok] + version_tokens(s.skip(k))
    }
}

/// Numbers sort after words; numbers by value, words lexicographically.
pub open spec fn token_order(l: VerToken, r: VerToken) -> Order {
    match (l, r) {
        (VerToken::Num(a), VerToken::Num(b)) => int_order(a as int, b as int),
        (VerToken::Text(a), VerToken::Text(b)) => lex_order(a, b),
        (VerToken::Num(_), VerToken::Text(_)) => Order::Greater,
        (VerToken::Text(_), VerToken::Num(_)) => Order::Less,
    }
}

pub open spec fn padded_token(ts: Seq<VerToken>, i: int) -> VerToken {
    if 0 <= i < ts.len() {
        ts[i]
    } else {
        VerToken::Num(0)
    }
}

pub open spec fn tokens_order_from(a: Seq<VerToken>, b: Seq<VerToken>, i: int) -> Order
    decreases max_len(a.len() as int, b.len() as int) - i,
{
    if i >= max_len(a.len() as int, b.len() as int) {
        Order::Equal
    } else if token_order(padded_token(a, i), padded_token(b, i)) != Order::Equal {
        token_order(padded_token(a, i), padded_token(b, i))
    } else {
        tokens_order_from(a, b, i + 1)
    }
}

/// Comparison of two mixed versions token by token, the shorter padded with `0`.
pub open spec fn mixed_order(a: Seq<char>, b: Seq<char>) -> Order {
    tokens_order_from(version_tokens(a), version_tokens(b), 0)
}

/// Whether the (version, release) comparison says "not below".
pub open spec fn not_below(version: Order, ra: Seq<char>, rb: Seq<char>) -> bool {
    match version {
        Order::Greater => true,
        Order::Equal => release_order(ra, rb) != Order::Less,
        Order::Less => false,
    }
}

/// `pkgver_ge` of this crate: an empty right side is always met, an empty
/// left side never; dotted numeric versions compare numerically, other
/// versions token by token, and equal versions by release number.
pub open spec fn pkgver_ge_spec(a: Seq<char>, b: Seq<char>) -> bool {
    if b.len() == 0 {
        true
    } else if a.len() == 0 {
        false
    } else {
        let (av, ar) = split_release(a);
        let (bv, br) = split_release(b);
        if is_dot_numeric(av) && is_dot_numeric(bv) {
            not_below(numbers_order_from(dot_numbers(av), dot_numbers(bv), 0), ar, br)
        } else {
            not_below(mixed_order(av, bv), ar, br)
        }
    }
}

// ---------------------------------------------------------------------------
// Lemmas
// ---------------------------------------------------------------------------

pub proof fn lemma_numbers_order_flip(a: Seq<nat>, b: Seq<nat>, i: int)
    ensures
        numbers_order_from(a, b, i) == flip(numbers_order_from(b, a, i)),
    decreases max_len(a.len() as int, b.len() as int) - i,
{
    if i < max_len(a.len() as int, b.len() as int) {
        lemma_numbers_order_flip(a, b, i + 1);
    }
}

pub proof fn lemma_numbers_order_refl(a: Seq<nat>, i: int)
    ensures
        numbers_order_from(a, a, i) == Order::Equal,
    decreases a.len() - i,
{
    if i < a.len() {
        lemma_numbers_order_refl(a, i + 1);
    }
}

pub proof fn lemma_lex_order_flip(a: Seq<char>, b: Seq<char>)
    ensures
        lex_order(a, b) == flip(lex_order(b, a)),
    decreases a.len(),
{
    if a.len() > 0 && b.len() > 0 {
        lemma_lex_order_flip(a.drop_first(), b.drop_first());
    }
}

pub proof fn lemma_lex_order_refl(a: Seq<char>)
    ensures
        lex_order(a, a) == Order::Equal,
    decreases a.len(),
{
    if a.len() > 0 {
        lemma_lex_order_refl(a.drop_first());
    }
}

pub proof fn lemma_token_order_flip(l: VerToken, r: VerToken)
    ensures
        token_order(l, r) == flip(token_order(r, l)),
{
    match (l, r) {
        (VerToken::Text(a), VerToken::Text(b)) => lemma_lex_order_flip(a, b),
        _ => {},
    }
}

pub proof fn lemma_token_order_refl(l: VerToken)
    ensures
        token_order(l, l) == Order::Equal,
{
    match l {
        VerToken::Text(a) => lemma_lex_order_refl(a),
        _ => {},
    }
}

pub proof fn lemma_tokens_order_flip(a: Seq<VerToken>, b: Seq<VerToken>, i: int)
    ensures
        tokens_order_from(a, b, i) == flip(tokens_order_from(b, a, i)),
    decreases max_len(a.len() as int, b.len() as int) - i,
{
    if i < max_len(a.len() as int, b.len() as int) {
        lemma_token_order_flip(padded_token(a, i), padded_token(b, i));
        lemma_tokens_order_flip(a, b, i + 1);
    }
}

pub proof fn lemma_tokens_order_refl(a: Seq<VerToken>, i: int)
    ensures
        tokens_order_from(a, a, i) == Order::Equal,
    decreases a.len() - i,
{
    if i < a.len() {
        lemma_token_order_refl(padded_token(a, i));
        lemma_tokens_order_refl(a, i + 1);
    }
}

pub proof fn lemma_release_order_flip(a: Seq<char>, b: Seq<char>)
    ensures
        release_order(a, b) == flip(release_order(b, a)),
{
}

/// Either `not_below(o, a, b)` or `not_below(flip(o), b, a)`.
pub proof fn lemma_not_below_total(o: Order, ra: Seq<char>, rb: Seq<char>)
    ensures
        not_below(o, ra, rb) || not_below(flip(o), rb, ra),
{
    lemma_release_order_flip(ra, rb);
}

// ---------------------------------------------------------------------------
// Laws
// ---------------------------------------------------------------------------

/// A dotted numeric version is at least itself.
pub proof fn law_ver_ge_reflexive(a: Seq<char>)
    requires
        is_dot_numeric(a),
    ensures
        ver_ge_spec(a, a),
{
    lemma_numbers_order_refl(dot_numbers(a), 0);
}

/// Of two dotted numeric versions, one is at least the other.
pub proof fn law_ver_ge_total(a: Seq<char>, b: Seq<char>)
    requires
        is_dot_numeric(a),
        is_dot_numeric(b),
    ensures
        ver_ge_spec(a, b) || ver_ge_spec(b, a),
{
    lemma_numbers_order_flip(dot_numbers(a), dot_numbers(b), 0);
}

/// Every version is at least itself.
pub proof fn law_pkgver_ge_reflexive(a: Seq<char>)
    ensures
        pkgver_ge_spec(a, a),
{
    let (av, ar) = split_release(a);
    lemma_numbers_order_refl(dot_numbers(av), 0);
    lemma_tokens_order_refl(version_tokens(av), 0);
    lemma_release_order_flip(ar, ar);
}

/// Of any two versions, one is at least the other.
pub proof fn law_pkgver_ge_total(a: Seq<char>, b: Seq<char>)
    ensures
        pkgver_ge_spec(a, b) || pkgver_ge_spec(b, a),
{
    let (av, ar) = split_release(a);
    let (bv, br) = split_release(b);
    lemma_numbers_order_flip(dot_numbers(av), dot_numbers(bv), 0);
    lemma_tokens_order_flip(version_tokens(av), version_tokens(bv), 0);
    lemma_not_below_total(numbers_order_from(dot_numbers(av), dot_numbers(bv), 0), ar, br);
    lemma_not_below_total(mixed_order(av, bv), ar, br);
}

/// Release numbers compare as numbers: of two versions that differ only in
/// their releases, where both releases are numbers, the first is at least
/// the second exactly when its release number is at least the other's
/// (`1.2.3-10` is newer than `1.2.3-9`).
pub proof fn law_release_numbers_compare_as_numbers(v: Seq<char>, x: Seq<char>, y: Seq<char>)
    requires
        parse_u64_spec(x) is Some,
        parse_u64_spec(y) is Some,
    ensures
        pkgver_ge_spec(v + seq!['-'] + x, v + seq!['-'] + y) <==> parse_u64_spec(x)->0
            >= parse_u64_spec(y)->0,
{
    lemma_release_after_dash(v, x);
    lemma_release_after_dash(v, y);
    lemma_numbers_order_refl(dot_numbers(v), 0);
    lemma_tokens_order_refl(version_tokens(v), 0);
}

/// A number after the last `-` is the release, and what comes before it is
/// the version.
proof fn lemma_release_after_dash(v: Seq<char>, x: Seq<char>)
    requires
        parse_u64_spec(x) is Some,
    ensures
        split_release(v + seq!['-'] + x) == (v, x),
{
    let body = if x.len() > 0 && x[0] == '+' {
        x.drop_first()
    } else {
        x
    };
    assert forall|i: int| 0 <= i < x.len() implies x[i] != '-' by {
        if x.len() > 0 && x[0] == '+' {
            if i > 0 {
                assert(x[i] == body[i - 1]);
                assert(is_digit(body[i - 1]));
            }
        } else {
            assert(is_digit(body[i]));
        }
    }
    crate::text::lemma_last_index_before(v, '-', x);
    let s = v + seq!['-'] + x;
    assert(s.take(v.len() as int) =~= v);
    assert(s.skip(v.len() as int + 1) =~= x);
}

/// Every version is at least the empty version.
pub proof fn law_pkgver_ge_empty(a: Seq<char>)
    ensures
        pkgver_ge_spec(a, Seq::empty()),
{
}


// ---------------------------------------------------------------------------
// Executable code
// ---------------------------------------------------------------------------

pub open spec fn nat_view(v: Seq<u64>) -> Seq<nat> {
    v.map_values(|x: u64| x as nat)
}

/// Whether every piece of `s` between dots is a non-empty run of digits.
#[verifier::loop_isolation(false)]
pub fn is_dot_numeric_chars(s: &[char]) -> (r: bool)
    ensures
        r == is_dot_numeric(s@),
{
    if s.len() == 0 {
        return false;
    }
    let parts = split_chars(s, '.');
    let ghost sp = split_seq(s@, '.');
    let mut i: usize = 0;
    while i < parts.len()
        invariant
            i <= parts@.len(),
            views(parts@) == sp,
            sp == split_seq(s@, '.'),
            forall|j: int| 0 <= j < i ==> #[trigger] sp[j].len() > 0 && all_digits(sp[j]),
        decreases parts.len() - i,
    {
        let part = &parts[i];
        assert(part@ == sp[i as int]);
        if part.len() == 0 {
            return false;
        }
        let mut k: usize = 0;
        while k < part.len()
            invariant
                k <= part@.len(),
                forall|m: int| 0 <= m < k ==> is_digit(#[trigger] part@[m]),
            decreases part.len() - k,
        {
            if !is_digit_char(part[k]) {
                assert(!all_digits(sp[i as int]));
                return false;
            }
            k += 1;
        }
        assert(all_digits(sp[i as int]));
        i += 1;
    }
    true
}

/// `part.parse::<u64>().unwrap_or(0)`.
fn part_number_exec(p: &[char]) -> (r: u64)
    ensures
        r as nat == part_number(p@),
{
    match parse_u64_chars(p) {
        Some(v) => v,
        None => 0,
    }
}

/// The numbers of every dot-separated piece.
pub(crate) fn dot_numbers_exec(s: &[char]) -> (r: Vec<u64>)
    ensures
        nat_view(r@) == dot_numbers(s@),
{
    let parts = split_chars(s, '.');
    let ghost sp = split_seq(s@, '.');
    let mut out: Vec<u64> = Vec::new();
    let mut i: usize = 0;
    while i < parts.len()
        invariant
            i <= parts@.len(),
            views(parts@) == sp,
            sp == split_seq(s@, '.'),
            out@.len() == i,
            forall|j: int| 0 <= j < i ==> #[trigger] out@[j] as nat == part_number(sp[j]),
        decreases parts.len() - i,
    {
        let n = part_number_exec(&parts[i]);
        assert(parts@[i as int]@ == sp[i as int]);
        out.push(n);
        i += 1;
    }
    assert(nat_view(out@) =~= dot_numbers(s@));
    out
}

/// Compares two number lists, the shorter padded with zeros.
pub(crate) fn numbers_order(a: &[u64], b: &[u64]) -> (r: Order)
    ensures
        r == numbers_order_from(nat_view(a@), nat_view(b@), 0),
{
    let len = if a.len() >= b.len() {
        a.len()
    } else {
        b.len()
    };
    let mut index: usize = 0;
    while index < len
        invariant
            index <= len,
            len == max_len(a@.len() as int, b@.len() as int),
            numbers_order_from(nat_view(a@), nat_view(b@), 0) == numbers_order_from(
                nat_view(a@),
                nat_view(b@),
                index as int,
            ),
        decreases len - index,
    {
        let left = if index < a.len() {
            a[index]
        } else {
            0
        };
        let right = if index < b.len() {
            b[index]
        } else {
            0
        };
        assert(left as nat == padded(nat_view(a@), index as int));
        assert(right as nat == padded(nat_view(b@), index as int));
        if left < right {
            return Order::Less;
        }
        if left > right {
            return Order::Greater;
        }
        index += 1;
    }
    Order::Equal
}

/// Compares two dotted numeric versions; `None` unless both are dotted numeric.
pub fn compare_dot_numeric(a: &[char], b: &[char]) -> (r: Option<Order>)
    ensures
        r == dot_order(a@, b@),
{
    if !is_dot_numeric_chars(a) || !is_dot_numeric_chars(b) {
        return None;
    }
    let a_parts = dot_numbers_exec(a);
    let b_parts = dot_numbers_exec(b);
    Some(numbers_order(&a_parts, &b_parts))
}

/// Whether `a` is a dotted numeric version not below the dotted numeric version `b`.
pub fn ver_ge(a: &str, b: &str) -> (r: bool)
    ensures
        r == ver_ge_spec(a@, b@),
{
    let ac = chars_of(a);
    let bc = chars_of(b);
    match compare_dot_numeric(&ac, &bc) {
        Some(o) => o != Order::Less,
        None => false,
    }
}

/// The comparison key `pkgver-pkgrel`, or `pkgver` when the release is empty.
pub fn pkgver_cmp_key(pkgver: &str, pkgrel: &str) -> (r: String)
    ensures
        r@ == version_key(pkgver@, pkgrel@),
{
    let mut out = copy_str(pkgver);
    if pkgrel.is_empty() {
        out
    } else {
        push_char(&mut out, '-');
        append_str(&mut out, pkgrel);
        out
    }
}

/// Splits `s` at the last `-` into version and release (`0` when there is no `-`).
pub(crate) fn split_pkgver_rel(s: &[char]) -> (r: (Vec<char>, Vec<char>))
    ensures
        (r.0@, r.1@) == split_release(s@),
{
    match last_index_of_exec(s, '-') {
        Some(i) => {
            assert(i < s@.len());
            let n = s.len();
            assert(i < n);
            let ver = sub_chars(s, 0, i);
            let rel = sub_chars(s, i + 1, n);
            assert(ver@ =~= s@.take(i as int));
            assert(rel@ =~= s@.skip(i + 1));
            (ver, rel)
        },
        None => {
            let all = sub_chars(s, 0, s.len());
            assert(all@ =~= s@);
            (all, vec!['0'])
        },
    }
}

/// Compares two release numbers; equal unless both parse.
pub(crate) fn compare_numeric_rel(a: &[char], b: &[char]) -> (r: Order)
    ensures
        r == release_order(a@, b@),
{
    match (parse_u64_chars(a), parse_u64_chars(b)) {
        (Some(x), Some(y)) => {
            if x < y {
                Order::Less
            } else if x > y {
                Order::Greater
            } else {
                Order::Equal
            }
        },
        _ => Order::Equal,
    }
}

/// A token of a mixed version.
enum Token {
    Num(u64),
    Text(Vec<char>),
}

spec fn token_view(t: Token) -> VerToken {
    match t {
        Token::Num(n) => VerToken::Num(n as nat),
        Token::Text(cs) => VerToken::Text(cs@),
    }
}

spec fn tokens_view(v: Seq<Token>) -> Seq<VerToken> {
    v.map_values(|t: Token| token_view(t))
}

/// Splits a version into maximal runs of digits and of ASCII letters.
#[verifier::loop_isolation(false)]
fn tokenize_version(s: &[char]) -> (r: Vec<Token>)
    ensures
        tokens_view(r@) == version_tokens(s@),
{
    let mut out: Vec<Token> = Vec::new();
    let mut start: usize = 0;
    assert(s@.skip(0) =~= s@);
    assert(tokens_view(out@) =~= Seq::<VerToken>::empty());
    while start < s.len()
        invariant
            start <= s@.len(),
            version_tokens(s@) == tokens_view(out@) + version_tokens(s@.skip(start as int)),
        decreases s.len() - start,
    {
        let c = s[start];
        let ghost rest = s@.skip(start as int);
        assert(rest[0] == c);
        assert(rest.drop_first() =~= s@.skip(start + 1));
        if !is_ascii_alnum_char(c) {
            start += 1;
            continue;
        }
        let digit_run = is_digit_char(c);
        let mut end: usize = start + 1;
        assert(s@.skip(end as int) =~= s@.skip(start + 1));
        while end < s.len() && is_ascii_alnum_char(s[end]) && is_digit_char(s[end]) == digit_run
            invariant
                start < end <= s@.len(),
                same_kind_len(s@.skip(start + 1), digit_run) == (end - start - 1) + same_kind_len(
                    s@.skip(end as int),
                    digit_run,
                ),
            decreases s.len() - end,
        {
            assert(s@.skip(end as int)[0] == s@[end as int]);
            assert(s@.skip(end as int).drop_first() =~= s@.skip(end + 1));
            end += 1;
        }
        if end < s.len() {
            assert(s@.skip(end as int)[0] == s@[end as int]);
        }
        assert(same_kind_len(s@.skip(end as int), digit_run) == 0);
        assert(token_len(rest) == end - start);
        let seg = sub_chars(s, start, end);
        assert(rest.take(end - start) =~= seg@);
        assert(rest.skip(end - start) =~= s@.skip(end as int));
        let tok = if digit_run {
            Token::Num(part_number_exec(&seg))
        } else {
            Token::Text(seg)
        };
        let ghost tv = token_view(tok);
        let ghost prev = out@;
        out.push(tok);
        assert(tokens_view(out@) =~= tokens_view(prev).push(tv));
        assert(version_tokens(rest) == seq![tv] + version_tokens(s@.skip(end as int)));
        assert(tokens_view(prev) + version_tokens(rest) =~= tokens_view(out@) + version_tokens(
            s@.skip(end as int),
        ));
        start = end;
    }
    assert(s@.skip(start as int) =~= Seq::<char>::empty());
    assert(tokens_view(out@) + Seq::<VerToken>::empty() =~= tokens_view(out@));
    out
}

/// Compares two tokens: numbers by value, words lexicographically, numbers after words.
fn compare_token(left: &Token, right: &Token) -> (r: Order)
    ensures
        r == token_order(token_view(*left), token_view(*right)),
{
    match (left, right) {
        (Token::Num(a), Token::Num(b)) => {
            if *a < *b {
                Order::Less
            } else if *a > *b {
                Order::Greater
            } else {
                Order::Equal
            }
        },
        (Token::Text(a), Token::Text(b)) => lex_order_chars(a, b),
        (Token::Num(_), Token::Text(_)) => Order::Greater,
        (Token::Text(_), Token::Num(_)) => Order::Less,
    }
}

/// Compares two mixed versions token by token, the shorter padded with `0`.
fn compare_mixed_version(a: &[char], b: &[char]) -> (r: Order)
    ensures
        r == mixed_order(a@, b@),
{
    let a_tokens = tokenize_version(a);
    let b_tokens = tokenize_version(b);
    let zero = Token::Num(0);
    let len = if a_tokens.len() >= b_tokens.len() {
        a_tokens.len()
    } else {
        b_tokens.len()
    };
    let ghost at = tokens_view(a_tokens@);
    let ghost bt = tokens_view(b_tokens@);
    let mut index: usize = 0;
    while index < len
        invariant
            index <= len,
            at == tokens_view(a_tokens@),
            bt == tokens_view(b_tokens@),
            at == version_tokens(a@),
            bt == version_tokens(b@),
            len == max_len(at.len() as int, bt.len() as int),
            token_view(zero) == VerToken::Num(0),
            tokens_order_from(at, bt, 0) == tokens_order_from(at, bt, index as int),
        decreases len - index,
    {
        let left = if index < a_tokens.len() {
            &a_tokens[index]
        } else {
            &zero
        };
        let right = if index < b_tokens.len() {
            &b_tokens[index]
        } else {
            &zero
        };
        assert(token_view(*left) == padded_token(at, index as int));
        assert(token_view(*right) == padded_token(bt, index as int));
        let ord = compare_token(left, right);
        if ord != Order::Equal {
            return ord;
        }
        index += 1;
    }
    Order::Equal
}

/// Whether version `a` (with optional `-release`) is not below version `b`.
/// An empty `b` is met by every `a`; an empty `a` meets no non-empty `b`.
pub fn pkgver_ge(a: &str, b: &str) -> (r: bool)
    ensures
        r == pkgver_ge_spec(a@, b@),
{
    if b.is_empty() {
        return true;
    }
    if a.is_empty() {
        return false;
    }
    let ac = chars_of(a);
    let bc = chars_of(b);
    let (a_ver, a_rel) = split_pkgver_rel(&ac);
    let (b_ver, b_rel) = split_pkgver_rel(&bc);
    let is_numeric_a = is_dot_numeric_chars(&a_ver);
    let is_numeric_b = is_dot_numeric_chars(&b_ver);
    let version = if is_numeric_a && is_numeric_b {
        let a_parts = dot_numbers_exec(&a_ver);
        let b_parts = dot_numbers_exec(&b_ver);
        numbers_order(&a_parts, &b_parts)
    } else {
        compare_mixed_version(&a_ver, &b_ver)
    };
    match version {
        Order::Greater => true,
        Order::Equal => compare_numeric_rel(&a_rel, &b_rel) != Order::Less,
        Order::Less => false,
    }
}

} // verus!
