//! The order of package versions is transitive where releases are numbers:
//! what lets "the newest candidate" mean one at least every other.
use vstd::prelude::*;
use crate::text::{
    Order, split_seq, all_digits, parse_u64_spec, lex_order, is_ascii_alnum, is_digit,
    first_index_of,
};
use crate::pica_pkg_core::reread::{lemma_first_index_facts, lemma_split_len};
use crate::strset::{lemma_lex_order_antisym, lemma_lex_order_swap, lemma_lex_order_trans};
use crate::pica_pkg_core::version::{
    VerToken, token_order, padded_token, tokens_order_from, max_len, mixed_order, version_tokens,
    same_kind_len, token_len, part_number, is_dot_numeric, dot_numbers, numbers_order_from, padded,
    split_release, not_below, pkgver_ge_spec,
};

verus! {

/// Comparison of two token lists from position `i` up to position `n`,
/// the shorter padded with `0`.
pub open spec fn tokens_order_upto(a: Seq<VerToken>, b: Seq<VerToken>, i: int, n: int) -> Order
    decreases n - i,
{
    if i >= n {
        Order::Equal
    } else if token_order(padded_token(a, i), padded_token(b, i)) != Order::Equal {
        token_order(padded_token(a, i), padded_token(b, i))
    } else {
        tokens_order_upto(a, b, i + 1, n)
    }
}

/// Comparing further than both lists reach changes nothing.
proof fn lemma_tokens_order_upto(a: Seq<VerToken>, b: Seq<VerToken>, i: int, n: int)
    requires
        n >= max_len(a.len() as int, b.len() as int),
    ensures
        tokens_order_from(a, b, i) == tokens_order_upto(a, b, i, n),
    decreases n - i,
{
    if i < n {
        lemma_tokens_order_upto(a, b, i + 1, n);
        if i >= max_len(a.len() as int, b.len() as int) {
            assert(tokens_order_from(a, b, i + 1) == Order::Equal);
        }
    }
}

/// Two comparisons in a row, of single tokens.
proof fn lemma_token_compose(t: VerToken, u: VerToken, w: VerToken)
    ensures
        token_order(t, u) == Order::Equal ==> token_order(t, w) == token_order(u, w),
        token_order(u, w) == Order::Equal ==> token_order(t, w) == token_order(t, u),
        token_order(t, u) == token_order(u, w) ==> token_order(t, w) == token_order(t, u),
{
    match (t, u, w) {
        (VerToken::Text(a), VerToken::Text(b), VerToken::Text(c)) => {
            lemma_lex_order_antisym(a, b);
            lemma_lex_order_antisym(b, c);
            lemma_lex_order_swap(a, b);
            lemma_lex_order_swap(b, a);
            lemma_lex_order_swap(b, c);
            lemma_lex_order_swap(c, b);
            lemma_lex_order_swap(a, c);
            lemma_lex_order_swap(c, a);
            if lex_order(a, b) == Order::Less && lex_order(b, c) == Order::Less {
                lemma_lex_order_trans(a, b, c);
            }
            if lex_order(a, b) == Order::Greater && lex_order(b, c) == Order::Greater {
                lemma_lex_order_trans(c, b, a);
            }
        },
        (VerToken::Text(a), VerToken::Text(b), _) => {
            lemma_lex_order_antisym(a, b);
        },
        (_, VerToken::Text(b), VerToken::Text(c)) => {
            lemma_lex_order_antisym(b, c);
        },
        _ => {},
    }
}

/// Two comparisons in a row, of token lists up to a common position.
proof fn lemma_tokens_upto_compose(a: Seq<VerToken>, b: Seq<VerToken>, c: Seq<VerToken>, i: int, n: int)
    ensures
        tokens_order_upto(a, b, i, n) == Order::Equal ==> tokens_order_upto(a, c, i, n)
            == tokens_order_upto(b, c, i, n),
        tokens_order_upto(b, c, i, n) == Order::Equal ==> tokens_order_upto(a, c, i, n)
            == tokens_order_upto(a, b, i, n),
        tokens_order_upto(a, b, i, n) == tokens_order_upto(b, c, i, n) ==> tokens_order_upto(
            a,
            c,
            i,
            n,
        ) == tokens_order_upto(a, b, i, n),
    decreases n - i,
{
    if i < n {
        lemma_tokens_upto_compose(a, b, c, i + 1, n);
        lemma_token_compose(padded_token(a, i), padded_token(b, i), padded_token(c, i));
    }
}

/// Two comparisons in a row, of mixed versions.
pub proof fn lemma_mixed_compose(a: Seq<char>, b: Seq<char>, c: Seq<char>)
    ensures
        mixed_order(a, b) == Order::Equal ==> mixed_order(a, c) == mixed_order(b, c),
        mixed_order(b, c) == Order::Equal ==> mixed_order(a, c) == mixed_order(a, b),
        mixed_order(a, b) == mixed_order(b, c) ==> mixed_order(a, c) == mixed_order(a, b),
{
    let ta = version_tokens(a);
    let tb = version_tokens(b);
    let tc = version_tokens(c);
    let n = max_len(max_len(ta.len() as int, tb.len() as int), tc.len() as int);
    lemma_tokens_order_upto(ta, tb, 0, n);
    lemma_tokens_order_upto(tb, tc, 0, n);
    lemma_tokens_order_upto(ta, tc, 0, n);
    lemma_tokens_upto_compose(ta, tb, tc, 0, n);
}

/// Splitting around one separator gives the pieces of both sides.
proof fn lemma_split_concat(x: Seq<char>, y: Seq<char>, sep: char)
    ensures
        split_seq(x + seq![sep] + y, sep) == split_seq(x, sep) + split_seq(y, sep),
    decreases y.len(),
{
    let s = x + seq![sep] + y;
    if y.len() == 0 {
        assert(s.drop_last() =~= x);
        assert(split_seq(x, sep).push(Seq::<char>::empty()) =~= split_seq(x, sep) + split_seq(
            y,
            sep,
        ));
    } else {
        let yp = y.drop_last();
        lemma_split_concat(x, yp, sep);
        lemma_split_len(yp, sep);
        assert(s.drop_last() =~= x + seq![sep] + yp);
        assert(s.last() == y.last());
        let l = split_seq(x, sep);
        let r = split_seq(yp, sep);
        if y.last() == sep {
            assert((l + r).push(Seq::<char>::empty()) =~= l + r.push(Seq::<char>::empty()));
        } else {
            assert((l + r).update((l + r).len() - 1, (l + r).last().push(y.last())) =~= l + r.update(
                r.len() - 1,
                r.last().push(y.last()),
            ));
        }
    }
}

/// A text without the separator is one piece.
proof fn lemma_split_single(x: Seq<char>, sep: char)
    requires
        forall|i: int| 0 <= i < x.len() ==> x[i] != sep,
    ensures
        split_seq(x, sep) == seq![x],
    decreases x.len(),
{
    if x.len() > 0 {
        lemma_split_single(x.drop_last(), sep);
        assert(x.last() == x[x.len() - 1]);
        assert(x.drop_last().push(x.last()) =~= x);
        assert(seq![x.drop_last()].update(0, x) =~= seq![x]);
    } else {
        assert(x =~= Seq::<char>::empty());
    }
}

/// The run of digits at the start of `x + y` is `x`, when `y` does not go
/// on with a digit.
proof fn lemma_same_kind_digits(x: Seq<char>, y: Seq<char>)
    requires
        all_digits(x),
        y.len() == 0 || !is_digit(y[0]),
    ensures
        same_kind_len(x + y, true) == x.len(),
    decreases x.len(),
{
    if x.len() == 0 {
        assert(x + y =~= y);
    } else {
        assert(is_digit(x[0]));
        assert((x + y)[0] == x[0]);
        assert((x + y).drop_first() =~= x.drop_first() + y);
        lemma_same_kind_digits(x.drop_first(), y);
    }
}

/// The tokens of a dotted numeric version are its numbers.
proof fn lemma_dot_tokens(s: Seq<char>)
    requires
        is_dot_numeric(s),
    ensures
        version_tokens(s) == dot_numbers(s).map_values(|n: nat| VerToken::Num(n)),
    decreases s.len(),
{
    lemma_first_index_facts(s, '.');
    match first_index_of(s, '.') {
        None => {
            lemma_split_single(s, '.');
            assert(split_seq(s, '.')[0] == s);
            assert(all_digits(s));
            assert(s.drop_first() + Seq::<char>::empty() =~= s.drop_first());
            lemma_same_kind_digits(s.drop_first(), Seq::<char>::empty());
            assert(token_len(s) == s.len());
            assert(s.take(s.len() as int) =~= s);
            assert(s.skip(s.len() as int) =~= Seq::<char>::empty());
            assert(is_digit(s[0]));
            assert(is_ascii_alnum(s[0]));
            assert(version_tokens(s.skip(s.len() as int)) =~= Seq::<VerToken>::empty());
            assert(version_tokens(s) =~= seq![VerToken::Num(part_number(s))]);
            assert(dot_numbers(s).map_values(|n: nat| VerToken::Num(n)) =~= seq![
                VerToken::Num(part_number(s)),
            ]);
        },
        Some(i) => {
            let p = s.take(i);
            let rest = s.skip(i + 1);
            assert(s =~= p + seq!['.'] + rest);
            lemma_split_concat(p, rest, '.');
            lemma_split_single(p, '.');
            let sp = split_seq(s, '.');
            let sr = split_seq(rest, '.');
            assert(sp =~= seq![p] + sr);
            assert(sp[0] == p);
            assert(p.len() > 0 && all_digits(p));
            assert forall|j: int| 0 <= j < sr.len() implies #[trigger] sr[j].len() > 0 && all_digits(
                sr[j],
            ) by {
                assert(sr[j] == sp[j + 1]);
            }
            lemma_split_len(rest, '.');
            if rest.len() == 0 {
                assert(sr[0].len() == 0);
            }
            assert(is_dot_numeric(rest));
            lemma_dot_tokens(rest);
            assert(s[0] == p[0]);
            assert(is_digit(s[0]));
            let tail = seq!['.'] + rest;
            assert(s.drop_first() =~= p.drop_first() + tail);
            lemma_same_kind_digits(p.drop_first(), tail);
            assert(token_len(s) == p.len());
            assert(s.take(p.len() as int) =~= p);
            assert(s.skip(p.len() as int) =~= tail);
            assert(tail.drop_first() =~= rest);
            assert(version_tokens(tail) == version_tokens(rest));
            assert(version_tokens(s) =~= seq![VerToken::Num(part_number(p))] + version_tokens(rest));
            assert(dot_numbers(s) =~= seq![part_number(p)] + dot_numbers(rest));
            assert(dot_numbers(s).map_values(|n: nat| VerToken::Num(n)) =~= seq![
                VerToken::Num(part_number(p)),
            ] + dot_numbers(rest).map_values(|n: nat| VerToken::Num(n)));
        },
    }
}

/// Numbers compare as the number tokens they are.
proof fn lemma_numbers_tokens(ns: Seq<nat>, ms: Seq<nat>, i: int)
    ensures
        numbers_order_from(ns, ms, i) == tokens_order_from(
            ns.map_values(|n: nat| VerToken::Num(n)),
            ms.map_values(|n: nat| VerToken::Num(n)),
            i,
        ),
    decreases max_len(ns.len() as int, ms.len() as int) - i,
{
    let a = ns.map_values(|n: nat| VerToken::Num(n));
    let b = ms.map_values(|n: nat| VerToken::Num(n));
    if i < max_len(ns.len() as int, ms.len() as int) {
        lemma_numbers_tokens(ns, ms, i + 1);
        assert(padded_token(a, i) == VerToken::Num(padded(ns, i)));
        assert(padded_token(b, i) == VerToken::Num(padded(ms, i)));
    }
}

/// Dotted numeric versions compare numerically as they compare token by token.
pub proof fn lemma_dot_order_is_mixed(a: Seq<char>, b: Seq<char>)
    requires
        is_dot_numeric(a),
        is_dot_numeric(b),
    ensures
        numbers_order_from(dot_numbers(a), dot_numbers(b), 0) == mixed_order(a, b),
{
    lemma_dot_tokens(a);
    lemma_dot_tokens(b);
    lemma_numbers_tokens(dot_numbers(a), dot_numbers(b), 0);
}

/// The release of a version is a number (a version without `-` has the
/// release `0`), or the version is empty.
pub open spec fn release_is_number(s: Seq<char>) -> bool {
    s.len() == 0 || parse_u64_spec(split_release(s).1) is Some
}

/// Of two non-empty versions, the order is the token order of the versions,
/// then the order of the releases.
proof fn lemma_pkgver_ge_mixed(a: Seq<char>, b: Seq<char>)
    requires
        a.len() > 0,
        b.len() > 0,
    ensures
        pkgver_ge_spec(a, b) == not_below(
            mixed_order(split_release(a).0, split_release(b).0),
            split_release(a).1,
            split_release(b).1,
        ),
{
    let (av, ar) = split_release(a);
    let (bv, br) = split_release(b);
    if is_dot_numeric(av) && is_dot_numeric(bv) {
        lemma_dot_order_is_mixed(av, bv);
    }
}

/// Among versions whose releases are numbers, "at least" is transitive: a
/// version at least a second one, which is at least a third, is at least
/// the third.
pub proof fn law_pkgver_ge_transitive(a: Seq<char>, b: Seq<char>, c: Seq<char>)
    requires
        release_is_number(a),
        release_is_number(b),
        release_is_number(c),
        pkgver_ge_spec(a, b),
        pkgver_ge_spec(b, c),
    ensures
        pkgver_ge_spec(a, c),
{
    if a.len() > 0 && b.len() > 0 && c.len() > 0 {
        lemma_pkgver_ge_mixed(a, b);
        lemma_pkgver_ge_mixed(b, c);
        lemma_pkgver_ge_mixed(a, c);
        lemma_mixed_compose(split_release(a).0, split_release(b).0, split_release(c).0);
    }
}

/// Versions that are whole numbers compare as numbers, not as text: `10`
/// is newer than `9`.
pub proof fn law_whole_numbers_compare_as_numbers(x: Seq<char>, y: Seq<char>)
    requires
        x.len() > 0,
        y.len() > 0,
        all_digits(x),
        all_digits(y),
        crate::text::digits_value(x) <= u64::MAX,
        crate::text::digits_value(y) <= u64::MAX,
    ensures
        pkgver_ge_spec(x, y) <==> crate::text::digits_value(x) >= crate::text::digits_value(y),
{
    lemma_whole_number_parts(x);
    lemma_whole_number_parts(y);
    let zero = seq!['0'];
    assert(all_digits(zero));
    assert(zero.drop_last() =~= Seq::<char>::empty());
    assert(zero.last() == '0');
    assert(crate::text::digits_value(Seq::<char>::empty()) == 0);
    assert(crate::text::digits_value(zero) == 0);
    assert(parse_u64_spec(zero) == Some(0u64));
    let nx = part_number(x);
    let ny = part_number(y);
    assert(dot_numbers(x) == seq![nx]);
    assert(dot_numbers(y) == seq![ny]);
    assert(padded(seq![nx], 0) == nx);
    assert(padded(seq![ny], 0) == ny);
    if nx == ny {
        assert(numbers_order_from(seq![nx], seq![ny], 1) == Order::Equal);
    }
}

/// A whole number has no release and is one dotted piece of its own value.
proof fn lemma_whole_number_parts(x: Seq<char>)
    requires
        x.len() > 0,
        all_digits(x),
        crate::text::digits_value(x) <= u64::MAX,
    ensures
        split_release(x) == (x, seq!['0']),
        is_dot_numeric(x),
        dot_numbers(x) == seq![part_number(x)],
        part_number(x) == crate::text::digits_value(x),
{
    assert forall|i: int| 0 <= i < x.len() implies x[i] != '-' && x[i] != '.' by {
        assert(is_digit(x[i]));
    }
    crate::text::lemma_last_index_absent(x, '-');
    lemma_split_single(x, '.');
    assert(x[0] != '+');
    assert(parse_u64_spec(x) == Some(crate::text::digits_value(x) as u64));
    assert(split_seq(x, '.')[0] == x);
    assert(dot_numbers(x) =~= seq![part_number(x)]);
}

} // verus!
