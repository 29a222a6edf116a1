//! Package sizes as people read them: the byte count, then the size in the
//! largest binary unit it reaches, to two decimals.
//!
//! The size is taken as a 64-bit float would hold it (rounded to 53
//! significant bits, ties to even), divided by a power of two (which a float
//! does exactly), and rounded to hundredths with ties to even, which is how
//! two-decimal float formatting rounds the exact value it holds. All of it
//! is computed here on integers.
use vstd::prelude::*;
use vstd::arithmetic::div_mod::{lemma_fundamental_div_mod, lemma_div_denominator};
use crate::text::{
    chars_of, copy_str, append_str, push_char, decimal_string, parse_u64_chars, parse_u64_spec, decimal,
    digit_char,
};

verus! {

/// The spacing of 64-bit floats around `n`: 1 below 2^53, doubling with
/// each further bit.
pub open spec fn f64_unit(n: nat) -> nat
    decreases n,
{
    if n < 0x20000000000000 {
        1
    } else {
        2 * f64_unit(n / 2)
    }
}

/// `n` as a 64-bit float holds it: the nearest multiple of the spacing,
/// ties to an even multiple.
pub open spec fn f64_value(n: nat) -> nat {
    let u = f64_unit(n);
    let q = n / u;
    let r = n % u;
    if 2 * r > u || (2 * r == u && q % 2 == 1) {
        (q + 1) * u
    } else {
        q * u
    }
}

/// `m / d` in hundredths, rounded to nearest, ties to even.
pub open spec fn hundredths(m: nat, d: nat) -> nat {
    let t = m * 100;
    let i = t / d;
    let r = t % d;
    if 2 * r > d || (2 * r == d && i % 2 == 1) {
        i + 1
    } else {
        i
    }
}

/// A count of hundredths written with two decimals.
pub open spec fn two_decimals(h: nat) -> Seq<char> {
    decimal(h / 100) + seq!['.', digit_char((h % 100) / 10), digit_char(h % 10)]
}

/// The human-readable part: GiB, MiB or KiB to two decimals once the size
/// reaches the unit, else whole bytes.
pub open spec fn size_human(n: nat) -> Seq<char> {
    let m = f64_value(n);
    if m >= 0x40000000 {
        two_decimals(hundredths(m, 0x40000000)) + " GiB"@
    } else if m >= 0x100000 {
        two_decimals(hundredths(m, 0x100000)) + " MiB"@
    } else if m >= 0x400 {
        two_decimals(hundredths(m, 0x400)) + " KiB"@
    } else {
        decimal(n) + " B"@
    }
}

/// How a size text is shown: empty stays empty, a text that is no `u64`
/// stays as it is, a number `n` becomes `n (human)`.
pub open spec fn size_display(s: Seq<char>) -> Seq<char> {
    if s.len() == 0 {
        Seq::empty()
    } else {
        match parse_u64_spec(s) {
            None => s,
            Some(n) => decimal(n as nat) + " ("@ + size_human(n as nat) + ")"@,
        }
    }
}

proof fn lemma_unit_step(n: nat, u: nat)
    requires
        u >= 1,
        n / u >= 0x20000000000000,
        f64_unit(n) == u * f64_unit(n / u),
    ensures
        f64_unit(n) == (u * 2) * f64_unit(n / (u * 2)),
        u * 2 <= n,
{
    let q = n / u;
    lemma_div_denominator(n as int, u as int, 2);
    assert(q / 2 == n / (u * 2));
    assert(f64_unit(q) == 2 * f64_unit(q / 2));
    let x = f64_unit(q / 2);
    assert(u * (2 * x) == (u * 2) * x) by (nonlinear_arith);
    lemma_fundamental_div_mod(n as int, u as int);
    assert(u * q <= n);
    assert(u * 2 <= u * q) by (nonlinear_arith)
        requires
            q >= 2,
            u >= 1,
    ;
}

/// The spacing of floats around `n`.
fn float_unit(n: u64) -> (u: u128)
    ensures
        u == f64_unit(n as nat),
        u >= 1,
        u <= 0x10000000000000000,
{
    let big: u128 = n as u128;
    let mut u: u128 = 1;
    assert((n as nat) / 1 == n as nat);
    while big / u >= 0x20000000000000
        invariant
            big == n as nat,
            u >= 1,
            u <= 0x10000000000000000,
            f64_unit(n as nat) == u * f64_unit((n as nat) / (u as nat)),
        decreases 0x10000000000000000 - u,
    {
        proof {
            lemma_unit_step(n as nat, u as nat);
        }
        u = u * 2;
    }
    assert((n as nat) / (u as nat) < 0x20000000000000);
    assert(f64_unit((n as nat) / (u as nat)) == 1);
    assert(f64_unit(n as nat) == u * 1);
    u
}

/// `n` as a 64-bit float holds it.
fn float_value(n: u64) -> (m: u128)
    ensures
        m == f64_value(n as nat),
        m <= 0x20000000000000000,
{
    let u = float_unit(n);
    let big: u128 = n as u128;
    let q = big / u;
    let r = big % u;
    proof {
        lemma_fundamental_div_mod(n as int, u as int);
    }
    assert(q * u <= big) by (nonlinear_arith)
        requires
            big == u * q + r,
            r >= 0,
    ;
    if 2 * r > u || (2 * r == u && q % 2 == 1) {
        assert((q + 1) * u == q * u + u) by (nonlinear_arith);
        (q + 1) * u
    } else {
        q * u
    }
}

/// `m / d` in hundredths, ties to even.
fn to_hundredths(m: u128, d: u128) -> (h: u64)
    requires
        m <= 0x20000000000000000,
        0x400 <= d,
    ensures
        h == hundredths(m as nat, d as nat),
{
    let t = m * 100;
    let i = t / d;
    let r = t % d;
    proof {
        lemma_fundamental_div_mod(t as int, d as int);
    }
    assert(i <= 0x3200000000000000) by (nonlinear_arith)
        requires
            t == d * i + r,
            r >= 0,
            d >= 0x400,
            t <= 0x20000000000000000 * 100,
            i >= 0,
    ;
    if 2 * r > d || (2 * r == d && i % 2 == 1) {
        (i + 1) as u64
    } else {
        i as u64
    }
}

fn digit(d: u64) -> (c: char)
    requires
        d < 10,
    ensures
        c == digit_char(d as nat),
{
    let b: u8 = 48u8 + (d as u8);
    b as char
}

fn two_decimals_text(h: u64) -> (r: String)
    ensures
        r@ == two_decimals(h as nat),
{
    let mut s = decimal_string(h / 100);
    push_char(&mut s, '.');
    push_char(&mut s, digit((h % 100) / 10));
    push_char(&mut s, digit(h % 10));
    assert(s@ =~= two_decimals(h as nat));
    s
}

/// The human-readable part of a size.
pub fn size_human_text(n: u64) -> (r: String)
    ensures
        r@ == size_human(n as nat),
{
    let m = float_value(n);
    let mut s = if m >= 0x40000000 {
        let mut t = two_decimals_text(to_hundredths(m, 0x40000000));
        append_str(&mut t, " GiB");
        t
    } else if m >= 0x100000 {
        let mut t = two_decimals_text(to_hundredths(m, 0x100000));
        append_str(&mut t, " MiB");
        t
    } else if m >= 0x400 {
        let mut t = two_decimals_text(to_hundredths(m, 0x400));
        append_str(&mut t, " KiB");
        t
    } else {
        let mut t = decimal_string(n);
        append_str(&mut t, " B");
        t
    };
    s
}

/// A size text as shown to people: `1024` becomes `1024 (1.00 KiB)`.
pub fn format_size_display(size_text: &str) -> (r: String)
    ensures
        r@ == size_display(size_text@),
{
    if size_text.is_empty() {
        proof {
            reveal_strlit("");
        }
        let e = String::new();
        assert(e@ =~= Seq::<char>::empty());
        return e;
    }
    let cs = chars_of(size_text);
    match parse_u64_chars(&cs) {
        None => copy_str(size_text),
        Some(n) => {
            let mut s = decimal_string(n);
            append_str(&mut s, " (");
            let h = size_human_text(n);
            append_str(&mut s, h.as_str());
            append_str(&mut s, ")");
            s
        },
    }
}

} // verus!
