//! Host facts read from system files: the platform an OpenWrt release
//! names.
use vstd::prelude::*;
use crate::text::{
    chars_of, string_of, sub_chars, trim, trim_chars, starts_with, starts_with_str, text_lines, text_lines_exec,
    string_views,
};

verus! {

/// A shell value with its surrounding blanks removed and, when it is
/// wrapped in a pair of double or single quotes, without them.
pub open spec fn unquoted(value: Seq<char>) -> Seq<char> {
    let t = trim(value);
    if t.len() >= 2 && ((t[0] == '"' && t.last() == '"') || (t[0] == '\'' && t.last() == '\'')) {
        t.subrange(1, t.len() - 1)
    } else {
        t
    }
}

/// A shell value without surrounding blanks and quotes.
pub fn unquote_shell_value(value: &str) -> (r: String)
    ensures
        r@ == unquoted(value@),
{
    let t = trim_chars(&chars_of(value));
    let n = t.len();
    if n >= 2 && ((t[0] == '"' && t[n - 1] == '"') || (t[0] == '\'' && t[n - 1] == '\'')) {
        string_of(&sub_chars(&t, 1, n - 1))
    } else {
        string_of(&t)
    }
}

/// The target the first `DISTRIB_TARGET=` line of a release file names,
/// from line `i` on.
pub open spec fn release_target_from(lines: Seq<Seq<char>>, i: int) -> Option<Seq<char>>
    decreases lines.len() - i,
{
    if i < 0 || i >= lines.len() {
        None
    } else if starts_with(trim(lines[i]), "DISTRIB_TARGET="@) {
        Some(unquoted(trim(lines[i]).skip(15)))
    } else {
        release_target_from(lines, i + 1)
    }
}

/// The platform `/etc/openwrt_release` names: the unquoted value of its
/// first `DISTRIB_TARGET=` line (after trimming the line).
pub fn release_target(text: &str) -> (r: Option<String>)
    ensures
        match release_target_from(text_lines(text@), 0) {
            Some(t) => r matches Some(s) && s@ == t,
            None => r is None,
        },
{
    let lines = text_lines_exec(text);
    let ghost ls = string_views(lines@);
    let mut i: usize = 0;
    proof {
        reveal_strlit("DISTRIB_TARGET=");
    }
    while i < lines.len()
        invariant
            i <= lines@.len(),
            ls == string_views(lines@),
            ls == text_lines(text@),
            "DISTRIB_TARGET="@.len() == 15,
            release_target_from(ls, 0) == release_target_from(ls, i as int),
        decreases lines.len() - i,
    {
        let t = trim_chars(&chars_of(lines[i].as_str()));
        assert(ls[i as int] == lines@[i as int]@);
        if starts_with_str(&t, "DISTRIB_TARGET=") {
            let rest = sub_chars(&t, 15, t.len());
            assert(rest@ =~= t@.skip(15));
            return Some(unquote_shell_value(string_of(&rest).as_str()));
        }
        i += 1;
    }
    None
}

} // verus!
