//! Version ordering of the command-line tool: dotted numeric versions
//! compare number by number, other versions segment by segment, then by
//! release number; the same order as the package format's.
use vstd::prelude::*;
use crate::pica_pkg_core::version::{ver_ge_spec, version_key, pkgver_ge_spec};

verus! {

/// Whether `a` is a dotted numeric version not below the dotted numeric version `b`.
pub fn ver_ge(a: &str, b: &str) -> (r: bool)
    ensures
        r == ver_ge_spec(a@, b@),
{
    crate::pica_pkg_core::version::ver_ge(a, b)
}

/// The comparison key `pkgver-pkgrel`, or `pkgver` when the release is empty.
pub fn pkgver_cmp_key(pkgver: &str, pkgrel: &str) -> (r: String)
    ensures
        r@ == version_key(pkgver@, pkgrel@),
{
    crate::pica_pkg_core::version::pkgver_cmp_key(pkgver, pkgrel)
}

/// Whether version `a` (with optional `-release`) is not below version `b`:
/// dotted numeric versions number by number, other versions segment by
/// segment (numbers by value, words by text), then by release number.
pub fn pkgver_ge(a: &str, b: &str) -> (r: bool)
    ensures
        r == pkgver_ge_spec(a@, b@),
{
    crate::pica_pkg_core::version::pkgver_ge(a, b)
}

} // verus!
