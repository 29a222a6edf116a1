//! The system package managers the tool installs through.
use vstd::prelude::*;
use crate::text::{trim, to_lower, chars_of, trim_chars, to_lower_chars, chars_eq_str};

pub mod apk;
pub mod opkg;

pub use apk::ApkBackend;
pub use opkg::OpkgBackend;

verus! {

/// A package manager the tool knows.
#[derive(Debug, Clone, Copy, PartialEq, Eq, Structural)]
pub enum PackageManagerKind {
    Opkg,
    Apk,
}

/// The kind named by a text, ignoring surrounding blanks and ASCII case.
pub open spec fn kind_of(s: Seq<char>) -> Option<PackageManagerKind> {
    let t = to_lower(trim(s));
    if t == "opkg"@ {
        Some(PackageManagerKind::Opkg)
    } else if t == "apk"@ {
        Some(PackageManagerKind::Apk)
    } else {
        None
    }
}

/// The command name of a kind.
pub open spec fn kind_name(k: PackageManagerKind) -> Seq<char> {
    match k {
        PackageManagerKind::Opkg => "opkg"@,
        PackageManagerKind::Apk => "apk"@,
    }
}

impl PackageManagerKind {
    pub fn parse(value: &str) -> (r: Option<PackageManagerKind>)
        ensures
            r == kind_of(value@),
    {
        let cs = chars_of(value);
        let t = trim_chars(&cs);
        let l = to_lower_chars(&t);
        if chars_eq_str(&l, "opkg") {
            Some(PackageManagerKind::Opkg)
        } else if chars_eq_str(&l, "apk") {
            Some(PackageManagerKind::Apk)
        } else {
            None
        }
    }

    pub fn as_str(self) -> (r: &'static str)
        ensures
            r@ == kind_name(self),
    {
        match self {
            PackageManagerKind::Opkg => "opkg",
            PackageManagerKind::Apk => "apk",
        }
    }
}

/// Parsing the command name of a kind gives that kind back.
pub proof fn law_kind_name_parses(k: PackageManagerKind)
    ensures
        kind_of(kind_name(k)) == Some(k),
{
    reveal_strlit("opkg");
    reveal_strlit("apk");
    let n = kind_name(k);
    assert(trim(n) == n);
    assert(to_lower(n) =~= n);
}

/// A package manager backend.
pub trait PackageManager {
    fn kind(&self) -> PackageManagerKind;
}

/// The backend of `kind` when its command is available.
pub fn package_manager_for(kind: PackageManagerKind, available: bool) -> (r: Option<PackageManagerKind>)
    ensures
        r == (if available {
            Some(kind)
        } else {
            None::<PackageManagerKind>
        }),
{
    if available {
        Some(kind)
    } else {
        None
    }
}

/// The backend to use: apk when its command is available, else opkg when
/// its command is, else none.
pub fn detect_package_manager(apk_available: bool, opkg_available: bool) -> (r: Option<
    PackageManagerKind,
>)
    ensures
        r == (if apk_available {
            Some(PackageManagerKind::Apk)
        } else if opkg_available {
            Some(PackageManagerKind::Opkg)
        } else {
            None::<PackageManagerKind>
        }),
{
    match package_manager_for(PackageManagerKind::Apk, apk_available) {
        Some(k) => Some(k),
        None => package_manager_for(PackageManagerKind::Opkg, opkg_available),
    }
}

} // verus!
