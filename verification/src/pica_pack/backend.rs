//! The package managers a package is built for.
use vstd::prelude::*;
use crate::text::{chars_of, trim, to_lower, trim_chars, to_lower_chars, chars_eq_str, string_of, copy_str, append_str, split_seq, split_chars, views};

verus! {

/// A package manager a package is built for.
#[derive(Debug, Clone, Copy, PartialEq, Eq, Structural)]
pub enum BuildBackend {
    Opkg,
    Apk,
    Plain,
}

/// The backend a name stands for, ignoring surrounding blanks and ASCII case.
pub open spec fn backend_of(s: Seq<char>) -> Option<BuildBackend> {
    let t = to_lower(trim(s));
    if t == "opkg"@ {
        Some(BuildBackend::Opkg)
    } else if t == "apk"@ {
        Some(BuildBackend::Apk)
    } else if t == "none"@ {
        Some(BuildBackend::Plain)
    } else {
        None
    }
}

/// The name of a backend.
pub open spec fn backend_name(b: BuildBackend) -> Seq<char> {
    match b {
        BuildBackend::Opkg => "opkg"@,
        BuildBackend::Apk => "apk"@,
        BuildBackend::Plain => "none"@,
    }
}

impl BuildBackend {
    pub fn parse(value: &str) -> (r: Result<BuildBackend, String>)
        ensures
            match backend_of(value@) {
                Some(b) => r == Ok::<BuildBackend, String>(b),
                None => r is Err && r->Err_0@ == "unsupported package manager: "@ + to_lower(trim(value@)),
            },
    {
        let t = trim_chars(&chars_of(value));
        let l = to_lower_chars(&t);
        if chars_eq_str(&l, "opkg") {
            Ok(BuildBackend::Opkg)
        } else if chars_eq_str(&l, "apk") {
            Ok(BuildBackend::Apk)
        } else if chars_eq_str(&l, "none") {
            Ok(BuildBackend::Plain)
        } else {
            let mut m = copy_str("unsupported package manager: ");
            crate::text::append_chars(&mut m, &l);
            Err(m)
        }
    }

    pub fn as_str(self) -> (r: &'static str)
        ensures
            r@ == backend_name(self),
    {
        match self {
            BuildBackend::Opkg => "opkg",
            BuildBackend::Apk => "apk",
            BuildBackend::Plain => "none",
        }
    }

    /// The extension of the backend's native package files.
    pub fn input_extension(self) -> (r: Option<&'static str>)
        ensures
            match self {
                BuildBackend::Opkg => r matches Some(e) && e@ == ".ipk"@,
                BuildBackend::Apk => r matches Some(e) && e@ == ".apk"@,
                BuildBackend::Plain => r is None,
            },
    {
        match self {
            BuildBackend::Opkg => Some(".ipk"),
            BuildBackend::Apk => Some(".apk"),
            BuildBackend::Plain => None,
        }
    }

    /// The suffix of the backend's package file names.
    pub fn output_suffix(self) -> (r: &'static str)
        ensures
            r@ == match self {
                BuildBackend::Apk => "-apk"@,
                _ => ""@,
            },
    {
        match self {
            BuildBackend::Apk => "-apk",
            _ => "",
        }
    }
}

/// The targets of a build: each backend named in the list, once, in the
/// order first named; the first unknown name fails the build.
pub open spec fn targets_of(names: Seq<Seq<char>>) -> Result<Seq<BuildBackend>, Seq<char>>
    decreases names.len(),
{
    if names.len() == 0 {
        Ok(Seq::empty())
    } else {
        match targets_of(names.drop_last()) {
            Err(e) => Err(e),
            Ok(prev) => match backend_of(names.last()) {
                None => Err("unsupported package manager: "@ + to_lower(trim(names.last()))),
                Some(b) => if prev.contains(b) {
                    Ok(prev)
                } else {
                    Ok(prev.push(b))
                },
            },
        }
    }
}

/// Once a prefix of the names fails, the whole list fails with the same message.
proof fn lemma_targets_err_extends(names: Seq<Seq<char>>, n: int)
    requires
        0 <= n <= names.len(),
        targets_of(names.take(n)) is Err,
    ensures
        targets_of(names) == targets_of(names.take(n)),
    decreases names.len() - n,
{
    if n == names.len() {
        assert(names.take(n) =~= names);
    } else {
        assert(names.take(n + 1).drop_last() =~= names.take(n));
        lemma_targets_err_extends(names, n + 1);
    }
}

/// The list of targets given on the command line, else in the manifest,
/// else `opkg`.
pub open spec fn target_list(value: Option<Seq<char>>, manifest_value: Seq<char>) -> Seq<char> {
    match value {
        Some(v) => v,
        None => if manifest_value.len() == 0 {
            "opkg"@
        } else {
            manifest_value
        },
    }
}

/// The build targets, from the command line or the manifest.
pub fn parse_targets(value: Option<&str>, manifest_value: &str) -> (r: Result<Vec<BuildBackend>, String>)
    ensures
        match targets_of(split_seq(target_list(match value {
            Some(v) => Some(v@),
            None => None,
        }, manifest_value@), ',')) {
            Ok(t) => if t.len() == 0 {
                r is Err && r->Err_0@ == "at least one package manager target is required"@
            } else {
                r is Ok && r->Ok_0@ == t
            },
            Err(m) => r is Err && r->Err_0@ == m,
        },
{
    let raw = match value {
        Some(v) => copy_str(v),
        None => if manifest_value.is_empty() {
            copy_str("opkg")
        } else {
            copy_str(manifest_value)
        },
    };
    let cs = chars_of(raw.as_str());
    let parts = split_chars(&cs, ',');
    let ghost ps = views(parts@);
    let mut result: Vec<BuildBackend> = Vec::new();
    let mut i: usize = 0;
    while i < parts.len()
        invariant
            i <= parts@.len(),
            ps == views(parts@),
            ps == split_seq(target_list(match value {
                Some(v) => Some(v@),
                None => None,
            }, manifest_value@), ','),
            targets_of(ps.take(i as int)) == Ok::<Seq<BuildBackend>, Seq<char>>(result@),
        decreases parts.len() - i,
    {
        assert(ps.take(i + 1).drop_last() =~= ps.take(i as int));
        assert(ps.take(i + 1).last() == parts@[i as int]@);
        let item = string_of(&parts[i]);
        let b = match BuildBackend::parse(item.as_str()) {
            Ok(b) => b,
            Err(m) => {
                assert(targets_of(ps.take(i + 1)) == Err::<Seq<BuildBackend>, Seq<char>>(m@));
                proof {
                    lemma_targets_err_extends(ps, i + 1);
                }
                return Err(m);
            },
        };
        let mut seen = false;
        let mut k: usize = 0;
        while k < result.len()
            invariant
                k <= result@.len(),
                seen == exists|q: int| 0 <= q < k && result@[q] == b,
            decreases result.len() - k,
        {
            if result[k] == b {
                seen = true;
            }
            k += 1;
        }
        if !seen {
            result.push(b);
        }
        i += 1;
    }
    assert(ps.take(parts@.len() as int) =~= ps);
    if result.len() == 0 {
        return Err(copy_str("at least one package manager target is required"));
    }
    Ok(result)
}

} // verus!
