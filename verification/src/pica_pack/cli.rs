//! The builder's command line: `build <staging_dir> [--outdir DIR]`, help
//! and version.
use vstd::prelude::*;
use crate::text::{str_eq, copy_str, append_str};

verus! {

/// What the builder is asked to do.
#[derive(Debug)]
pub enum PackCommand {
    /// Print the usage.
    Help,
    /// Print the version.
    Version,
    /// Build the packages of a staging directory.
    Build { staging_dir: String, outdir: Option<String> },
}

/// The options after `build <staging_dir>`, read from position `i` on:
/// `--outdir DIR` (the last one counts), or help; `Ok(None)` asks for help.
pub open spec fn scan_build_options(rest: Seq<Seq<char>>, i: int, outdir: Option<Seq<char>>) -> Result<
    Option<Option<Seq<char>>>,
    Seq<char>,
>
    decreases rest.len() - i,
{
    if i < 0 || i >= rest.len() {
        Ok(Some(outdir))
    } else if rest[i] == "--outdir"@ {
        if i + 1 < rest.len() {
            scan_build_options(rest, i + 2, Some(rest[i + 1]))
        } else {
            Err("--outdir requires DIR"@)
        }
    } else if rest[i] == "-h"@ || rest[i] == "--help"@ {
        Ok(None)
    } else {
        Err("unknown arg: "@ + rest[i])
    }
}

/// The command of a command line, as plain values: help, version, or a
/// build of a staging directory with an optional output directory.
pub open spec fn pack_command_of(args: Seq<Seq<char>>) -> Result<Option<(Seq<char>, Option<Seq<char>>)>, Seq<char>> {
    if args.len() == 0 {
        Err("missing command"@)
    } else if args[0] == "build"@ {
        if args.len() < 2 {
            Err("build requires <staging_dir>"@)
        } else {
            match scan_build_options(args.skip(2), 0, None) {
                Err(e) => Err(e),
                Ok(None) => Ok(None),
                Ok(Some(o)) => Ok(Some((args[1], o))),
            }
        }
    } else {
        Err("unknown command: "@ + args[0])
    }
}

/// The command a command line asks for; a line without a command should
/// also have the usage printed.
#[verifier::loop_isolation(false)]
pub fn parse_pack_args(args: &Vec<String>) -> (r: Result<PackCommand, String>)
    ensures
        args@.len() > 0 && (args@[0]@ == "-h"@ || args@[0]@ == "--help"@ || args@[0]@ == "help"@) ==> r
            matches Ok(PackCommand::Help),
        args@.len() > 0 && args@[0]@ == "--version"@ ==> r matches Ok(PackCommand::Version),
        !(args@.len() > 0 && (args@[0]@ == "-h"@ || args@[0]@ == "--help"@ || args@[0]@ == "help"@
            || args@[0]@ == "--version"@)) ==> match pack_command_of(args@.map_values(|a: String| a@)) {
            Err(e) => r matches Err(m) && m@ == e,
            Ok(None) => r matches Ok(PackCommand::Help),
            Ok(Some((dir, out))) => r matches Ok(PackCommand::Build { staging_dir, outdir }) && staging_dir@
                == dir && match outdir {
                Some(o) => out == Some(o@),
                None => out is None,
            },
        },
{
    let ghost av = args@.map_values(|a: String| a@);
    if args.len() == 0 {
        return Err(copy_str("missing command"));
    }
    assert(av[0] == args@[0]@);
    proof {
        reveal_strlit("-h");
        reveal_strlit("--help");
        reveal_strlit("help");
        reveal_strlit("--version");
        reveal_strlit("build");
        assert("-h"@.len() != "--version"@.len() && "--help"@.len() != "--version"@.len() && "help"@[0]
            != "--version"@[0]);
        assert("build"@[0] != "--version"@[0] && "build"@[0] != "-h"@[0] && "build"@[0] != "--help"@[0]
            && "build"@[0] != "help"@[0]);
    }
    let c = args[0].as_str();
    if str_eq(c, "-h") || str_eq(c, "--help") || str_eq(c, "help") {
        return Ok(PackCommand::Help);
    }
    if str_eq(c, "--version") {
        return Ok(PackCommand::Version);
    }
    if !str_eq(c, "build") {
        let mut m = copy_str("unknown command: ");
        append_str(&mut m, c);
        return Err(m);
    }
    if args.len() < 2 {
        return Err(copy_str("build requires <staging_dir>"));
    }
    assert(av[1] == args@[1]@);
    let ghost rest = av.skip(2);
    let mut outdir: Option<String> = None;
    let mut index: usize = 2;
    assert(scan_build_options(rest, 0, None) == scan_build_options(rest, index - 2, None::<Seq<char>>));
    while index < args.len()
        invariant
            2 <= index,
            av == args@.map_values(|a: String| a@),
            rest == av.skip(2),
            scan_build_options(rest, 0, None) == scan_build_options(
                rest,
                index - 2,
                match outdir {
                    Some(o) => Some(o@),
                    None => None,
                },
            ),
        decreases args.len() - index,
    {
        let a = args[index].as_str();
        assert(rest[index - 2] == args@[index as int]@);
        if str_eq(a, "--outdir") {
            if index + 1 < args.len() {
                assert(rest[index - 1] == args@[index + 1]@);
                outdir = Some(copy_str(args[index + 1].as_str()));
                index += 2;
            } else {
                return Err(copy_str("--outdir requires DIR"));
            }
        } else if str_eq(a, "-h") || str_eq(a, "--help") {
            return Ok(PackCommand::Help);
        } else {
            let mut m = copy_str("unknown arg: ");
            append_str(&mut m, a);
            return Err(m);
        }
    }
    let staging_dir = copy_str(args[1].as_str());
    Ok(PackCommand::Build { staging_dir, outdir })
}

} // verus!
