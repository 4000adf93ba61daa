//! Command-line flag lookup and the analyzer's reading of its arguments.
use crate::text::str_eq;
use vstd::prelude::*;
use vstd::string::StrSliceExecFns;

verus! {

/// The first position at or after `i` where `flag` occurs.
pub open spec fn index_of_from(args: Seq<Seq<char>>, flag: Seq<char>, i: int) -> Option<int>
    decreases args.len() - i,
{
    if i < 0 || i >= args.len() {
        None
    } else if args[i] == flag {
        Some(i)
    } else {
        index_of_from(args, flag, i + 1)
    }
}

pub open spec fn starts_with(s: Seq<char>, prefix: Seq<char>) -> bool {
    prefix.len() <= s.len() && s.subrange(0, prefix.len() as int) == prefix
}

/// The value of a `--flag value` pair: the argument after the first `flag`,
/// unless it is missing or is itself a `--` option.
pub open spec fn flag_value_spec(args: Seq<Seq<char>>, flag: Seq<char>) -> Option<Seq<char>> {
    match index_of_from(args, flag, 0) {
        Some(i) => if i + 1 < args.len() && !starts_with(args[i + 1], "--"@) {
            Some(args[i + 1])
        } else {
            None
        },
        None => None,
    }
}

fn starts_with_dashes(s: &str) -> (b: bool)
    ensures
        b == starts_with(s@, "--"@),
{
    proof {
        reveal_strlit("--");
    }
    let n = s.unicode_len();
    if n < 2 {
        return false;
    }
    let r = s.get_char(0) == '-' && s.get_char(1) == '-';
    assert(r ==> s@.subrange(0, 2) =~= "--"@);
    proof {
        if s@.subrange(0, 2) == "--"@ {
            assert(s@.subrange(0, 2)[0] == s@[0]);
            assert(s@.subrange(0, 2)[1] == s@[1]);
        }
    }
    r
}

/// Value of a `--flag value` pair, if present.
pub fn flag_value(args: &Vec<String>, flag: &str) -> (v: Option<String>)
    ensures
        match flag_value_spec(args.deep_view(), flag@) {
            Some(s) => v matches Some(x) && x@ == s,
            None => v is None,
        },
{
    let ghost a = args.deep_view();
    let mut i: usize = 0;
    while i < args.len() && !str_eq(args[i].as_str(), flag)
        invariant
            0 <= i <= args.len(),
            a == args.deep_view(),
            index_of_from(a, flag@, 0) == index_of_from(a, flag@, i as int),
        decreases args.len() - i,
    {
        i = i + 1;
    }
    if i >= args.len() {
        return None;
    }
    assert(index_of_from(a, flag@, 0) == Some(i as int));
    if i + 1 < args.len() && !starts_with_dashes(args[i + 1].as_str()) {
        Some(args[i + 1].clone())
    } else {
        None
    }
}

/// Whether some argument is exactly `a`.
pub fn has_arg(args: &Vec<String>, a: &str) -> (b: bool)
    ensures
        b == args.deep_view().contains(a@),
{
    let ghost v = args.deep_view();
    let mut i: usize = 0;
    while i < args.len()
        invariant
            0 <= i <= args.len(),
            v == args.deep_view(),
            forall|j: int| 0 <= j < i ==> v[j] != a@,
        decreases args.len() - i,
    {
        if str_eq(args[i].as_str(), a) {
            assert(v[i as int] == a@);
            return true;
        }
        i = i + 1;
    }
    proof {
        if v.contains(a@) {
            let j = choose|j: int| 0 <= j < v.len() && v[j] == a@;
            assert(v[j] != a@);
        }
    }
    false
}

/// The first position at or after `i` holding an argument that is not a
/// `--` option.
pub open spec fn first_positional_from(args: Seq<Seq<char>>, i: int) -> Option<int>
    decreases args.len() - i,
{
    if i < 0 || i >= args.len() {
        None
    } else if !starts_with(args[i], "--"@) {
        Some(i)
    } else {
        first_positional_from(args, i + 1)
    }
}

/// The recording named on the command line: the first argument that is not
/// a `--` option.
pub open spec fn positional_spec(args: Seq<Seq<char>>) -> Option<Seq<char>> {
    match first_positional_from(args, 0) {
        Some(i) => Some(args[i]),
        None => None,
    }
}

pub open spec fn version_asked(args: Seq<Seq<char>>) -> bool {
    args.contains("--version"@) || args.contains("-V"@)
}

pub open spec fn help_asked(args: Seq<Seq<char>>) -> bool {
    args.contains("--help"@) || args.contains("-h"@)
}

/// What the analyzer does with a recording once it has one.
pub enum AnalyzerMode {
    /// Write training frames from the confirmed marks into this directory.
    Export(String),
    /// Scan and print, no window.
    ScanOnly,
    /// Open the review window and scan behind it.
    Review,
}

/// The analyzer's reading of its command line.
pub enum AnalyzerCommand {
    Version,
    Help,
    /// `input` is the named recording; where none is named the user is asked
    /// for one. `build` is the game build given with `--build`, or empty.
    Analyze { input: Option<String>, build: String, mode: AnalyzerMode },
}

/// Reads the analyzer's arguments: `--version`/`-V` wins over everything,
/// then `--help`/`-h`; otherwise the first non-option argument is the
/// recording, `--export-dataset <dir>` exports, `--scan-only` scans without a
/// window, and anything else opens the review window.
pub fn analyzer_command(args: &Vec<String>) -> (c: AnalyzerCommand)
    ensures
        (c is Version) <==> version_asked(args.deep_view()),
        (c is Help) <==> !version_asked(args.deep_view()) && help_asked(args.deep_view()),
        c matches AnalyzerCommand::Analyze { input, build, mode } ==> {
            let a = args.deep_view();
            &&& match positional_spec(a) {
                Some(p) => input matches Some(x) && x@ == p,
                None => input is None,
            }
            &&& match flag_value_spec(a, "--build"@) {
                Some(b) => build@ == b,
                None => build@ == Seq::<char>::empty(),
            }
            &&& match flag_value_spec(a, "--export-dataset"@) {
                Some(d) => mode matches AnalyzerMode::Export(x) && x@ == d,
                None => if a.contains("--scan-only"@) {
                    mode is ScanOnly
                } else {
                    mode is Review
                },
            }
        },
{
    if has_arg(args, "--version") || has_arg(args, "-V") {
        return AnalyzerCommand::Version;
    }
    if has_arg(args, "--help") || has_arg(args, "-h") {
        return AnalyzerCommand::Help;
    }
    let ghost a = args.deep_view();
    let mut i: usize = 0;
    while i < args.len() && starts_with_dashes(args[i].as_str())
        invariant
            0 <= i <= args.len(),
            a == args.deep_view(),
            first_positional_from(a, 0) == first_positional_from(a, i as int),
        decreases args.len() - i,
    {
        i = i + 1;
    }
    let input = if i < args.len() {
        assert(first_positional_from(a, 0) == Some(i as int));
        Some(args[i].clone())
    } else {
        None
    };
    let build = match flag_value(args, "--build") {
        Some(b) => b,
        None => String::new(),
    };
    let mode = match flag_value(args, "--export-dataset") {
        Some(d) => AnalyzerMode::Export(d),
        None => if has_arg(args, "--scan-only") {
            AnalyzerMode::ScanOnly
        } else {
            AnalyzerMode::Review
        },
    };
    AnalyzerCommand::Analyze { input, build, mode }
}

} // verus!
