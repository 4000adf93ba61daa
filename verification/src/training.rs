//! Training from the GUI: what Python was found, the exact command lines the
//! trainer and the dependency installer run, and when a dataset is big
//! enough to train on. Spawning the processes is the app's job; what their
//! answers mean is decided here.
use crate::text::{trim, trim_spec};
use std::collections::BTreeMap;
use vstd::prelude::*;
use vstd::string::{StrSliceExecFns, StringExecFns};

verus! {

/// What was found when looking for a usable Python.
pub struct PythonStatus {
    /// Command that works, e.g. `py` or `python`.
    pub command: Option<String>,
    /// Extra args needed with it, e.g. `["-3"]` for the Windows launcher.
    pub args: Vec<String>,
    pub version: String,
    /// Whether torch/torchvision/pillow import cleanly.
    pub deps_ok: bool,
    /// Human-readable explanation when something's missing.
    pub detail: String,
}

/// A program and its arguments, ready to spawn.
pub struct CommandLine {
    pub program: String,
    pub args: Vec<String>,
}

impl PythonStatus {
    /// No usable Python, with the reason.
    pub fn missing(detail: &str) -> (s: PythonStatus)
        ensures
            s.command is None,
            s.args@.len() == 0,
            s.version@.len() == 0,
            !s.deps_ok,
            s.detail@ == detail@,
    {
        PythonStatus {
            command: None,
            args: Vec::new(),
            version: String::new(),
            deps_ok: false,
            detail: String::from_str(detail),
        }
    }

    /// The interpreter invocation: its command followed by its extra args.
    pub fn invocation(&self) -> (c: Option<CommandLine>)
        ensures
            match self.command {
                None => c is None,
                Some(cmd) => c matches Some(line) && line.program@ == cmd@
                    && line.args.deep_view() == self.args.deep_view(),
            },
    {
        match &self.command {
            None => None,
            Some(cmd) => {
                let args = clone_strings(&self.args);
                Some(CommandLine { program: cmd.clone(), args })
            },
        }
    }
}

fn clone_strings(v: &Vec<String>) -> (out: Vec<String>)
    ensures
        out.deep_view() == v.deep_view(),
{
    let mut out: Vec<String> = Vec::new();
    let mut i: usize = 0;
    while i < v.len()
        invariant
            0 <= i <= v.len(),
            out.deep_view() =~= v.deep_view().subrange(0, i as int),
        decreases v.len() - i,
    {
        let ghost before = out.deep_view();
        out.push(v[i].clone());
        assert(out.deep_view() =~= before.push(v.deep_view()[i as int]));
        assert(v.deep_view().subrange(0, i + 1) =~= v.deep_view().subrange(0, i as int).push(
            v.deep_view()[i as int],
        ));
        i = i + 1;
    }
    assert(v.deep_view().subrange(0, v.len() as int) =~= v.deep_view());
    out
}

fn push_str(v: &mut Vec<String>, s: &str)
    ensures
        final(v).deep_view() == old(v).deep_view().push(s@),
{
    v.push(String::from_str(s));
    assert(final(v).deep_view() =~= old(v).deep_view().push(s@));
}

/// The arguments `pip` is run with to install the training dependencies.
pub open spec fn pip_install_args() -> Seq<Seq<char>> {
    seq![
        "-m"@,
        "pip"@,
        "install"@,
        "--upgrade"@,
        "torch"@,
        "torchvision"@,
        "pillow"@,
        "--index-url"@,
        "https://download.pytorch.org/whl/cu124"@,
    ]
}

/// The arguments the trainer script is run with.
pub open spec fn train_args(script: Seq<char>, dataset_dir: Seq<char>, build: Seq<char>) -> Seq<
    Seq<char>,
> {
    let base = seq![script, "--data"@, dataset_dir];
    if build.len() == 0 {
        base
    } else {
        base + seq!["--build"@, build]
    }
}

/// The command that `pip install`s torch, torchvision and pillow, if a
/// Python interpreter is available.
pub fn install_dependencies_command(py: &PythonStatus) -> (c: Option<CommandLine>)
    ensures
        match py.command {
            None => c is None,
            Some(cmd) => c matches Some(line) && line.program@ == cmd@ && line.args.deep_view()
                == py.args.deep_view() + pip_install_args(),
        },
{
    match py.invocation() {
        None => None,
        Some(line) => {
            let CommandLine { program, args } = line;
            let mut args = args;
            let ghost base = args.deep_view();
            push_str(&mut args, "-m");
            push_str(&mut args, "pip");
            push_str(&mut args, "install");
            push_str(&mut args, "--upgrade");
            push_str(&mut args, "torch");
            push_str(&mut args, "torchvision");
            push_str(&mut args, "pillow");
            push_str(&mut args, "--index-url");
            push_str(&mut args, "https://download.pytorch.org/whl/cu124");
            assert(args.deep_view() =~= base + pip_install_args());
            Some(CommandLine { program, args })
        },
    }
}

/// The command that runs the trainer `script` over `dataset_dir`, tagging
/// the run with `build` when one is given, if a Python interpreter is
/// available.
pub fn train_command(py: &PythonStatus, script: &str, dataset_dir: &str, build: &str) -> (c:
    Option<CommandLine>)
    ensures
        match py.command {
            None => c is None,
            Some(cmd) => c matches Some(line) && line.program@ == cmd@ && line.args.deep_view()
                == py.args.deep_view() + train_args(script@, dataset_dir@, build@),
        },
{
    match py.invocation() {
        None => None,
        Some(line) => {
            let CommandLine { program, args } = line;
            let mut args = args;
            let ghost base = args.deep_view();
            push_str(&mut args, script);
            push_str(&mut args, "--data");
            push_str(&mut args, dataset_dir);
            if !build.is_empty() {
                push_str(&mut args, "--build");
                push_str(&mut args, build);
            }
            assert(args.deep_view() =~= base + train_args(script@, dataset_dir@, build@));
            Some(CommandLine { program, args })
        },
    }
}

/// Summary of what's currently in the dataset, for the GUI.
pub struct DatasetStatus {
    pub dir: String,
    pub exists: bool,
    pub total: usize,
    pub per_class: BTreeMap<String, usize>,
    pub sources: usize,
    pub builds: Vec<String>,
    /// Held-out evaluation needs at least two source recordings; below that
    /// any accuracy number is meaningless and the UI says so.
    pub enough_to_train: bool,
}

impl DatasetStatus {
    /// The status of a dataset folder that holds nothing yet.
    pub fn empty(dir: String) -> (s: DatasetStatus)
        ensures
            s.dir@ == dir@,
            !s.exists,
            s.total == 0,
            s.per_class@ == Map::<String, usize>::empty(),
            s.sources == 0,
            s.builds@.len() == 0,
            !s.enough_to_train,
    {
        DatasetStatus {
            dir,
            exists: false,
            total: 0,
            per_class: BTreeMap::new(),
            sources: 0,
            builds: Vec::new(),
            enough_to_train: false,
        }
    }
}

/// A dataset is worth training on with at least two source recordings and
/// fifty examples.
pub fn enough_to_train(sources: usize, total: usize) -> (b: bool)
    ensures
        b == (sources >= 2 && total >= 50),
{
    sources >= 2 && total >= 50
}

/// The interpreters tried, in order: the Windows launcher first (`py -3`),
/// the most reliable way to reach a real install when several are on PATH,
/// then the plain names.
pub open spec fn python_candidates_spec() -> Seq<(Seq<char>, Seq<Seq<char>>)> {
    seq![("py"@, seq!["-3"@]), ("python"@, Seq::empty()), ("python3"@, Seq::empty())]
}

fn command_line(program: &str) -> (c: CommandLine)
    ensures
        c.program@ == program@,
        c.args.deep_view() == Seq::<Seq<char>>::empty(),
{
    let c = CommandLine { program: String::from_str(program), args: Vec::new() };
    assert(c.args.deep_view() =~= Seq::<Seq<char>>::empty());
    c
}

/// The interpreters to probe, in the order they are tried.
pub fn python_candidates() -> (c: Vec<CommandLine>)
    ensures
        c@.len() == python_candidates_spec().len(),
        forall|i: int|
            0 <= i < c@.len() ==> (#[trigger] c@[i]).program@ == python_candidates_spec()[i].0
                && c@[i].args.deep_view() == python_candidates_spec()[i].1,
{
    let mut launcher = command_line("py");
    push_str(&mut launcher.args, "-3");
    let mut c: Vec<CommandLine> = Vec::new();
    c.push(launcher);
    c.push(command_line("python"));
    c.push(command_line("python3"));
    assert(seq!["-3"@] =~= Seq::<Seq<char>>::empty().push("-3"@));
    c
}

/// The version an interpreter reports: its trimmed standard output, or its
/// trimmed error output when the first is empty (older Pythons print the
/// version there).
pub open spec fn version_text(stdout: Seq<char>, stderr: Seq<char>) -> Seq<char> {
    if trim_spec(stdout).len() > 0 {
        trim_spec(stdout)
    } else {
        trim_spec(stderr)
    }
}

pub open spec fn found_detail(deps_ok: bool) -> Seq<char> {
    if deps_ok {
        "ready"@
    } else {
        "Python found, but torch/torchvision/pillow aren't installed."@
    }
}

/// The status of the first candidate that answered `--version`: its output
/// and whether torch, torchvision and pillow import in it.
pub fn found_python(candidate: &CommandLine, stdout: &str, stderr: &str, deps_ok: bool) -> (s:
    PythonStatus)
    ensures
        s.command matches Some(c) && c@ == candidate.program@,
        s.args.deep_view() == candidate.args.deep_view(),
        s.version@ == version_text(stdout@, stderr@),
        s.deps_ok == deps_ok,
        s.detail@ == found_detail(deps_ok),
{
    let out = trim(stdout);
    let version = if out.unicode_len() > 0 {
        String::from_str(out)
    } else {
        String::from_str(trim(stderr))
    };
    let detail = if deps_ok {
        String::from_str("ready")
    } else {
        String::from_str("Python found, but torch/torchvision/pillow aren't installed.")
    };
    PythonStatus {
        command: Some(candidate.program.clone()),
        args: clone_strings(&candidate.args),
        version,
        deps_ok,
        detail,
    }
}

pub open spec fn no_python_detail() -> Seq<char> {
    "No Python found. Install Python 3.10+ from python.org (tick \"Add to PATH\"), then use Install dependencies here."@
}

/// The status when no candidate answered.
pub fn no_python() -> (s: PythonStatus)
    ensures
        s.command is None,
        s.args@.len() == 0,
        s.version@.len() == 0,
        !s.deps_ok,
        s.detail@ == no_python_detail(),
{
    PythonStatus::missing(
        "No Python found. Install Python 3.10+ from python.org (tick \"Add to PATH\"), then use Install dependencies here.",
    )
}

} // verus!
