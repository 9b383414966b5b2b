//! The command line's data model and the decisions taken on it: which
//! discovery mode a command asks for, and the exact cargo invocation that
//! runs a selected target.
//!
//! Parsing the command line and spawning the process are the caller's
//! business; this module turns the parsed command and the selected target
//! into a [`CargoInvocation`], a plain working directory and argument
//! list.

use vstd::prelude::*;
use vstd::string::StrSliceExecFns;
use vstd::string::StringExecFns;

use crate::select::Target;
use crate::strings::contains_str;
use crate::strings::contains_sub;
use crate::strings::str_eq;

verus! {

/// The parsed command line: the one subcommand it carries.
pub struct Cli {
    pub command: Commands,
}

/// The subcommands of the tool; selection is the only one.
pub enum Commands {
    SelectCommand(SelectCommand),
}

/// The selection subcommand: an optional cargo command to run with the
/// selected target, an optional pattern (absent means interactive mode),
/// extra arguments for cargo, and whether superset test names keep
/// running.
pub struct SelectCommand {
    pub cargo_command: Option<String>,
    pub pattern: Option<String>,
    pub cargo_args: Vec<String>,
    pub no_skip: bool,
}

/// What a cargo command word asks for.
#[derive(Debug, Clone, Copy, PartialEq, Eq, Structural)]
pub enum CommandKind {
    /// `run` or `r`: run the selected binary or example.
    Run,
    /// `test` or `t`: targets are test functions and the selection runs
    /// under `cargo test`.
    Test,
    /// Anything else, or no command: the selected target is only shown.
    Show,
}

/// The kind a cargo command word maps to.
pub open spec fn command_kind_of(c: Option<String>) -> CommandKind {
    match c {
        Some(s) => if s@ == "run"@ || s@ == "r"@ {
            CommandKind::Run
        } else if s@ == "t"@ || s@ == "test"@ {
            CommandKind::Test
        } else {
            CommandKind::Show
        },
        None => CommandKind::Show,
    }
}

impl SelectCommand {
    /// What this command's cargo word asks for; it also decides the
    /// discovery mode: test kind scans for test functions, everything
    /// else resolves manifests.
    pub fn command_kind(&self) -> (k: CommandKind)
        ensures
            k == command_kind_of(self.cargo_command),
    {
        match &self.cargo_command {
            Some(s) => {
                if str_eq(s.as_str(), "run") || str_eq(s.as_str(), "r") {
                    CommandKind::Run
                } else if str_eq(s.as_str(), "t") || str_eq(s.as_str(), "test") {
                    CommandKind::Test
                } else {
                    CommandKind::Show
                }
            },
            None => CommandKind::Show,
        }
    }
}

/// The name a target was declared under.
pub open spec fn target_name(t: Target) -> Seq<char> {
    match t {
        Target::Bin(rt) => rt.name@,
        Target::Example(rt) => rt.name@,
        Target::Test(tt) => tt.name@,
    }
}

/// The test names that must be skipped when running the test named `sel`:
/// the names of the other tests whose name strictly contains `sel`, in
/// input order.
pub open spec fn skip_names(ts: Seq<Target>, sel: Seq<char>) -> Seq<Seq<char>>
    decreases ts.len(),
{
    if ts.len() == 0 {
        Seq::empty()
    } else {
        let head = match ts[0] {
            Target::Test(tt) => if tt.name@ != sel && contains_sub(tt.name@, sel) {
                seq![tt.name@]
            } else {
                Seq::empty()
            },
            _ => Seq::empty(),
        };
        head + skip_names(ts.drop_first(), sel)
    }
}

/// The names of the test targets that would also run under the name `sel`
/// and must be skipped: every other test whose name contains `sel`.
pub fn tests_to_skip(targets: &Vec<Target>, sel: &str) -> (res: Vec<String>)
    requires
        forall|i: int| 0 <= i < targets@.len() ==> (#[trigger] targets@[i]) is Test,
    ensures
        res.deep_view() == skip_names(targets@, sel@),
{
    let ghost ts = targets@;
    let mut res: Vec<String> = Vec::new();
    let mut i: usize = 0;
    proof {
        assert(ts.skip(0) =~= ts);
        assert(res.deep_view() + skip_names(ts.skip(0), sel@) =~= skip_names(ts, sel@));
    }
    while i < targets.len()
        invariant
            i <= ts.len(),
            ts == targets@,
            forall|k: int| 0 <= k < ts.len() ==> (#[trigger] ts[k]) is Test,
            skip_names(ts, sel@) == res.deep_view() + skip_names(ts.skip(i as int), sel@),
        decreases ts.len() - i,
    {
        let ghost dv0 = res.deep_view();
        proof {
            assert(ts.skip(i as int)[0] == ts[i as int]);
            assert(ts.skip(i as int).drop_first() =~= ts.skip(i + 1));
        }
        match &targets[i] {
            Target::Test(tt) => {
                if !str_eq(tt.name.as_str(), sel) && contains_str(tt.name.as_str(), sel) {
                    res.push(tt.name.clone());
                    proof {
                        assert(res.deep_view() =~= dv0.push(tt.name@));
                        assert(dv0 + (seq![tt.name@] + skip_names(ts.skip(i + 1), sel@)) =~= res.deep_view() + skip_names(ts.skip(i + 1), sel@));
                    }
                }
            },
            _ => {
                proof {
                    assert(ts[i as int] is Test);
                }
            },
        }
        i = i + 1;
    }
    proof {
        assert(ts.skip(ts.len() as int) =~= Seq::<Target>::empty());
        assert(skip_names(ts.skip(ts.len() as int), sel@) =~= Seq::<Seq<char>>::empty());
        assert(res.deep_view() =~= skip_names(ts, sel@));
    }
    res
}

/// The characters of a path before its final separator; empty when the
/// path has no separator.
pub open spec fn parent_dir(p: Seq<char>) -> Seq<char> {
    match p.index_of_last('/') {
        Some(i) => p.take(i),
        None => Seq::empty(),
    }
}

/// The directory part of a file path, as [`parent_dir`] describes.
pub fn parent_dir_str(p: &str) -> (r: String)
    ensures
        r@ == parent_dir(p@),
{
    let plen: usize = p.unicode_len();
    let mut i: usize = plen;
    proof {
        p@.index_of_last_ensures('/');
    }
    while i > 0
        invariant
            i <= plen,
            plen == p@.len(),
            forall|j: int| i <= j < plen ==> p@[j] != '/',
        decreases i,
    {
        if p.get_char(i - 1) == '/' {
            proof {
                p@.index_of_last_ensures('/');
                assert(p@[i - 1] == '/');
                assert(p@.contains('/'));
                assert(p@.index_of_last('/') == Some(i - 1 as int));
            }
            let r = p.substring_char(0, i - 1);
            proof {
                assert(r@ =~= p@.take(i - 1));
            }
            return r.to_owned();
        }
        i = i - 1;
    }
    proof {
        p@.index_of_last_ensures('/');
        assert(forall|j: int| 0 <= j < p@.len() ==> p@[j] != '/');
        assert(!p@.contains('/'));
    }
    String::new()
}

/// The skip names interleaved with their flag: `--skip` before each name.
pub open spec fn interleave_skips(names: Seq<Seq<char>>) -> Seq<Seq<char>>
    decreases names.len(),
{
    if names.len() == 0 {
        Seq::empty()
    } else {
        seq!["--skip"@, names[0]] + interleave_skips(names.drop_first())
    }
}

/// The argument list that runs a binary or example: `run`, the target's
/// cargo flag, its name, then the extra arguments.
pub open spec fn run_invocation_args(
    flag: Seq<char>,
    name: Seq<char>,
    extra: Seq<Seq<char>>,
) -> Seq<Seq<char>> {
    seq!["run"@, flag, name] + extra
}

/// The argument list that runs a test: `test`, the test's name, the extra
/// arguments, and — unless skipping is off — a `--` followed by a skip
/// flag for every superset name.
pub open spec fn test_invocation_args(
    name: Seq<char>,
    extra: Seq<Seq<char>>,
    skips: Seq<Seq<char>>,
    no_skip: bool,
) -> Seq<Seq<char>> {
    let base = seq!["test"@, name] + extra;
    if no_skip {
        base
    } else {
        base + seq!["--"@] + interleave_skips(skips)
    }
}

/// A planned cargo process: where to run it and with which arguments.
pub struct CargoInvocation {
    pub working_dir: String,
    pub args: Vec<String>,
}

impl Cli {
    /// Plans the cargo invocation for the selected target: under the run
    /// kind a `cargo run` in the target's workspace, under the test kind a
    /// `cargo test` beside the test's source file with superset names
    /// skipped; under the show kind there is nothing to run.
    pub fn plan_invocation(&self, targets: &Vec<Target>, selected: &Target) -> (r: Option<
        CargoInvocation,
    >)
        requires
            ({
                let Commands::SelectCommand(cmd) = self.command;
                &&& command_kind_of(cmd.cargo_command) == CommandKind::Run ==> !(*selected
                    is Test)
                &&& command_kind_of(cmd.cargo_command) == CommandKind::Test ==> ((*selected
                    is Test) && forall|i: int|
                    0 <= i < targets@.len() ==> (#[trigger] targets@[i]) is Test)
            }),
        ensures
            ({
                let Commands::SelectCommand(cmd) = self.command;
                match command_kind_of(cmd.cargo_command) {
                    CommandKind::Run => match r {
                        Some(inv) => {
                            &&& match selected {
                                Target::Bin(rt) => inv.working_dir@ == rt.workspace_path@
                                    && inv.args.deep_view() == run_invocation_args(
                                    "--package"@,
                                    rt.name@,
                                    cmd.cargo_args.deep_view(),
                                ),
                                Target::Example(rt) => inv.working_dir@ == rt.workspace_path@
                                    && inv.args.deep_view() == run_invocation_args(
                                    "--example"@,
                                    rt.name@,
                                    cmd.cargo_args.deep_view(),
                                ),
                                Target::Test(_) => false,
                            }
                        },
                        None => false,
                    },
                    CommandKind::Test => match r {
                        Some(inv) => {
                            &&& match selected {
                                Target::Test(tt) => inv.working_dir@ == parent_dir(tt.path@)
                                    && inv.args.deep_view() == test_invocation_args(
                                    tt.name@,
                                    cmd.cargo_args.deep_view(),
                                    skip_names(targets@, tt.name@),
                                    cmd.no_skip,
                                ),
                                _ => false,
                            }
                        },
                        None => false,
                    },
                    CommandKind::Show => r is None,
                }
            }),
    {
        let Commands::SelectCommand(cmd) = &self.command;
        match cmd.command_kind() {
            CommandKind::Run => {
                let (name, workspace) = match selected {
                    Target::Bin(rt) => (&rt.name, &rt.workspace_path),
                    Target::Example(rt) => (&rt.name, &rt.workspace_path),
                    Target::Test(_) => unreached(),
                };
                let mut args: Vec<String> = Vec::new();
                args.push(String::from_str("run"));
                args.push(String::from_str(selected.to_cargo_flag()));
                args.push(name.clone());
                append_strings(&mut args, &cmd.cargo_args);
                proof {
                    assert(args.deep_view() =~= run_invocation_args(
                        if *selected is Bin {
                            "--package"@
                        } else {
                            "--example"@
                        },
                        name@,
                        cmd.cargo_args.deep_view(),
                    ));
                }
                Some(CargoInvocation { working_dir: workspace.clone(), args })
            },
            CommandKind::Test => {
                let (name, path) = match selected {
                    Target::Test(tt) => (&tt.name, &tt.path),
                    _ => unreached(),
                };
                let skips = tests_to_skip(targets, name.as_str());
                let mut args: Vec<String> = Vec::new();
                args.push(String::from_str("test"));
                args.push(name.clone());
                append_strings(&mut args, &cmd.cargo_args);
                let ghost base = seq!["test"@, name@] + cmd.cargo_args.deep_view();
                proof {
                    assert(args.deep_view() =~= base);
                }
                if !cmd.no_skip {
                    args.push(String::from_str("--"));
                    proof {
                        assert(args.deep_view() =~= base + seq!["--"@]);
                    }
                    let ghost sk = skips.deep_view();
                    let mut k: usize = 0;
                    proof {
                        assert(sk.skip(0) =~= sk);
                    }
                    while k < skips.len()
                        invariant
                            k <= sk.len(),
                            sk == skips.deep_view(),
                            sk.len() == skips@.len(),
                            args.deep_view() + interleave_skips(sk.skip(k as int)) == base + seq![
                                "--"@,
                            ] + interleave_skips(sk),
                        decreases sk.len() - k,
                    {
                        let ghost dv0 = args.deep_view();
                        proof {
                            assert(sk.skip(k as int)[0] == sk[k as int]);
                            assert(sk.skip(k as int).drop_first() =~= sk.skip(k + 1));
                            assert(sk[k as int] == skips@[k as int]@);
                        }
                        args.push(String::from_str("--skip"));
                        args.push(skips[k].clone());
                        proof {
                            assert(args.deep_view() =~= dv0 + seq!["--skip"@, sk[k as int]]);
                            assert(args.deep_view() + interleave_skips(sk.skip(k + 1)) =~= dv0
                                + interleave_skips(sk.skip(k as int)));
                        }
                        k = k + 1;
                    }
                    proof {
                        assert(sk.skip(sk.len() as int) =~= Seq::<Seq<char>>::empty());
                        assert(args.deep_view() =~= base + seq!["--"@] + interleave_skips(sk));
                    }
                }
                Some(CargoInvocation { working_dir: parent_dir_str(path.as_str()), args })
            },
            CommandKind::Show => None,
        }
    }
}

/// Appends clones of all of `src`'s strings to `dst`.
fn append_strings(dst: &mut Vec<String>, src: &Vec<String>)
    ensures
        final(dst).deep_view() == old(dst).deep_view() + src.deep_view(),
{
    let mut i: usize = 0;
    proof {
        assert(dst.deep_view() =~= old(dst).deep_view() + src.deep_view().take(0));
    }
    while i < src.len()
        invariant
            i <= src@.len(),
            dst.deep_view() == old(dst).deep_view() + src.deep_view().take(i as int),
        decreases src@.len() - i,
    {
        let ghost dv0 = dst.deep_view();
        dst.push(src[i].clone());
        proof {
            assert(src.deep_view()[i as int] == src@[i as int]@);
            assert(dst.deep_view() =~= dv0.push(src.deep_view()[i as int]));
            assert(dst.deep_view() =~= old(dst).deep_view() + src.deep_view().take(i + 1));
        }
        i = i + 1;
    }
    proof {
        assert(src.deep_view().take(src@.len() as int) =~= src.deep_view());
    }
}

} // verus!
