//! The command-line grammar of the reference tool.
//!
//! ```text
//! enroll  <in.wav> <profile.bin>
//! process <in.wav> <out.wav> [--profile f] [--denoise x] [--focus x] [--proximity x] [--deepfilter x]
//! bench   <in.wav>
//! live    --agent-id <id> [--profile f] [--input-rate 48000]
//! ```
//!
//! Options are scanned left to right: a known flag takes the next argument
//! as its value (whatever it looks like) and the last occurrence wins;
//! anything else is skipped. Numeric values stay text here; turning them
//! into numbers is left to the caller.

use vstd::prelude::*;
use vstd::string::StringExecFns;

verus! {

/// The subcommand selected by the first argument.
#[derive(Debug, PartialEq, Eq)]
pub enum CliCommand {
    /// No command, or `-h` / `--help` / `help`.
    Usage,
    Enroll,
    Process,
    Bench,
    Live,
    /// Any other first argument.
    Unknown(String),
}

/// Picks the subcommand named by the first argument.
pub fn cli_command(first: Option<&str>) -> (c: CliCommand)
    ensures
        match first {
            None => c == CliCommand::Usage,
            Some(s) => if s@ == "enroll"@ {
                c == CliCommand::Enroll
            } else if s@ == "process"@ {
                c == CliCommand::Process
            } else if s@ == "bench"@ {
                c == CliCommand::Bench
            } else if s@ == "live"@ {
                c == CliCommand::Live
            } else if s@ == "-h"@ || s@ == "--help"@ || s@ == "help"@ {
                c == CliCommand::Usage
            } else {
                c matches CliCommand::Unknown(u) && u@ == s@
            },
        },
{
    let s = match first {
        None => return CliCommand::Usage,
        Some(s) => String::from_str(s),
    };
    if s == String::from_str("enroll") {
        CliCommand::Enroll
    } else if s == String::from_str("process") {
        CliCommand::Process
    } else if s == String::from_str("bench") {
        CliCommand::Bench
    } else if s == String::from_str("live") {
        CliCommand::Live
    } else if s == String::from_str("-h") || s == String::from_str("--help") || s == String::from_str(
        "help",
    ) {
        CliCommand::Usage
    } else {
        CliCommand::Unknown(s)
    }
}

/// The error reported for an unknown subcommand.
pub fn unknown_command_message(command: &str) -> (m: String)
    ensures
        m@ == "unknown command: "@ + command@,
{
    let mut m = String::from_str("unknown command: ");
    m.append(command);
    m
}

/// Option values as scanned: `None` when the flag never occurs; for a flag
/// that occurs, its last value (`None` when it was the last argument).
pub ghost struct OptionsView {
    pub profile: Option<Option<Seq<char>>>,
    pub denoise: Option<Option<Seq<char>>>,
    pub focus: Option<Option<Seq<char>>>,
    pub proximity: Option<Option<Seq<char>>>,
    pub deepfilter: Option<Option<Seq<char>>>,
    pub agent_id: Option<Option<Seq<char>>>,
    pub input_rate: Option<Option<Seq<char>>>,
}

/// Which option flag an argument is: 0 `--profile`, 1 `--denoise`,
/// 2 `--focus`, 3 `--proximity`, 4 `--deepfilter`, 5 `--agent-id`,
/// 6 `--input-rate`; 7 for anything else.
pub open spec fn flag_code(a: Seq<char>) -> int {
    if a == "--profile"@ {
        0
    } else if a == "--denoise"@ {
        1
    } else if a == "--focus"@ {
        2
    } else if a == "--proximity"@ {
        3
    } else if a == "--deepfilter"@ {
        4
    } else if a == "--agent-id"@ {
        5
    } else if a == "--input-rate"@ {
        6
    } else {
        7
    }
}

/// Records value `v` for flag `code`.
pub open spec fn set_option(o: OptionsView, code: int, v: Option<Seq<char>>) -> OptionsView {
    if code == 0 {
        OptionsView { profile: Some(v), ..o }
    } else if code == 1 {
        OptionsView { denoise: Some(v), ..o }
    } else if code == 2 {
        OptionsView { focus: Some(v), ..o }
    } else if code == 3 {
        OptionsView { proximity: Some(v), ..o }
    } else if code == 4 {
        OptionsView { deepfilter: Some(v), ..o }
    } else if code == 5 {
        OptionsView { agent_id: Some(v), ..o }
    } else {
        OptionsView { input_rate: Some(v), ..o }
    }
}

/// The scan from argument `i` on, starting from the settings `o`.
pub open spec fn scan_options(args: Seq<Seq<char>>, i: nat, o: OptionsView) -> OptionsView
    decreases args.len() - i,
{
    if i >= args.len() {
        o
    } else if flag_code(args[i as int]) < 7 {
        let (v, next) = if i + 1 < args.len() {
            (Some(args[(i + 1) as int]), i + 2)
        } else {
            (None, args.len())
        };
        scan_options(args, next, set_option(o, flag_code(args[i as int]), v))
    } else {
        scan_options(args, i + 1, o)
    }
}

/// Nothing set.
pub open spec fn no_options() -> OptionsView {
    OptionsView {
        profile: None,
        denoise: None,
        focus: None,
        proximity: None,
        deepfilter: None,
        agent_id: None,
        input_rate: None,
    }
}

/// The views of the arguments.
pub open spec fn arg_views(args: Seq<String>) -> Seq<Seq<char>> {
    args.map_values(|a: String| a@)
}

/// Option values as scanned from the arguments.
pub struct CliOptions {
    pub profile: Option<Option<String>>,
    pub denoise: Option<Option<String>>,
    pub focus: Option<Option<String>>,
    pub proximity: Option<Option<String>>,
    pub deepfilter: Option<Option<String>>,
    pub agent_id: Option<Option<String>>,
    pub input_rate: Option<Option<String>>,
}

pub open spec fn setting_view(s: Option<Option<String>>) -> Option<Option<Seq<char>>> {
    match s {
        None => None,
        Some(None) => Some(None),
        Some(Some(v)) => Some(Some(v@)),
    }
}

impl View for CliOptions {
    type V = OptionsView;

    open spec fn view(&self) -> OptionsView {
        OptionsView {
            profile: setting_view(self.profile),
            denoise: setting_view(self.denoise),
            focus: setting_view(self.focus),
            proximity: setting_view(self.proximity),
            deepfilter: setting_view(self.deepfilter),
            agent_id: setting_view(self.agent_id),
            input_rate: setting_view(self.input_rate),
        }
    }
}

fn flag_code_exec(a: &String) -> (c: u8)
    ensures
        c == flag_code(a@),
{
    if *a == String::from_str("--profile") {
        0
    } else if *a == String::from_str("--denoise") {
        1
    } else if *a == String::from_str("--focus") {
        2
    } else if *a == String::from_str("--proximity") {
        3
    } else if *a == String::from_str("--deepfilter") {
        4
    } else if *a == String::from_str("--agent-id") {
        5
    } else if *a == String::from_str("--input-rate") {
        6
    } else {
        7
    }
}

fn clone_arg(a: &String) -> (r: String)
    ensures
        r@ == a@,
{
    String::from_str(a.as_str())
}

/// Scans the option arguments of `process` and `live`.
pub fn parse_options(args: &[String]) -> (o: CliOptions)
    ensures
        o@ == scan_options(arg_views(args@), 0, no_options()),
{
    let ghost views = arg_views(args@);
    let mut o = CliOptions {
        profile: None,
        denoise: None,
        focus: None,
        proximity: None,
        deepfilter: None,
        agent_id: None,
        input_rate: None,
    };
    let n = args.len();
    let mut i: usize = 0;
    while i < n
        invariant
            n == args@.len(),
            views == arg_views(args@),
            views.len() == n,
            scan_options(views, i as nat, o@) == scan_options(views, 0, no_options()),
        decreases n - i,
    {
        let code = flag_code_exec(&args[i]);
        proof {
            assert(views[i as int] == args@[i as int]@);
        }
        if code < 7 {
            let ghost before = o@;
            let v: Option<String> = if i + 1 < n {
                proof {
                    assert(views[i + 1] == args@[i + 1]@);
                }
                Some(clone_arg(&args[i + 1]))
            } else {
                None
            };
            if code == 0 {
                o.profile = Some(v);
            } else if code == 1 {
                o.denoise = Some(v);
            } else if code == 2 {
                o.focus = Some(v);
            } else if code == 3 {
                o.proximity = Some(v);
            } else if code == 4 {
                o.deepfilter = Some(v);
            } else if code == 5 {
                o.agent_id = Some(v);
            } else {
                o.input_rate = Some(v);
            }
            proof {
                let vv = if i + 1 < n { Some(views[i + 1]) } else { None };
                assert(o@ == set_option(before, code as int, vv));
            }
            i = if i + 1 < n { i + 2 } else { n };
        } else {
            i = i + 1;
        }
    }
    o
}

/// Each flag's value lands in the field named by that flag, and nothing else
/// is set: `[flag, v]` scans to that one field holding `v`.
pub proof fn lemma_flag_fields(v: Seq<char>)
    ensures
        scan_options(seq!["--profile"@, v], 0, no_options()) == (OptionsView {
            profile: Some(Some(v)),
            ..no_options()
        }),
        scan_options(seq!["--denoise"@, v], 0, no_options()) == (OptionsView {
            denoise: Some(Some(v)),
            ..no_options()
        }),
        scan_options(seq!["--focus"@, v], 0, no_options()) == (OptionsView {
            focus: Some(Some(v)),
            ..no_options()
        }),
        scan_options(seq!["--proximity"@, v], 0, no_options()) == (OptionsView {
            proximity: Some(Some(v)),
            ..no_options()
        }),
        scan_options(seq!["--deepfilter"@, v], 0, no_options()) == (OptionsView {
            deepfilter: Some(Some(v)),
            ..no_options()
        }),
        scan_options(seq!["--agent-id"@, v], 0, no_options()) == (OptionsView {
            agent_id: Some(Some(v)),
            ..no_options()
        }),
        scan_options(seq!["--input-rate"@, v], 0, no_options()) == (OptionsView {
            input_rate: Some(Some(v)),
            ..no_options()
        }),
{
    reveal_strlit("--profile");
    reveal_strlit("--denoise");
    reveal_strlit("--focus");
    reveal_strlit("--proximity");
    reveal_strlit("--deepfilter");
    reveal_strlit("--agent-id");
    reveal_strlit("--input-rate");
    assert("--profile"@.len() == 9 && "--denoise"@.len() == 9 && "--focus"@.len() == 7);
    assert("--proximity"@.len() == 11 && "--deepfilter"@.len() == 12);
    assert("--agent-id"@.len() == 10 && "--input-rate"@.len() == 12);
    assert("--profile"@[2] != "--denoise"@[2]);
    assert("--deepfilter"@[2] != "--input-rate"@[2]);
    assert(flag_code("--profile"@) == 0);
    assert(flag_code("--denoise"@) == 1);
    assert(flag_code("--focus"@) == 2);
    assert(flag_code("--proximity"@) == 3);
    assert(flag_code("--deepfilter"@) == 4);
    assert(flag_code("--agent-id"@) == 5);
    assert(flag_code("--input-rate"@) == 6);
    reveal_with_fuel(scan_options, 3);
    assert(scan_options(seq!["--profile"@, v], 2, set_option(no_options(), 0, Some(v))) == set_option(no_options(), 0, Some(v)));
}

} // verus!
