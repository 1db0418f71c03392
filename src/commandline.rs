//! The tracer's command line.

use crate::unwind::{file_name, file_name_of};
use vstd::prelude::*;
use vstd::string::{StrSliceExecFns, StringExecFns};

verus! {

/// The parsed command line.
#[derive(Debug)]
pub struct CommandLineArguments {
    /// Where to record the trace.
    pub atrace_filename: String,
    /// The command to run and trace.
    pub command: Vec<String>,
    /// A running process to attach to.
    pub target_pid: Option<u32>,
    /// Print the version and exit.
    pub report_version: bool,
    /// Print the usage and exit.
    pub show_help: bool,
}

/// Why the command line was refused.
#[derive(Debug, PartialEq, Eq, Structural)]
pub enum CommandLineError {
    /// The argument after `-p` or `--pid` is not a process ID.
    InvalidTargetPid,
}

/// The state of the scan after some arguments.
pub ghost struct ArgState {
    pub filename: Option<Seq<char>>,
    pub command: Seq<Seq<char>>,
    pub target_pid: Option<u32>,
    pub show_help: bool,
    pub report_version: bool,
    pub command_started: bool,
    pub expect_pid: bool,
    pub expect_filename: bool,
}

pub open spec fn initial_state() -> ArgState {
    ArgState {
        filename: None,
        command: seq![],
        target_pid: None,
        show_help: false,
        report_version: false,
        command_started: false,
        expect_pid: false,
        expect_filename: false,
    }
}

/// The value of decimal digits, none if one is not a digit.
pub open spec fn decimal_value(s: Seq<char>) -> Option<nat>
    decreases s.len(),
{
    if s.len() == 0 {
        Some(0)
    } else if '0' <= s.last() && s.last() <= '9' {
        match decimal_value(s.drop_last()) {
            Some(v) => Some((v * 10 + (s.last() as nat - '0' as nat)) as nat),
            None => None,
        }
    } else {
        None
    }
}

/// A process ID as `str::parse::<u32>` reads one: an optional `+` then at
/// least one decimal digit, with a value that fits in 32 bits.
pub open spec fn parse_pid(s: Seq<char>) -> Option<u32> {
    let digits = if s.len() > 1 && s[0] == '+' {
        s.drop_first()
    } else {
        s
    };
    if digits.len() == 0 {
        None
    } else {
        match decimal_value(digits) {
            Some(v) => if v <= u32::MAX {
                Some(v as u32)
            } else {
                None
            },
            None => None,
        }
    }
}

/// The flags that the letters of a short option after the dash set.
pub open spec fn short_flags(st: ArgState, letters: Seq<char>) -> ArgState
    decreases letters.len(),
{
    if letters.len() == 0 {
        st
    } else {
        let st = short_flags(st, letters.drop_last());
        let c = letters.last();
        if c == 'h' {
            ArgState { show_help: true, ..st }
        } else if c == 'o' {
            ArgState { expect_filename: true, ..st }
        } else if c == 'p' {
            ArgState { expect_pid: true, ..st }
        } else if c == 'v' {
            ArgState { report_version: true, ..st }
        } else {
            ArgState { show_help: true, ..st }
        }
    }
}

/// The scan after the argument `token`.  Before the command starts, a
/// token starting with `-` is an option (a long one after `--`, or a group
/// of letters); else it is the process ID or the file name that an option
/// asked for; anything else starts (or, later, continues) the command.
pub open spec fn arg_step(st: ArgState, token: Seq<char>) -> Result<ArgState, CommandLineError> {
    if !st.command_started && token.len() > 0 && token[0] == '-' {
        if token.len() > 1 && token[1] == '-' {
            if token == "--help"@ {
                Ok(ArgState { show_help: true, ..st })
            } else if token == "--output"@ {
                Ok(ArgState { expect_filename: true, ..st })
            } else if token == "--pid"@ {
                Ok(ArgState { expect_pid: true, ..st })
            } else if token == "--version"@ {
                Ok(ArgState { report_version: true, ..st })
            } else {
                Ok(ArgState { show_help: true, ..st })
            }
        } else {
            Ok(short_flags(st, token.drop_first()))
        }
    } else if !st.command_started && st.expect_pid {
        match parse_pid(token) {
            Some(pid) => Ok(ArgState { expect_pid: false, target_pid: Some(pid), ..st }),
            None => Err(CommandLineError::InvalidTargetPid),
        }
    } else if !st.command_started && st.expect_filename {
        Ok(ArgState { expect_filename: false, filename: Some(token), ..st })
    } else {
        Ok(ArgState { command: st.command.push(token), command_started: true, ..st })
    }
}

/// The scan after the arguments `tokens`, or the first error.
pub open spec fn arg_scan(tokens: Seq<Seq<char>>) -> Result<ArgState, CommandLineError>
    decreases tokens.len(),
{
    if tokens.len() == 0 {
        Ok(initial_state())
    } else {
        match arg_scan(tokens.drop_last()) {
            Ok(st) => arg_step(st, tokens.last()),
            Err(e) => Err(e),
        }
    }
}

/// The trace file name for `command`: the base name of the program with
/// `.atrace` appended, or `alloc-trace.atrace` without one.
pub open spec fn trace_filename_spec(command: Seq<Seq<char>>) -> Seq<char> {
    if command.len() > 0 {
        match file_name_of(command[0]) {
            Some(b) => b + ".atrace"@,
            None => "alloc-trace.atrace"@,
        }
    } else {
        "alloc-trace.atrace"@
    }
}

fn parse_pid_token(token: &str) -> (r: Option<u32>)
    ensures
        r == parse_pid(token@),
{
    let len = token.unicode_len();
    let ghost s = token@;
    let start: usize = if len > 1 && token.get_char(0) == '+' {
        1
    } else {
        0
    };
    let ghost digits = s.subrange(start as int, len as int);
    assert(digits =~= (if s.len() > 1 && s[0] == '+' {
        s.drop_first()
    } else {
        s
    }));
    if start == len {
        return None;
    }
    let mut acc: u32 = 0;
    let mut i: usize = start;
    while i < len
        invariant
            start <= i <= len == s.len(),
            s == token@,
            digits == s.subrange(start as int, len as int),
            digits.len() > 0,
            digits == (if s.len() > 1 && s[0] == '+' {
                s.drop_first()
            } else {
                s
            }),
            decimal_value(s.subrange(start as int, i as int)) == Some(acc as nat),
        decreases len - i,
    {
        let c = token.get_char(i);
        let ghost p = s.subrange(start as int, i as int + 1);
        proof {
            assert(p.drop_last() =~= s.subrange(start as int, i as int));
            assert(p.last() == c);
        }
        if !('0' <= c && c <= '9') {
            proof {
                lemma_decimal_prefix(digits, i - start + 1);
                assert(digits.take(i - start + 1) =~= p);
            }
            return None;
        }
        let d = (c as u32) - ('0' as u32);
        proof {
            assert(decimal_value(p) == Some((acc as nat) * 10 + (d as nat)));
            assert(digits.take(i - start + 1) =~= p);
            lemma_decimal_prefix(digits, i - start + 1);
        }
        if acc > (u32::MAX - d) / 10 {
            assert((acc as nat) * 10 + (d as nat) > u32::MAX) by (nonlinear_arith)
                requires
                    acc > (u32::MAX - d) / 10,
                    d <= 9,
            ;
            return None;
        }
        assert((acc as nat) * 10 + (d as nat) <= u32::MAX) by (nonlinear_arith)
            requires
                acc <= (u32::MAX - d) / 10,
                d <= 9,
        ;
        acc = acc * 10 + d;
        i += 1;
    }
    assert(s.subrange(start as int, i as int) =~= digits);
    Some(acc)
}

proof fn lemma_decimal_prefix(s: Seq<char>, k: int)
    requires
        0 <= k <= s.len(),
    ensures
        match decimal_value(s.take(k)) {
            None => decimal_value(s) is None,
            Some(v) => decimal_value(s) is None || decimal_value(s).unwrap() >= v,
        },
    decreases s.len(),
{
    if k == s.len() {
        assert(s.take(k) =~= s);
    } else {
        lemma_decimal_prefix(s.drop_last(), k);
        assert(s.drop_last().take(k) =~= s.take(k));
    }
}

/// The trace file name for `command`.
pub fn get_trace_filename_from_command(command: &Vec<String>) -> (r: String)
    ensures
        r@ == trace_filename_spec(command@.map_values(|s: String| s@)),
{
    if command.len() > 0 {
        match file_name(command[0].as_str()) {
            Some(basename) => {
                let mut name = basename;
                name.append(".atrace");
                proof {
                    reveal_strlit(".atrace");
                }
                return name;
            },
            None => {},
        }
    }
    proof {
        reveal_strlit("alloc-trace.atrace");
    }
    "alloc-trace.atrace".to_owned()
}

pub open spec fn opt_view(o: Option<String>) -> Option<Seq<char>> {
    match o {
        Some(s) => Some(s@),
        None => None,
    }
}

pub open spec fn strings_view(v: Seq<String>) -> Seq<Seq<char>> {
    v.map_values(|s: String| s@)
}

/// The arguments after the program name.
pub open spec fn arguments(args: Seq<String>) -> Seq<Seq<char>> {
    if args.len() == 0 {
        seq![]
    } else {
        strings_view(args).skip(1)
    }
}

/// An error stops the scan: the arguments after it do not matter.
proof fn lemma_scan_error_sticks(tokens: Seq<Seq<char>>, k: int)
    requires
        0 <= k <= tokens.len(),
        arg_scan(tokens.take(k)) is Err,
    ensures
        arg_scan(tokens) == arg_scan(tokens.take(k)),
    decreases tokens.len(),
{
    if k == tokens.len() {
        assert(tokens.take(k) =~= tokens);
    } else {
        assert(tokens.drop_last().take(k) =~= tokens.take(k));
        lemma_scan_error_sticks(tokens.drop_last(), k);
    }
}

impl CommandLineArguments {
    /// Reads the command line `args` (the program name first): options until
    /// the command starts, then the command.  Without `--output` the trace
    /// file is named after the command.
    pub fn parse(args: &Vec<String>) -> (r: Result<CommandLineArguments, CommandLineError>)
        ensures
            match arg_scan(arguments(args@)) {
                Ok(st) => r matches Ok(a) && a.command@.map_values(|s: String| s@) == st.command
                    && a.target_pid == st.target_pid && a.show_help == st.show_help
                    && a.report_version == st.report_version && a.atrace_filename@ == match st.filename {
                    Some(f) => f,
                    None => trace_filename_spec(st.command),
                },
                Err(e) => r == Err::<CommandLineArguments, CommandLineError>(e),
            },
    {
        let ghost toks = arguments(args@);
        let mut filename: Option<String> = None;
        let mut command: Vec<String> = Vec::new();
        let mut target_pid: Option<u32> = None;
        let mut show_help = false;
        let mut report_version = false;
        let mut command_started = false;
        let mut expect_pid = false;
        let mut expect_filename = false;
        let mut i: usize = 1;
        assert(toks.take(0) =~= Seq::<Seq<char>>::empty());
        assert(strings_view(command@) =~= Seq::<Seq<char>>::empty());
        while i < args.len()
            invariant
                1 <= i,
                args@.len() == 0 ==> i == 1,
                args@.len() > 0 ==> i <= args@.len(),
                toks == arguments(args@),
                args@.len() > 0 ==> toks.len() == args@.len() - 1,
                args@.len() > 0 ==> forall|k: int| 0 <= k < toks.len() ==> #[trigger] toks[k] == args@[k + 1]@,
                arg_scan(toks.take(i - 1)) == Ok::<ArgState, CommandLineError>(
                    ArgState {
                        filename: opt_view(filename),
                        command: strings_view(command@),
                        target_pid,
                        show_help,
                        report_version,
                        command_started,
                        expect_pid,
                        expect_filename,
                    },
                ),
            decreases args@.len() - i,
        {
            let ghost st = ArgState {
                filename: opt_view(filename),
                command: strings_view(command@),
                target_pid,
                show_help,
                report_version,
                command_started,
                expect_pid,
                expect_filename,
            };
            let token = args[i].as_str();
            let ghost tv = token@;
            proof {
                assert(toks.take(i as int).drop_last() =~= toks.take(i - 1));
                assert(toks.take(i as int).last() == tv);
            }
            let len = token.unicode_len();
            let mut consumed = false;
            if !command_started {
                if len > 0 && token.get_char(0) == '-' {
                    consumed = true;
                    if len > 1 && token.get_char(1) == '-' {
                        let owned = token.to_owned();
                        if owned == "--help".to_owned() {
                            show_help = true;
                        } else if owned == "--output".to_owned() {
                            expect_filename = true;
                        } else if owned == "--pid".to_owned() {
                            expect_pid = true;
                        } else if owned == "--version".to_owned() {
                            report_version = true;
                        } else {
                            show_help = true;
                        }
                    } else {
                        let mut j: usize = 1;
                        while j < len
                            invariant
                                1 <= j <= len,
                                len == tv.len(),
                                tv == token@,
                                short_flags(st, tv.subrange(1, j as int)) == (ArgState {
                                    filename: opt_view(filename),
                                    command: strings_view(command@),
                                    target_pid,
                                    show_help,
                                    report_version,
                                    command_started,
                                    expect_pid,
                                    expect_filename,
                                }),
                            decreases len - j,
                        {
                            let c = token.get_char(j);
                            proof {
                                assert(tv.subrange(1, j as int + 1).drop_last() =~= tv.subrange(1, j as int));
                            }
                            if c == 'h' {
                                show_help = true;
                            } else if c == 'o' {
                                expect_filename = true;
                            } else if c == 'p' {
                                expect_pid = true;
                            } else if c == 'v' {
                                report_version = true;
                            } else {
                                show_help = true;
                            }
                            j += 1;
                        }
                        assert(tv.subrange(1, len as int) =~= tv.drop_first());
                    }
                } else if expect_pid {
                    consumed = true;
                    expect_pid = false;
                    match parse_pid_token(token) {
                        Some(pid) => {
                            target_pid = Some(pid);
                        },
                        None => {
                            proof {
                                lemma_scan_error_sticks(toks, i as int);
                            }
                            return Err(CommandLineError::InvalidTargetPid);
                        },
                    }
                } else if expect_filename {
                    consumed = true;
                    expect_filename = false;
                    filename = Some(token.to_owned());
                }
            }
            if !consumed {
                let ghost before = command@;
                command.push(token.to_owned());
                command_started = true;
                proof {
                    assert(strings_view(command@) =~= strings_view(before).push(tv));
                }
            }
            i += 1;
        }
        proof {
            if args@.len() > 0 {
                assert(toks.take(i - 1) =~= toks);
            } else {
                assert(toks =~= Seq::<Seq<char>>::empty());
                assert(toks.take(i - 1) =~= toks);
            }
        }
        let atrace_filename = match filename {
            Some(f) => f,
            None => get_trace_filename_from_command(&command),
        };
        Ok(
            CommandLineArguments {
                atrace_filename,
                command,
                target_pid,
                report_version,
                show_help,
            },
        )
    }
}

} // verus!
