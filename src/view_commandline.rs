//! The viewer's command line.

use crate::commandline::{arguments, opt_view};
use vstd::prelude::*;
use vstd::string::StrSliceExecFns;

verus! {

/// The parsed command line of the viewer.
#[derive(Debug)]
pub struct CommandLineArguments {
    /// The trace file to read.
    pub atrace_filename: Option<String>,
    /// Write a text report instead of the interactive view.
    pub report_mode: bool,
    /// Show performance figures in the interactive view.
    pub report_perf: bool,
    /// Print the version and exit.
    pub report_version: bool,
    /// Print the usage and exit.
    pub show_help: bool,
}

/// The state of the scan after some arguments.
pub ghost struct ViewArgState {
    pub filename: Option<Seq<char>>,
    pub report_mode: bool,
    pub report_perf: bool,
    pub report_version: bool,
    pub show_help: bool,
}

/// The flags that the letters of a short option after the dash set.
pub open spec fn view_short_flags(st: ViewArgState, letters: Seq<char>) -> ViewArgState
    decreases letters.len(),
{
    if letters.len() == 0 {
        st
    } else {
        let st = view_short_flags(st, letters.drop_last());
        let c = letters.last();
        if c == 'r' {
            ViewArgState { report_mode: true, ..st }
        } else if c == 'v' {
            ViewArgState { report_version: true, ..st }
        } else {
            ViewArgState { show_help: true, ..st }
        }
    }
}

/// The scan after the argument `token`: an option (long after `--`, or a
/// group of letters), else the trace file name when there is none yet; a
/// second name, like an unknown option, asks for the usage.
pub open spec fn view_arg_step(st: ViewArgState, token: Seq<char>) -> ViewArgState {
    if token.len() > 0 && token[0] == '-' {
        if token.len() > 1 && token[1] == '-' {
            if token == "--perf"@ {
                ViewArgState { report_perf: true, ..st }
            } else if token == "--report"@ {
                ViewArgState { report_mode: true, ..st }
            } else if token == "--version"@ {
                ViewArgState { report_version: true, ..st }
            } else {
                ViewArgState { show_help: true, ..st }
            }
        } else {
            view_short_flags(st, token.drop_first())
        }
    } else if st.filename is None {
        ViewArgState { filename: Some(token), ..st }
    } else {
        ViewArgState { show_help: true, ..st }
    }
}

/// The scan after the arguments `tokens`.
pub open spec fn view_arg_scan(tokens: Seq<Seq<char>>) -> ViewArgState
    decreases tokens.len(),
{
    if tokens.len() == 0 {
        ViewArgState {
            filename: None,
            report_mode: false,
            report_perf: false,
            report_version: false,
            show_help: false,
        }
    } else {
        view_arg_step(view_arg_scan(tokens.drop_last()), tokens.last())
    }
}

impl CommandLineArguments {
    pub open spec fn state(&self) -> ViewArgState {
        ViewArgState {
            filename: opt_view(self.atrace_filename),
            report_mode: self.report_mode,
            report_perf: self.report_perf,
            report_version: self.report_version,
            show_help: self.show_help,
        }
    }

    /// Reads the viewer's command line `args` (the program name first).
    pub fn parse(args: &Vec<String>) -> (r: CommandLineArguments)
        ensures
            r.state() == view_arg_scan(arguments(args@)),
    {
        let ghost toks = arguments(args@);
        let mut r = CommandLineArguments {
            atrace_filename: None,
            report_mode: false,
            report_perf: false,
            report_version: false,
            show_help: false,
        };
        assert(toks.take(0) =~= Seq::<Seq<char>>::empty());
        let mut i: usize = 1;
        while i < args.len()
            invariant
                1 <= i,
                args@.len() == 0 ==> i == 1,
                args@.len() > 0 ==> i <= args@.len(),
                toks == arguments(args@),
                args@.len() > 0 ==> toks.len() == args@.len() - 1,
                args@.len() > 0 ==> forall|k: int| 0 <= k < toks.len() ==> #[trigger] toks[k] == args@[k + 1]@,
                view_arg_scan(toks.take(i - 1)) == r.state(),
            decreases args@.len() - i,
        {
            let ghost st = r.state();
            let token = args[i].as_str();
            let ghost tv = token@;
            proof {
                assert(toks.take(i as int).drop_last() =~= toks.take(i - 1));
                assert(toks.take(i as int).last() == tv);
            }
            let len = token.unicode_len();
            if len > 0 && token.get_char(0) == '-' {
                if len > 1 && token.get_char(1) == '-' {
                    let owned = token.to_owned();
                    if owned == "--perf".to_owned() {
                        r.report_perf = true;
                    } else if owned == "--report".to_owned() {
                        r.report_mode = true;
                    } else if owned == "--version".to_owned() {
                        r.report_version = true;
                    } else {
                        r.show_help = true;
                    }
                } else {
                    let mut j: usize = 1;
                    while j < len
                        invariant
                            1 <= j <= len,
                            len == tv.len(),
                            tv == token@,
                            view_short_flags(st, tv.subrange(1, j as int)) == r.state(),
                        decreases len - j,
                    {
                        let c = token.get_char(j);
                        proof {
                            assert(tv.subrange(1, j as int + 1).drop_last() =~= tv.subrange(1, j as int));
                        }
                        if c == 'r' {
                            r.report_mode = true;
                        } else if c == 'v' {
                            r.report_version = true;
                        } else {
                            r.show_help = true;
                        }
                        j += 1;
                    }
                    assert(tv.subrange(1, len as int) =~= tv.drop_first());
                }
            } else if r.atrace_filename.is_none() {
                r.atrace_filename = Some(token.to_owned());
            } else {
                r.show_help = true;
            }
            i += 1;
        }
        proof {
            if args@.len() == 0 {
                assert(toks =~= Seq::<Seq<char>>::empty());
            }
            assert(toks.take(i - 1) =~= toks);
        }
        r
    }
}

} // verus!
