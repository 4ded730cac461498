//! The command line of the debugger and the files a compilation produces.

use vstd::prelude::*;

use crate::text::str_eq;

verus! {

/// What the command line asks for.
#[derive(Debug)]
pub enum CliAction {
    /// Debug `source`, compiling it with `compiler`.
    Run { source: String, compiler: String },
    /// Print the usage text and stop.
    Help,
    /// `--compiler` was the last argument.
    MissingCompilerValue,
    /// A second source file was named.
    UnexpectedArgument(String),
    /// No source file was named.
    MissingSource,
}

/// What the command line asks for, with strings taken by their characters.
pub enum CliActionView {
    Run { source: Seq<char>, compiler: Seq<char> },
    Help,
    MissingCompilerValue,
    UnexpectedArgument(Seq<char>),
    MissingSource,
}

impl View for CliAction {
    type V = CliActionView;

    open spec fn view(&self) -> CliActionView {
        match self {
            CliAction::Run { source, compiler } => CliActionView::Run {
                source: source@,
                compiler: compiler@,
            },
            CliAction::Help => CliActionView::Help,
            CliAction::MissingCompilerValue => CliActionView::MissingCompilerValue,
            CliAction::UnexpectedArgument(a) => CliActionView::UnexpectedArgument(a@),
            CliAction::MissingSource => CliActionView::MissingSource,
        }
    }
}

/// The compiler used when the command line names none.
pub open spec fn default_compiler() -> Seq<char> {
    "glp_zcompiler"@
}

/// The outcome of reading `args` from position `i` on, with the source
/// file and compiler seen so far.
pub open spec fn cli_scan(
    args: Seq<Seq<char>>,
    i: int,
    source: Option<Seq<char>>,
    compiler: Seq<char>,
) -> CliActionView
    decreases args.len() - i,
{
    if i < 0 || i >= args.len() {
        match source {
            Some(s) => CliActionView::Run { source: s, compiler },
            None => CliActionView::MissingSource,
        }
    } else {
        let a = args[i];
        if a == "--compiler"@ {
            if i + 1 < args.len() {
                cli_scan(args, i + 2, source, args[i + 1])
            } else {
                CliActionView::MissingCompilerValue
            }
        } else if a == "--help"@ || a == "-h"@ {
            CliActionView::Help
        } else if source is Some {
            CliActionView::UnexpectedArgument(a)
        } else {
            cli_scan(args, i + 1, Some(a), compiler)
        }
    }
}

/// The outcome of the command line `args` (program name first).
pub open spec fn cli_action(args: Seq<Seq<char>>) -> CliActionView {
    cli_scan(args, 1, None, default_compiler())
}

/// Reads the command line `args` (program name first):
/// `[--compiler <path>] <file.dpl>`, or `--help` / `-h`.
pub fn parse_args(args: &Vec<String>) -> (r: CliAction)
    ensures
        r@ == cli_action(args@.map_values(|s: String| s@)),
{
    let ghost av = args@.map_values(|s: String| s@);
    let mut source: Option<String> = None;
    let dc = "glp_zcompiler";
    let mut compiler: String = String::from_str(dc);
    let mut i: usize = 1;
    let n = args.len();
    while i < n
        invariant
            n == args@.len(),
            av == args@.map_values(|s: String| s@),
            1 <= i,
            cli_action(av) == cli_scan(
                av,
                i as int,
                match source {
                    Some(s) => Some(s@),
                    None => None,
                },
                compiler@,
            ),
        decreases n - i,
    {
        let a = args[i].as_str();
        assert(a@ == av[i as int]);
        if str_eq(a, "--compiler") {
            if i + 1 < n {
                compiler = args[i + 1].clone();
                assert(compiler@ == av[i + 1]);
                i = i + 2;
            } else {
                return CliAction::MissingCompilerValue;
            }
        } else if str_eq(a, "--help") || str_eq(a, "-h") {
            return CliAction::Help;
        } else if source.is_some() {
            return CliAction::UnexpectedArgument(args[i].clone());
        } else {
            source = Some(args[i].clone());
            i = i + 1;
        }
    }
    match source {
        Some(s) => CliAction::Run { source: s, compiler },
        None => CliAction::MissingSource,
    }
}

} // verus!
