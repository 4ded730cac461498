//! The command language of the interactive prompt: reading a command line,
//! deciding what each command does in the current state, what a stop is
//! reported as, and which source lines a listing shows.

use vstd::prelude::*;

use crate::debugger::{DebugEvent, Debugger};
use crate::text::{
    parse_u32, parse_u32_spec, split_at_space, str_eq, str_split_at_space, str_trim, trim,
};

verus! {

/// A command line, read.
#[derive(Debug)]
pub enum Command {
    /// A blank line.
    Empty,
    /// `h` / `help`
    Help,
    /// `r` / `run`
    Run,
    /// `c` / `continue`
    Continue,
    /// `s` / `step`
    Step,
    /// `b` / `break <line>`; `None` when the argument is not a line number.
    Break(Option<u32>),
    /// `p` / `print <var>`, with the (possibly empty) argument.
    Print(String),
    /// `locals`
    Locals,
    /// `list`
    List,
    /// `q` / `quit` / `exit`
    Quit,
    /// Any other command word.
    Unknown(String),
}

/// A command line, read, with its strings taken by their characters.
pub enum CommandView {
    Empty,
    Help,
    Run,
    Continue,
    Step,
    Break(Option<u32>),
    Print(Seq<char>),
    Locals,
    List,
    Quit,
    Unknown(Seq<char>),
}

impl View for Command {
    type V = CommandView;

    open spec fn view(&self) -> CommandView {
        match self {
            Command::Empty => CommandView::Empty,
            Command::Help => CommandView::Help,
            Command::Run => CommandView::Run,
            Command::Continue => CommandView::Continue,
            Command::Step => CommandView::Step,
            Command::Break(l) => CommandView::Break(*l),
            Command::Print(a) => CommandView::Print(a@),
            Command::Locals => CommandView::Locals,
            Command::List => CommandView::List,
            Command::Quit => CommandView::Quit,
            Command::Unknown(w) => CommandView::Unknown(w@),
        }
    }
}

/// The command that the line `input` holds: the line is trimmed and split
/// at its first space into the command word and the rest; the rest,
/// trimmed, is the argument.
pub open spec fn command_of(input: Seq<char>) -> CommandView {
    let t = trim(input);
    let (word, rest) = split_at_space(t);
    let arg = match rest {
        Some(r) => trim(r),
        None => Seq::<char>::empty(),
    };
    if t.len() == 0 {
        CommandView::Empty
    } else if word == "h"@ || word == "help"@ {
        CommandView::Help
    } else if word == "r"@ || word == "run"@ {
        CommandView::Run
    } else if word == "c"@ || word == "continue"@ {
        CommandView::Continue
    } else if word == "s"@ || word == "step"@ {
        CommandView::Step
    } else if word == "b"@ || word == "break"@ {
        CommandView::Break(parse_u32_spec(arg))
    } else if word == "p"@ || word == "print"@ {
        CommandView::Print(arg)
    } else if word == "locals"@ {
        CommandView::Locals
    } else if word == "list"@ {
        CommandView::List
    } else if word == "q"@ || word == "quit"@ || word == "exit"@ {
        CommandView::Quit
    } else {
        CommandView::Unknown(word)
    }
}

/// Reads the command on the line `input`.
pub fn parse_command(input: &str) -> (r: Command)
    ensures
        r@ == command_of(input@),
{
    let t = str_trim(input);
    if t.unicode_len() == 0 {
        return Command::Empty;
    }
    let (word, rest) = str_split_at_space(t);
    let arg: &str = match rest {
        Some(r) => str_trim(r),
        None => "",
    };
    proof {
        reveal_strlit("");
    }
    assert(word@ == split_at_space(t@).0);
    assert(arg@ == match split_at_space(t@).1 {
        Some(r) => trim(r),
        None => Seq::<char>::empty(),
    });
    if str_eq(word, "h") || str_eq(word, "help") {
        Command::Help
    } else if str_eq(word, "r") || str_eq(word, "run") {
        Command::Run
    } else if str_eq(word, "c") || str_eq(word, "continue") {
        Command::Continue
    } else if str_eq(word, "s") || str_eq(word, "step") {
        Command::Step
    } else if str_eq(word, "b") || str_eq(word, "break") {
        Command::Break(parse_u32(arg))
    } else if str_eq(word, "p") || str_eq(word, "print") {
        Command::Print(arg.to_owned())
    } else if str_eq(word, "locals") {
        Command::Locals
    } else if str_eq(word, "list") {
        Command::List
    } else if str_eq(word, "q") || str_eq(word, "quit") || str_eq(word, "exit") {
        Command::Quit
    } else {
        Command::Unknown(word.to_owned())
    }
}

/// What the prompt says of the program's state.
#[derive(Debug, Clone, Copy, PartialEq, Eq, Structural)]
pub enum Prompt {
    /// Stopped at this source line.
    AtLine(u32),
    /// The program has exited.
    Exited,
    /// Not started.
    Idle,
}

/// What the REPL does for a command.
#[derive(Debug, Clone, Copy, PartialEq, Eq, Structural)]
pub enum ReplAction {
    /// Nothing (blank line).
    Nothing,
    /// Print the command summary.
    ShowHelp,
    /// Announce the start, then continue to the first stop.
    Start,
    /// Continue to the next breakpoint.
    Continue,
    /// Step to the next statement.
    Step,
    /// Toggle the breakpoint nearest to this line.
    ToggleBreak(u32),
    /// Print the variable named in the command's argument.
    ShowVariable,
    /// Print all variables.
    ShowLocals,
    /// Show the source around the current line.
    ListSource,
    /// Leave the REPL.
    Quit,
    /// Print this message and do nothing else.
    Say(ReplMessage),
}

/// The messages the REPL answers a refused or malformed command with.
#[derive(Debug, Clone, Copy, PartialEq, Eq, Structural)]
pub enum ReplMessage {
    /// `run` after the program exited.
    ExitedRestartToRun,
    /// `run` while stopped in the program.
    AlreadyRunning,
    /// `continue` or `step` after the program exited.
    AlreadyExited,
    /// `continue` before `run`.
    RunFirst,
    /// `print` or `locals` before `run`.
    NotStarted,
    /// `break` without a line number.
    BreakUsage,
    /// `print` without a variable name.
    PrintUsage,
    /// A command word that is not known (the word is the command's).
    UnknownCommand,
}

/// The REPL's own state.
#[derive(Debug, Clone, Copy, PartialEq, Eq, Structural)]
pub struct ReplState {
    /// Whether the debugged program has exited or was killed.
    pub program_exited: bool,
}

/// What the REPL does for `cmd`, given whether the program has exited and
/// whether it is stopped at a statement.
pub open spec fn repl_action(exited: bool, stopped: bool, cmd: CommandView) -> ReplAction {
    match cmd {
        CommandView::Empty => ReplAction::Nothing,
        CommandView::Help => ReplAction::ShowHelp,
        CommandView::Run => if exited {
            ReplAction::Say(ReplMessage::ExitedRestartToRun)
        } else if stopped {
            ReplAction::Say(ReplMessage::AlreadyRunning)
        } else {
            ReplAction::Start
        },
        CommandView::Continue => if exited {
            ReplAction::Say(ReplMessage::AlreadyExited)
        } else if !stopped {
            ReplAction::Say(ReplMessage::RunFirst)
        } else {
            ReplAction::Continue
        },
        CommandView::Step => if exited {
            ReplAction::Say(ReplMessage::AlreadyExited)
        } else if !stopped {
            ReplAction::Continue
        } else {
            ReplAction::Step
        },
        CommandView::Break(line) => match line {
            Some(l) => ReplAction::ToggleBreak(l),
            None => ReplAction::Say(ReplMessage::BreakUsage),
        },
        CommandView::Print(arg) => if !stopped && !exited {
            ReplAction::Say(ReplMessage::NotStarted)
        } else if arg.len() == 0 {
            ReplAction::Say(ReplMessage::PrintUsage)
        } else {
            ReplAction::ShowVariable
        },
        CommandView::Locals => if !stopped && !exited {
            ReplAction::Say(ReplMessage::NotStarted)
        } else {
            ReplAction::ShowLocals
        },
        CommandView::List => ReplAction::ListSource,
        CommandView::Quit => ReplAction::Quit,
        CommandView::Unknown(_) => ReplAction::Say(ReplMessage::UnknownCommand),
    }
}

/// How a stop is reported.
#[derive(Debug, Clone, Copy, PartialEq, Eq, Structural)]
pub enum EventReport {
    /// Stopped at a user breakpoint on this line.
    BreakpointHit { line: u32 },
    /// Stopped on this line (a step or the first statement).
    StoppedAt { line: u32 },
    /// The program exited with this status.
    Exited { status: i32 },
    /// The program was killed by this signal.
    Killed { signal: i32 },
}

impl ReplState {
    /// The state at the start of a session.
    pub fn new() -> (r: ReplState)
        ensures
            !r.program_exited,
    {
        ReplState { program_exited: false }
    }

    /// What to do for `cmd`; `stopped` says whether execution is stopped at
    /// a statement.
    pub fn decide(&self, cmd: &Command, stopped: bool) -> (r: ReplAction)
        ensures
            r == repl_action(self.program_exited, stopped, cmd@),
            cmd@ matches CommandView::Break(Some(l)) ==> r == ReplAction::ToggleBreak(l),
    {
        let exited = self.program_exited;
        match cmd {
            Command::Empty => ReplAction::Nothing,
            Command::Help => ReplAction::ShowHelp,
            Command::Run => if exited {
                ReplAction::Say(ReplMessage::ExitedRestartToRun)
            } else if stopped {
                ReplAction::Say(ReplMessage::AlreadyRunning)
            } else {
                ReplAction::Start
            },
            Command::Continue => if exited {
                ReplAction::Say(ReplMessage::AlreadyExited)
            } else if !stopped {
                ReplAction::Say(ReplMessage::RunFirst)
            } else {
                ReplAction::Continue
            },
            Command::Step => if exited {
                ReplAction::Say(ReplMessage::AlreadyExited)
            } else if !stopped {
                ReplAction::Continue
            } else {
                ReplAction::Step
            },
            Command::Break(line) => match line {
                Some(l) => ReplAction::ToggleBreak(*l),
                None => ReplAction::Say(ReplMessage::BreakUsage),
            },
            Command::Print(arg) => if !stopped && !exited {
                ReplAction::Say(ReplMessage::NotStarted)
            } else if arg.as_str().unicode_len() == 0 {
                ReplAction::Say(ReplMessage::PrintUsage)
            } else {
                ReplAction::ShowVariable
            },
            Command::Locals => if !stopped && !exited {
                ReplAction::Say(ReplMessage::NotStarted)
            } else {
                ReplAction::ShowLocals
            },
            Command::List => ReplAction::ListSource,
            Command::Quit => ReplAction::Quit,
            Command::Unknown(_) => ReplAction::Say(ReplMessage::UnknownCommand),
        }
    }

    /// Records the outcome of a resume and says how to report it: a stop is
    /// a breakpoint hit when its statement carries a user breakpoint; an
    /// exit or a kill marks the program as exited.
    pub fn handle_event(&mut self, event: DebugEvent, dbg: &Debugger) -> (r: EventReport)
        ensures
            r == (match event {
                DebugEvent::HitBreakpoint { stmt_idx, line } => if dbg.user_breakpoints@.contains(
                    stmt_idx,
                ) {
                    EventReport::BreakpointHit { line }
                } else {
                    EventReport::StoppedAt { line }
                },
                DebugEvent::Exited { status } => EventReport::Exited { status },
                DebugEvent::Signaled { signal } => EventReport::Killed { signal },
            }),
            final(self).program_exited == (old(self).program_exited || !(
            event is HitBreakpoint)),
    {
        match event {
            DebugEvent::HitBreakpoint { stmt_idx, line } => {
                if dbg.is_user_breakpoint(stmt_idx) {
                    EventReport::BreakpointHit { line }
                } else {
                    EventReport::StoppedAt { line }
                }
            },
            DebugEvent::Exited { status } => {
                self.program_exited = true;
                EventReport::Exited { status }
            },
            DebugEvent::Signaled { signal } => {
                self.program_exited = true;
                EventReport::Killed { signal }
            },
        }
    }

    /// What the prompt shows.
    pub fn prompt(&self, dbg: &Debugger) -> (r: Prompt)
        requires
            dbg.wf(),
        ensures
            r == (match dbg.current_stmt {
                Some(i) => Prompt::AtLine(dbg.source_map.statements@[i as int].line),
                None => if self.program_exited {
                    Prompt::Exited
                } else {
                    Prompt::Idle
                },
            }),
    {
        match dbg.current_line() {
            Some(line) => Prompt::AtLine(line),
            None => if self.program_exited {
                Prompt::Exited
            } else {
                Prompt::Idle
            },
        }
    }
}

/// One line of a source listing.
#[derive(Debug, Clone, Copy, PartialEq, Eq, Structural)]
pub struct ListingRow {
    /// The 1-based line number.
    pub lineno: usize,
    /// Whether execution is at this line.
    pub current: bool,
    /// Whether a user breakpoint sits on a statement of this line.
    pub breakpoint: bool,
}

/// The first line number a listing around line `current` shows: five
/// before it, or line 1.
pub open spec fn listing_first(current: usize) -> int {
    if current >= 6 {
        current - 5
    } else {
        1
    }
}

/// The last line number a listing around line `current` shows in a file of
/// `n` lines: five after it, or the last line.
pub open spec fn listing_last(current: usize, n: usize) -> int {
    if current + 5 <= n {
        current + 5
    } else {
        n as int
    }
}

/// Some statement on source line `line` carries a user breakpoint.
pub open spec fn has_user_bp_on(dbg: &Debugger, line: u32) -> bool {
    exists|i: usize|
        #[trigger] dbg.user_breakpoints@.contains(i) && dbg.source_map.statements@[i as int].line
            == line
}

impl Debugger {
    /// Whether a user breakpoint sits on a statement of source line `line`.
    pub fn breakpoint_on_line(&self, line: u32) -> (r: bool)
        requires
            self.wf(),
        ensures
            r == has_user_bp_on(self, line),
    {
        let n = self.source_map.statements.len();
        let mut i: usize = 0;
        while i < n
            invariant
                n == self.source_map.statements@.len(),
                self.wf(),
                0 <= i <= n,
                forall|j: usize|
                    j < i ==> !(#[trigger] self.user_breakpoints@.contains(j)
                        && self.source_map.statements@[j as int].line == line),
            decreases n - i,
        {
            if self.source_map.statements[i].line == line && self.user_breakpoints.contains(&i) {
                return true;
            }
            i = i + 1;
        }
        false
    }
}

/// The line a `list` command centres on: the current line, or line 1.
pub fn list_line(dbg: &Debugger) -> (r: usize)
    requires
        dbg.wf(),
    ensures
        r == (match dbg.current_stmt {
            Some(i) => dbg.source_map.statements@[i as int].line as usize,
            None => 1,
        }),
{
    match dbg.current_line() {
        Some(l) => l as usize,
        None => 1,
    }
}

/// The rows of a listing of a file of `num_lines` lines around line
/// `current_line`: the lines from five before it to five after it that the
/// file has, marking the current line and the lines that carry user
/// breakpoints.
pub fn source_listing(num_lines: usize, current_line: usize, dbg: &Debugger) -> (r: Vec<ListingRow>)
    requires
        dbg.wf(),
    ensures
        r@.len() == (if listing_first(current_line) <= listing_last(current_line, num_lines) {
            listing_last(current_line, num_lines) - listing_first(current_line) + 1
        } else {
            0
        }),
        r@.len() <= 11,
        forall|k: int|
            0 <= k < r@.len() ==> {
                let lineno = listing_first(current_line) + k;
                &&& (#[trigger] r@[k]).lineno == lineno
                &&& r@[k].current == (lineno == current_line)
                &&& r@[k].breakpoint == has_user_bp_on(dbg, lineno as u32)
            },
        1 <= current_line <= num_lines ==> exists|k: int|
            0 <= k < r@.len() && (#[trigger] r@[k]).current,
        1 <= current_line <= num_lines ==> {
            let before = if current_line - 1 < 5 {
                current_line - 1
            } else {
                5
            };
            let after = if num_lines - current_line < 5 {
                num_lines - current_line
            } else {
                5
            };
            &&& r@.len() == before + 1 + after
            &&& r@[before].lineno == current_line
            &&& r@[before].current
        },
{
    let first: usize = if current_line >= 6 {
        current_line - 5
    } else {
        1
    };
    let last: usize = if current_line <= num_lines && num_lines - current_line >= 5 {
        current_line + 5
    } else {
        num_lines
    };
    assert(last == listing_last(current_line, num_lines));
    let mut rows: Vec<ListingRow> = Vec::new();
    if first > last {
        return rows;
    }
    let mut lineno = first;
    loop
        invariant_except_break
            rows@.len() == lineno - first,
            forall|k: int|
                0 <= k < rows@.len() ==> {
                    let l = first + k;
                    &&& (#[trigger] rows@[k]).lineno == l
                    &&& rows@[k].current == (l == current_line)
                    &&& rows@[k].breakpoint == has_user_bp_on(dbg, l as u32)
                },
        invariant
            dbg.wf(),
            first == listing_first(current_line),
            last == listing_last(current_line, num_lines),
            first <= lineno <= last,
        ensures
            rows@.len() == last - first + 1,
            forall|k: int|
                0 <= k < rows@.len() ==> {
                    let l = first + k;
                    &&& (#[trigger] rows@[k]).lineno == l
                    &&& rows@[k].current == (l == current_line)
                    &&& rows@[k].breakpoint == has_user_bp_on(dbg, l as u32)
                },
        decreases last - lineno,
    {
        let bp = dbg.breakpoint_on_line(lineno as u32);
        rows.push(ListingRow { lineno, current: lineno == current_line, breakpoint: bp });
        if lineno == last {
            break;
        }
        lineno = lineno + 1;
    }
    if 1 <= current_line && current_line <= num_lines {
        assert(rows@[current_line - first].current);
        proof {
            listing_shows_five_lines_each_side(current_line, num_lines);
        }
    }
    rows
}

/// `break <line>` toggles the breakpoint nearest that line whatever the
/// program's state (before `run`, stopped, or exited); without a line number
/// it only shows the usage, again in every state.
pub proof fn break_ignores_execution_state(
    exited: bool,
    stopped: bool,
    other_exited: bool,
    other_stopped: bool,
    line: Option<u32>,
)
    ensures
        repl_action(exited, stopped, CommandView::Break(line)) == repl_action(
            other_exited,
            other_stopped,
            CommandView::Break(line),
        ),
        line matches Some(l) ==> repl_action(exited, stopped, CommandView::Break(line))
            == ReplAction::ToggleBreak(l),
        line is None ==> repl_action(exited, stopped, CommandView::Break(line)) == ReplAction::Say(
            ReplMessage::BreakUsage,
        ),
{
}

/// Blank lines, `help`, `list`, `quit` and unknown words mean the same in
/// every state of the program.
pub proof fn state_free_commands(exited: bool, stopped: bool, word: Seq<char>)
    ensures
        repl_action(exited, stopped, CommandView::Empty) == ReplAction::Nothing,
        repl_action(exited, stopped, CommandView::Help) == ReplAction::ShowHelp,
        repl_action(exited, stopped, CommandView::List) == ReplAction::ListSource,
        repl_action(exited, stopped, CommandView::Quit) == ReplAction::Quit,
        repl_action(exited, stopped, CommandView::Unknown(word)) == ReplAction::Say(
            ReplMessage::UnknownCommand,
        ),
{
}

/// While stopped in a running program, `continue` and `step` resume it,
/// `print <var>` and `locals` inspect it, and `run` is refused.
pub proof fn stopped_program_obeys_commands(arg: Seq<char>)
    ensures
        repl_action(false, true, CommandView::Continue) == ReplAction::Continue,
        repl_action(false, true, CommandView::Step) == ReplAction::Step,
        repl_action(false, true, CommandView::Locals) == ReplAction::ShowLocals,
        arg.len() > 0 ==> repl_action(false, true, CommandView::Print(arg))
            == ReplAction::ShowVariable,
        arg.len() == 0 ==> repl_action(false, true, CommandView::Print(arg)) == ReplAction::Say(
            ReplMessage::PrintUsage,
        ),
        repl_action(false, true, CommandView::Run) == ReplAction::Say(
            ReplMessage::AlreadyRunning,
        ),
{
}

/// Before `run`, `continue` asks for `run` first and nothing can be
/// inspected; after the exit, nothing resumes and `run` asks for a restart.
pub proof fn commands_outside_a_stop(arg: Seq<char>, stopped: bool)
    ensures
        repl_action(false, false, CommandView::Continue) == ReplAction::Say(ReplMessage::RunFirst),
        repl_action(false, false, CommandView::Print(arg)) == ReplAction::Say(
            ReplMessage::NotStarted,
        ),
        repl_action(false, false, CommandView::Locals) == ReplAction::Say(
            ReplMessage::NotStarted,
        ),
        repl_action(true, stopped, CommandView::Run) == ReplAction::Say(
            ReplMessage::ExitedRestartToRun,
        ),
        repl_action(true, stopped, CommandView::Continue) == ReplAction::Say(
            ReplMessage::AlreadyExited,
        ),
        repl_action(true, stopped, CommandView::Step) == ReplAction::Say(
            ReplMessage::AlreadyExited,
        ),
{
}

/// A listing around a line of the file shows that line, up to five lines
/// before it (all there are, when fewer), and up to five after it.
pub proof fn listing_shows_five_lines_each_side(current: usize, n: usize)
    requires
        1 <= current <= n,
    ensures
        current - listing_first(current) == (if current - 1 < 5 {
            current - 1
        } else {
            5
        }),
        listing_last(current, n) - current == (if n - current < 5 {
            n - current
        } else {
            5
        }),
        listing_first(current) >= 1,
        listing_last(current, n) <= n,
{
}

/// Once the program has exited, no command resumes it.
pub proof fn exited_program_is_never_resumed(stopped: bool, cmd: CommandView)
    ensures
        !(repl_action(true, stopped, cmd) is Start || repl_action(true, stopped, cmd) is Continue
            || repl_action(true, stopped, cmd) is Step),
{
}

/// `run` resumes only a program that has neither exited nor been started;
/// `step` before the start behaves as `run` without the announcement.
pub proof fn run_starts_only_fresh_program(exited: bool, stopped: bool)
    ensures
        repl_action(exited, stopped, CommandView::Run) is Start <==> (!exited && !stopped),
        !exited && !stopped ==> repl_action(exited, stopped, CommandView::Step)
            == ReplAction::Continue,
{
}

} // verus!
