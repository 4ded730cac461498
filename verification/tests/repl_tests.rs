use dpl_debugger::cli::{parse_args, CliAction};
use dpl_debugger::compiler::artifact_names;
use dpl_debugger::debugger::{DebugEvent, Debugger};
use dpl_debugger::elf_map::LabelTable;
use dpl_debugger::repl::{
    list_line, parse_command, source_listing, Command, EventReport, Prompt, ReplAction,
    ReplMessage, ReplState,
};
use dpl_debugger::source_map::{SourceMap, StmtEntry};
use dpl_debugger::text::{parse_u32, str_trim, strip_line_ending};

fn dbg() -> Debugger {
    let source_map = SourceMap {
        statements: vec![
            StmtEntry { label: "dpl_stmt_0".to_string(), line: 6 },
            StmtEntry { label: "dpl_stmt_1".to_string(), line: 9 },
        ],
        variables: Vec::new(),
    };
    let labels = LabelTable { entries: vec![("dpl_stmt_0".to_string(), 0x10), ("dpl_stmt_1".to_string(), 0x20)] };
    Debugger::new(7, source_map, &labels)
}

#[test]
fn parse_command_aliases() {
    assert!(matches!(parse_command("h"), Command::Help));
    assert!(matches!(parse_command("help"), Command::Help));
    assert!(matches!(parse_command("r"), Command::Run));
    assert!(matches!(parse_command("run"), Command::Run));
    assert!(matches!(parse_command("c"), Command::Continue));
    assert!(matches!(parse_command("continue"), Command::Continue));
    assert!(matches!(parse_command("s"), Command::Step));
    assert!(matches!(parse_command("step"), Command::Step));
    assert!(matches!(parse_command("locals"), Command::Locals));
    assert!(matches!(parse_command("list"), Command::List));
    assert!(matches!(parse_command("q"), Command::Quit));
    assert!(matches!(parse_command("quit"), Command::Quit));
    assert!(matches!(parse_command("exit"), Command::Quit));
}

#[test]
fn parse_command_blank_and_unknown() {
    assert!(matches!(parse_command(""), Command::Empty));
    assert!(matches!(parse_command("   \t "), Command::Empty));
    match parse_command("  frobnicate now ") {
        Command::Unknown(w) => assert_eq!(w, "frobnicate"),
        other => panic!("unexpected {other:?}"),
    }
    match parse_command("RUN") {
        Command::Unknown(w) => assert_eq!(w, "RUN"),
        other => panic!("unexpected {other:?}"),
    }
}

#[test]
fn parse_command_break_argument() {
    assert!(matches!(parse_command("b 9"), Command::Break(Some(9))));
    assert!(matches!(parse_command("  break   12  "), Command::Break(Some(12))));
    assert!(matches!(parse_command("b +7"), Command::Break(Some(7))));
    assert!(matches!(parse_command("b"), Command::Break(None)));
    assert!(matches!(parse_command("b x"), Command::Break(None)));
    assert!(matches!(parse_command("b 1 2"), Command::Break(None)));
    assert!(matches!(parse_command("b -1"), Command::Break(None)));
    assert!(matches!(parse_command("b 4294967296"), Command::Break(None)));
    assert!(matches!(parse_command("b 4294967295"), Command::Break(Some(4294967295))));
}

#[test]
fn parse_command_print_argument() {
    match parse_command("p a") {
        Command::Print(a) => assert_eq!(a, "a"),
        other => panic!("unexpected {other:?}"),
    }
    match parse_command("print   x` ") {
        Command::Print(a) => assert_eq!(a, "x`"),
        other => panic!("unexpected {other:?}"),
    }
    match parse_command("p") {
        Command::Print(a) => assert_eq!(a, ""),
        other => panic!("unexpected {other:?}"),
    }
    // only the first space splits: a tab stays in the word
    match parse_command("p\tx") {
        Command::Unknown(w) => assert_eq!(w, "p\tx"),
        other => panic!("unexpected {other:?}"),
    }
}

#[test]
fn parse_u32_cases() {
    assert_eq!(parse_u32("0"), Some(0));
    assert_eq!(parse_u32("007"), Some(7));
    assert_eq!(parse_u32("+12"), Some(12));
    assert_eq!(parse_u32("+"), None);
    assert_eq!(parse_u32(""), None);
    assert_eq!(parse_u32(" 1"), None);
    assert_eq!(parse_u32("12a"), None);
    assert_eq!(parse_u32("99999999999x"), None);
    assert_eq!(parse_u32("4294967295"), Some(u32::MAX));
    assert_eq!(parse_u32("4294967296"), None);
    for s in ["1", "42", "+0", "0009", "123456789", "abc", "-3", "++1"] {
        assert_eq!(parse_u32(s), s.parse::<u32>().ok());
    }
}

#[test]
fn trim_and_line_endings() {
    assert_eq!(str_trim("  a b \t\n"), "a b");
    assert_eq!(str_trim("\u{3000}x\u{a0}"), "x");
    assert_eq!(str_trim("   "), "");
    assert_eq!(strip_line_ending("abc\n"), "abc");
    assert_eq!(strip_line_ending("abc\r\n"), "abc");
    assert_eq!(strip_line_ending("abc\n\n\r\r"), "abc\n\n");
    assert_eq!(strip_line_ending("abc\n\r\n"), "abc\n");
    assert_eq!(strip_line_ending(""), "");
}

#[test]
fn decide_before_start() {
    let st = ReplState::new();
    assert_eq!(st.decide(&parse_command("r"), false), ReplAction::Start);
    assert_eq!(st.decide(&parse_command("c"), false), ReplAction::Say(ReplMessage::RunFirst));
    assert_eq!(st.decide(&parse_command("s"), false), ReplAction::Continue);
    assert_eq!(st.decide(&parse_command("p a"), false), ReplAction::Say(ReplMessage::NotStarted));
    assert_eq!(st.decide(&parse_command("locals"), false), ReplAction::Say(ReplMessage::NotStarted));
    assert_eq!(st.decide(&parse_command("b 3"), false), ReplAction::ToggleBreak(3));
    assert_eq!(st.decide(&parse_command("b"), false), ReplAction::Say(ReplMessage::BreakUsage));
    assert_eq!(st.decide(&parse_command("list"), false), ReplAction::ListSource);
    assert_eq!(st.decide(&parse_command("help"), false), ReplAction::ShowHelp);
    assert_eq!(st.decide(&parse_command(""), false), ReplAction::Nothing);
    assert_eq!(st.decide(&parse_command("zz"), false), ReplAction::Say(ReplMessage::UnknownCommand));
    assert_eq!(st.decide(&parse_command("quit"), false), ReplAction::Quit);
}

#[test]
fn decide_while_stopped() {
    let st = ReplState::new();
    assert_eq!(st.decide(&parse_command("run"), true), ReplAction::Say(ReplMessage::AlreadyRunning));
    assert_eq!(st.decide(&parse_command("continue"), true), ReplAction::Continue);
    assert_eq!(st.decide(&parse_command("step"), true), ReplAction::Step);
    assert_eq!(st.decide(&parse_command("print a"), true), ReplAction::ShowVariable);
    assert_eq!(st.decide(&parse_command("print"), true), ReplAction::Say(ReplMessage::PrintUsage));
    assert_eq!(st.decide(&parse_command("locals"), true), ReplAction::ShowLocals);
}

#[test]
fn decide_after_exit() {
    let st = ReplState { program_exited: true };
    assert_eq!(st.decide(&parse_command("r"), false), ReplAction::Say(ReplMessage::ExitedRestartToRun));
    assert_eq!(st.decide(&parse_command("c"), false), ReplAction::Say(ReplMessage::AlreadyExited));
    assert_eq!(st.decide(&parse_command("s"), false), ReplAction::Say(ReplMessage::AlreadyExited));
    assert_eq!(st.decide(&parse_command("p a"), false), ReplAction::ShowVariable);
    assert_eq!(st.decide(&parse_command("locals"), false), ReplAction::ShowLocals);
}

#[test]
fn handle_event_reports() {
    let mut d = dbg();
    let mut st = ReplState::new();
    assert_eq!(st.handle_event(DebugEvent::HitBreakpoint { stmt_idx: 0, line: 6 }, &d), EventReport::StoppedAt { line: 6 });
    d.toggle_breakpoint(9).unwrap();
    assert_eq!(st.handle_event(DebugEvent::HitBreakpoint { stmt_idx: 1, line: 9 }, &d), EventReport::BreakpointHit { line: 9 });
    assert!(!st.program_exited);
    assert_eq!(st.handle_event(DebugEvent::Exited { status: 0 }, &d), EventReport::Exited { status: 0 });
    assert!(st.program_exited);
    let mut st2 = ReplState::new();
    assert_eq!(st2.handle_event(DebugEvent::Signaled { signal: 11 }, &d), EventReport::Killed { signal: 11 });
    assert!(st2.program_exited);
}

#[test]
fn prompt_states() {
    let mut d = dbg();
    let st = ReplState::new();
    assert_eq!(st.prompt(&d), Prompt::Idle);
    assert_eq!(ReplState { program_exited: true }.prompt(&d), Prompt::Exited);
    d.stop_at(1);
    assert_eq!(st.prompt(&d), Prompt::AtLine(9));
    assert_eq!(list_line(&d), 9);
}

#[test]
fn source_listing_window() {
    let mut d = dbg();
    d.toggle_breakpoint(9).unwrap();
    let rows = source_listing(20, 9, &d);
    let nums: Vec<usize> = rows.iter().map(|r| r.lineno).collect();
    assert_eq!(nums, vec![4, 5, 6, 7, 8, 9, 10, 11, 12, 13, 14]);
    let cur: Vec<usize> = rows.iter().filter(|r| r.current).map(|r| r.lineno).collect();
    assert_eq!(cur, vec![9]);
    let bps: Vec<usize> = rows.iter().filter(|r| r.breakpoint).map(|r| r.lineno).collect();
    assert_eq!(bps, vec![9]);
}

#[test]
fn source_listing_edges() {
    let d = dbg();
    assert_eq!(list_line(&d), 1);
    let rows = source_listing(3, 1, &d);
    let nums: Vec<usize> = rows.iter().map(|r| r.lineno).collect();
    assert_eq!(nums, vec![1, 2, 3]);
    assert!(rows[0].current);
    let rows = source_listing(12, 12, &d);
    let nums: Vec<usize> = rows.iter().map(|r| r.lineno).collect();
    assert_eq!(nums, vec![7, 8, 9, 10, 11, 12]);
    let rows = source_listing(20, 6, &d);
    assert_eq!(rows[0].lineno, 1);
    assert_eq!(rows.len(), 11);
    assert!(source_listing(0, 1, &d).is_empty());
    // a current line past the end of the file shows what is within reach
    let rows = source_listing(10, 14, &d);
    let nums: Vec<usize> = rows.iter().map(|r| r.lineno).collect();
    assert_eq!(nums, vec![9, 10]);
    assert!(source_listing(10, 30, &d).is_empty());
}

fn args(v: &[&str]) -> Vec<String> {
    v.iter().map(|s| s.to_string()).collect()
}

#[test]
fn parse_args_cases() {
    match parse_args(&args(&["dbg", "prog.dpl"])) {
        CliAction::Run { source, compiler } => {
            assert_eq!(source, "prog.dpl");
            assert_eq!(compiler, "glp_zcompiler");
        }
        other => panic!("unexpected {other:?}"),
    }
    match parse_args(&args(&["dbg", "--compiler", "/bin/dplc", "prog.dpl"])) {
        CliAction::Run { source, compiler } => {
            assert_eq!(source, "prog.dpl");
            assert_eq!(compiler, "/bin/dplc");
        }
        other => panic!("unexpected {other:?}"),
    }
    match parse_args(&args(&["dbg", "prog.dpl", "--compiler", "c1", "--compiler", "c2"])) {
        CliAction::Run { compiler, .. } => assert_eq!(compiler, "c2"),
        other => panic!("unexpected {other:?}"),
    }
    assert!(matches!(parse_args(&args(&["dbg", "--help", "x"])), CliAction::Help));
    assert!(matches!(parse_args(&args(&["dbg", "a.dpl", "-h"])), CliAction::Help));
    assert!(matches!(parse_args(&args(&["dbg", "--compiler"])), CliAction::MissingCompilerValue));
    assert!(matches!(parse_args(&args(&["dbg"])), CliAction::MissingSource));
    assert!(matches!(parse_args(&args(&[])), CliAction::MissingSource));
    match parse_args(&args(&["dbg", "a.dpl", "b.dpl"])) {
        CliAction::UnexpectedArgument(a) => assert_eq!(a, "b.dpl"),
        other => panic!("unexpected {other:?}"),
    }
}

#[test]
fn artifact_names_from_stem() {
    let out = artifact_names("09_fibonacci");
    assert_eq!(out.asm_path, "09_fibonacci.s");
    assert_eq!(out.binary_path, "09_fibonacci");
    assert_eq!(out.map_path, "09_fibonacci.map");
}
