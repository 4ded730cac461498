use dpl_debugger::debugger::{DebugEvent, Debugger, StopStatus};
use dpl_debugger::elf_map::LabelTable;
use dpl_debugger::resume::{Resume, ResumePhase, ResumeStep};
use dpl_debugger::source_map::{SourceMap, StmtEntry};

fn stmt(label: &str, line: u32) -> StmtEntry {
    StmtEntry { label: label.to_string(), line }
}

/// Statements on lines 3, 5, 7, 9; dpl_stmt_2 has no address. The launch
/// breakpoint at 0x1000 is patched in (saved byte 0x55).
fn launched() -> Debugger {
    let source_map = SourceMap {
        statements: vec![stmt("dpl_stmt_0", 3), stmt("dpl_stmt_1", 5), stmt("dpl_stmt_2", 7), stmt("dpl_stmt_3", 9)],
        variables: Vec::new(),
    };
    let labels = LabelTable {
        entries: vec![
            ("dpl_stmt_0".to_string(), 0x1000),
            ("dpl_stmt_1".to_string(), 0x1010),
            ("dpl_stmt_3".to_string(), 0x1030),
        ],
    };
    let mut d = Debugger::new(42, source_map, &labels);
    let a = d.initial_breakpoint().unwrap();
    d.record_breakpoint(a, 0x55);
    d
}

fn active(d: &Debugger) -> Vec<u64> {
    let mut v: Vec<u64> = d.active_breakpoints.keys().copied().collect();
    v.sort();
    v
}

/// Runs to the first statement, as the first `run` does.
fn run_to_first(d: &mut Debugger) {
    let (mut r, step) = Resume::start(d, false);
    assert_eq!(step, ResumeStep::Continue(None));
    assert_eq!(r.stopped(d, StopStatus::Trapped { rip: 0x1001 }), ResumeStep::Restore { addr: 0x1000, saved: 0x55 });
    assert_eq!(r.restored(d), ResumeStep::SetPc(0x1000));
    assert_eq!(r.pc_set(d), ResumeStep::Finish(DebugEvent::HitBreakpoint { stmt_idx: 0, line: 3 }));
    assert_eq!(r.phase, ResumePhase::Done);
}

#[test]
fn continue_to_first_statement() {
    let mut d = launched();
    run_to_first(&mut d);
    assert_eq!(d.current_stmt, Some(0));
    assert_eq!(d.auto_breakpoint, None);
    assert!(active(&d).is_empty());
}

#[test]
fn spurious_trap_and_signal_continue() {
    let mut d = launched();
    let (mut r, step) = Resume::start(&mut d, false);
    assert_eq!(step, ResumeStep::Continue(None));
    assert_eq!(r.stopped(&mut d, StopStatus::Trapped { rip: 0x2000 }), ResumeStep::Continue(None));
    // a trap at a statement address without a patch of ours is not a stop
    assert_eq!(r.stopped(&mut d, StopStatus::Trapped { rip: 0x1011 }), ResumeStep::Continue(None));
    assert_eq!(r.stopped(&mut d, StopStatus::Stopped(10)), ResumeStep::Continue(Some(10)));
    assert_eq!(r.stopped(&mut d, StopStatus::Other), ResumeStep::Continue(None));
    assert_eq!(r.stopped(&mut d, StopStatus::Exited(7)), ResumeStep::Finish(DebugEvent::Exited { status: 7 }));
    assert!(d.exited);
    assert_eq!(d.current_stmt, None);
}

#[test]
fn step_from_user_breakpoint_plants_and_cleans() {
    let mut d = launched();
    let t = d.toggle_breakpoint(3).unwrap(); // user breakpoint on statement 0
    assert_eq!(t.patch, dpl_debugger::debugger::PatchAction::Keep);
    run_to_first(&mut d);
    let (mut r, step) = Resume::start(&mut d, true);
    assert_eq!(step, ResumeStep::SingleStep);
    assert_eq!(d.current_stmt, Some(0));
    let step = r.single_stepped(&mut d, StopStatus::Other);
    assert_eq!(step, ResumeStep::Patch(0x1000));
    assert_eq!(d.current_stmt, None);
    assert_eq!(r.patched(&mut d, 0x1000, 0x11), ResumeStep::Patch(0x1010));
    assert_eq!(r.patched(&mut d, 0x1010, 0x22), ResumeStep::Patch(0x1030));
    assert_eq!(r.patched(&mut d, 0x1030, 0x33), ResumeStep::Continue(None));
    assert_eq!(active(&d), vec![0x1000, 0x1010, 0x1030]);
    assert_eq!(r.stopped(&mut d, StopStatus::Trapped { rip: 0x1011 }), ResumeStep::Restore { addr: 0x1010, saved: 0x22 });
    assert_eq!(r.restored(&mut d), ResumeStep::SetPc(0x1010));
    assert_eq!(r.pc_set(&mut d), ResumeStep::Restore { addr: 0x1030, saved: 0x33 });
    assert_eq!(r.restored(&mut d), ResumeStep::Finish(DebugEvent::HitBreakpoint { stmt_idx: 1, line: 5 }));
    // only the user breakpoint stays patched in
    assert_eq!(active(&d), vec![0x1000]);
    assert_eq!(d.current_stmt, Some(1));
}

#[test]
fn step_can_stop_at_the_statement_it_left() {
    let mut d = launched();
    run_to_first(&mut d);
    let (mut r, step) = Resume::start(&mut d, true);
    assert_eq!(step, ResumeStep::SingleStep);
    // statement 0 has no breakpoint: nothing is put back, and it is planted
    // as a one-shot breakpoint with the others
    assert_eq!(r.single_stepped(&mut d, StopStatus::Other), ResumeStep::Patch(0x1000));
    assert_eq!(r.phase, ResumePhase::Planting);
    assert_eq!(r.patched(&mut d, 0x1000, 0x55), ResumeStep::Patch(0x1010));
    assert_eq!(r.patched(&mut d, 0x1010, 0x22), ResumeStep::Patch(0x1030));
    assert_eq!(r.patched(&mut d, 0x1030, 0x33), ResumeStep::Continue(None));
    // the loop comes back to statement 0
    assert_eq!(r.stopped(&mut d, StopStatus::Trapped { rip: 0x1001 }), ResumeStep::Restore { addr: 0x1000, saved: 0x55 });
    assert_eq!(r.restored(&mut d), ResumeStep::SetPc(0x1000));
    assert_eq!(r.pc_set(&mut d), ResumeStep::Restore { addr: 0x1010, saved: 0x22 });
    assert_eq!(r.restored(&mut d), ResumeStep::Restore { addr: 0x1030, saved: 0x33 });
    assert_eq!(r.restored(&mut d), ResumeStep::Finish(DebugEvent::HitBreakpoint { stmt_idx: 0, line: 3 }));
    assert!(active(&d).is_empty());
    assert_eq!(d.current_stmt, Some(0));
}

#[test]
fn continue_from_plain_statement_does_not_single_step() {
    let mut d = launched();
    run_to_first(&mut d);
    let (mut r, step) = Resume::start(&mut d, false);
    assert_eq!(step, ResumeStep::Continue(None));
    assert_eq!(d.current_stmt, None);
    assert_eq!(r.stopped(&mut d, StopStatus::Exited(0)), ResumeStep::Finish(DebugEvent::Exited { status: 0 }));
}

#[test]
fn exit_during_step_over_clears_position() {
    let mut d = launched();
    d.toggle_breakpoint(3).unwrap();
    run_to_first(&mut d);
    let (mut r, step) = Resume::start(&mut d, false);
    assert_eq!(step, ResumeStep::SingleStep);
    let step = r.single_stepped(&mut d, StopStatus::Exited(0));
    assert_eq!(step, ResumeStep::Finish(DebugEvent::Exited { status: 0 }));
    assert_eq!(d.current_stmt, None);
    assert!(d.exited);
}

#[test]
fn step_ending_in_exit_forgets_one_shot_breakpoints() {
    let mut d = launched();
    run_to_first(&mut d);
    let (mut r, step) = Resume::start(&mut d, true);
    assert_eq!(step, ResumeStep::SingleStep);
    assert_eq!(r.single_stepped(&mut d, StopStatus::Other), ResumeStep::Patch(0x1000));
    assert_eq!(r.patched(&mut d, 0x1000, 1), ResumeStep::Patch(0x1010));
    assert_eq!(r.patched(&mut d, 0x1010, 2), ResumeStep::Patch(0x1030));
    assert_eq!(r.patched(&mut d, 0x1030, 3), ResumeStep::Continue(None));
    // the process is gone: no restore is asked for
    let step = r.stopped(&mut d, StopStatus::Signaled(11));
    assert_eq!(step, ResumeStep::Finish(DebugEvent::Signaled { signal: 11 }));
    assert!(active(&d).is_empty());
    assert!(d.exited);
}

#[test]
fn step_takes_over_pending_launch_breakpoint() {
    let mut d = launched();
    let t = d.toggle_breakpoint(5).unwrap(); // user breakpoint on statement 1
    assert_eq!(t.patch, dpl_debugger::debugger::PatchAction::Insert(0x1010));
    d.record_breakpoint(0x1010, 0x22);
    // the user breakpoint is reached before the first statement
    let (mut r, step) = Resume::start(&mut d, false);
    assert_eq!(step, ResumeStep::Continue(None));
    assert_eq!(r.stopped(&mut d, StopStatus::Trapped { rip: 0x1011 }), ResumeStep::Restore { addr: 0x1010, saved: 0x22 });
    assert_eq!(r.restored(&mut d), ResumeStep::SetPc(0x1010));
    assert_eq!(r.pc_set(&mut d), ResumeStep::Finish(DebugEvent::HitBreakpoint { stmt_idx: 1, line: 5 }));
    assert_eq!(d.auto_breakpoint, Some(0x1000));
    assert_eq!(active(&d), vec![0x1000]);
    // the step treats the launch breakpoint as one of its one-shot ones
    let (mut r, step) = Resume::start(&mut d, true);
    assert_eq!(step, ResumeStep::SingleStep);
    assert_eq!(r.single_stepped(&mut d, StopStatus::Other), ResumeStep::Patch(0x1010));
    assert_eq!(r.patched(&mut d, 0x1010, 0x22), ResumeStep::Patch(0x1030));
    assert_eq!(d.auto_breakpoint, None);
    assert_eq!(r.patched(&mut d, 0x1030, 0x33), ResumeStep::Continue(None));
    assert_eq!(active(&d), vec![0x1000, 0x1010, 0x1030]);
    assert_eq!(r.stopped(&mut d, StopStatus::Trapped { rip: 0x1031 }), ResumeStep::Restore { addr: 0x1030, saved: 0x33 });
    assert_eq!(r.restored(&mut d), ResumeStep::SetPc(0x1030));
    assert_eq!(r.pc_set(&mut d), ResumeStep::Restore { addr: 0x1000, saved: 0x55 });
    assert_eq!(r.restored(&mut d), ResumeStep::Finish(DebugEvent::HitBreakpoint { stmt_idx: 3, line: 9 }));
    // INT3 stays only at the user breakpoint
    assert_eq!(active(&d), vec![0x1010]);
    assert_eq!(d.auto_breakpoint, None);
    assert_eq!(d.current_stmt, Some(3));
    assert!(d.is_at_rest());
}

#[test]
fn continue_keeps_pending_launch_breakpoint() {
    let mut d = launched();
    d.toggle_breakpoint(9).unwrap(); // user breakpoint on statement 3
    d.record_breakpoint(0x1030, 0x33);
    let (mut r, _) = Resume::start(&mut d, false);
    assert_eq!(r.stopped(&mut d, StopStatus::Trapped { rip: 0x1031 }), ResumeStep::Restore { addr: 0x1030, saved: 0x33 });
    assert_eq!(r.restored(&mut d), ResumeStep::SetPc(0x1030));
    assert_eq!(r.pc_set(&mut d), ResumeStep::Finish(DebugEvent::HitBreakpoint { stmt_idx: 3, line: 9 }));
    assert_eq!(d.auto_breakpoint, Some(0x1000));
    assert_eq!(active(&d), vec![0x1000]);
    assert!(d.is_at_rest());
}

#[test]
fn exit_while_stepping_forgets_one_shot_patches() {
    let mut d = launched();
    run_to_first(&mut d);
    let (mut r, _) = Resume::start(&mut d, true);
    assert_eq!(r.single_stepped(&mut d, StopStatus::Other), ResumeStep::Patch(0x1000));
    assert_eq!(r.patched(&mut d, 0x1000, 0x55), ResumeStep::Patch(0x1010));
    assert_eq!(r.patched(&mut d, 0x1010, 0x22), ResumeStep::Patch(0x1030));
    assert_eq!(r.patched(&mut d, 0x1030, 0x33), ResumeStep::Continue(None));
    assert_eq!(r.stopped(&mut d, StopStatus::Exited(3)), ResumeStep::Finish(DebugEvent::Exited { status: 3 }));
    assert!(active(&d).is_empty());
    assert!(d.exited);
}
