//! Resuming the traced program: the sequence of memory patches, single
//! steps, continues and stops that a `continue` or a `step` consists of.
//! The caller performs each requested step on the process and reports back;
//! the debugger state is updated here.
//!
//! A step first single-steps off the statement it stands on and then plants
//! one-shot breakpoints at every statement address that carries no patch,
//! the one just left included, so a statement that runs again next (a
//! loop) is stopped at. A step also takes over a launch breakpoint still
//! pending as one of its one-shot breakpoints, so that after a step INT3 is
//! left only at user breakpoints. A continue single-steps only where a
//! breakpoint must be put back. A resume starts at rest and ends at rest.

use vstd::prelude::*;

use crate::debugger::{
    is_stmt_addr, program_end, single_step_outcome, stop_action, strictly_increasing,
    DebugEvent, Debugger, StopStatus, WaitAction,
};

verus! {

/// What the caller does next on the traced process.
#[derive(Debug, Clone, Copy, PartialEq, Eq, Structural)]
pub enum ResumeStep {
    /// Single-step one instruction, wait, and report the stop with
    /// `single_stepped`.
    SingleStep,
    /// Read the word at this address, write it back patched with INT3
    /// (`patch_word`), and report the saved byte with `patched`.
    Patch(u64),
    /// Read the word at `addr`, write it back with `saved` restored
    /// (`restore_word`), and report with `restored`.
    Restore { addr: u64, saved: u8 },
    /// Continue the process delivering this signal, wait, and report the
    /// stop with `stopped`.
    Continue(Option<i32>),
    /// Set the instruction pointer to this address, and report with
    /// `pc_set`.
    SetPc(u64),
    /// The resume is over: report this event.
    Finish(DebugEvent),
}

/// Where a resume stands.
#[derive(Debug, Clone, Copy, PartialEq, Eq, Structural)]
pub enum ResumePhase {
    /// Single-stepping off the statement at this address.
    SteppingOver(u64),
    /// Putting the breakpoint at this address back.
    Reinstalling(u64),
    /// Planting one-shot breakpoints.
    Planting,
    /// The process runs; waiting for a stop.
    Running,
    /// Restoring the instruction at `addr` where statement `stmt_idx` stopped.
    Rewinding { stmt_idx: usize, addr: u64 },
    /// Setting the instruction pointer back on statement `stmt_idx`.
    SettingPc { stmt_idx: usize },
    /// Removing the one-shot breakpoints that are left.
    Cleaning,
    /// Finished.
    Done,
}

/// A `continue` (or, with `is_step`, a `step`) in progress.
pub struct Resume {
    pub is_step: bool,
    /// The statement execution stopped at when the resume began.
    pub from: Option<usize>,
    /// The one-shot breakpoint addresses of a step, in increasing order.
    pub temps: Vec<u64>,
    /// How many of `temps` have been planted (while planting) or looked at
    /// (while cleaning).
    pub cursor: usize,
    pub phase: ResumePhase,
    /// The event to finish with, once known.
    pub outcome: Option<DebugEvent>,
    /// The patches in place when planting began.
    pub base: Ghost<Set<u64>>,
    /// The launch breakpoint when planting began.
    pub plan_auto: Ghost<Option<u64>>,
    /// Whether planting has begun.
    pub planned: Ghost<bool>,
    /// The pending launch breakpoint that a step takes over as one of its
    /// one-shot breakpoints (its INT3 is already in place).
    pub adopted: Ghost<Option<u64>>,
}

/// Some element of `s` before position `k` is `x`.
pub open spec fn prefix_has(s: Seq<u64>, k: int, x: u64) -> bool {
    exists|j: int| 0 <= j < k && #[trigger] s[j] == x
}

impl Resume {
    /// `a` was patched when the process was continued.
    pub open spec fn armed(&self, a: u64) -> bool {
        self.base@.contains(a) || self.temps@.contains(a)
    }

    /// The address `a` was claimed by a breakpoint when planting began.
    pub open spec fn claimed_at_plan(&self, d: &Debugger, a: u64) -> bool {
        d.user_addr(a) || self.plan_auto@ == Some(a)
    }

    /// The resume's invariant against the debugger state `d`.
    pub open spec fn wf(&self, d: &Debugger) -> bool {
        &&& d.wf()
        &&& self.cursor <= self.temps@.len()
        &&& strictly_increasing(self.temps@)
        &&& self.planned@ ==> forall|a: u64|
            #[trigger] self.temps@.contains(a) <==> (self.is_step && is_stmt_addr(
                d.stmt_addresses@,
                a,
            ) && !self.base@.contains(a))
        &&& self.planned@ ==> forall|a: u64|
            #[trigger] self.base@.contains(a) <==> self.claimed_at_plan(d, a)
        &&& !self.planned@ ==> self.temps@.len() == 0 && self.adopted@ is None
        &&& self.planned@ ==> (self.adopted@ matches Some(a) ==> self.temps@.contains(a))
        &&& self.planned@ && self.is_step ==> self.plan_auto@ is None
        &&& match self.phase {
            ResumePhase::SteppingOver(c) => {
                &&& !self.planned@
                &&& !d.exited
                &&& d.current_addr() == Some(c)
                &&& d.at_rest()
            },
            ResumePhase::Reinstalling(c) => {
                &&& !self.planned@
                &&& !d.exited
                &&& d.current_stmt is None
                &&& !d.patches().contains_key(c)
                &&& d.pending_insert(c)
            },
            ResumePhase::Planting => {
                &&& self.planned@
                &&& !d.exited
                &&& d.current_stmt is None
                &&& d.auto_breakpoint == self.plan_auto@
                &&& forall|x: u64|
                    #[trigger] d.patches().contains_key(x) <==> (self.base@.contains(x)
                        || prefix_has(self.temps@, self.cursor as int, x) || self.adopted@ == Some(
                        x,
                    ))
            },
            ResumePhase::Running => {
                &&& self.planned@
                &&& !d.exited
                &&& d.current_stmt is None
                &&& d.auto_breakpoint == self.plan_auto@
                &&& forall|x: u64| #[trigger] d.patches().contains_key(x) <==> self.armed(x)
            },
            ResumePhase::Rewinding { stmt_idx, addr } => {
                &&& self.planned@
                &&& !d.exited
                &&& d.current_stmt is None
                &&& d.auto_breakpoint == self.plan_auto@
                &&& stmt_idx < d.num_stmts()
                &&& d.stmt_addresses@[stmt_idx as int] == addr
                &&& addr != 0
                &&& self.armed(addr)
                &&& forall|x: u64|
                    #[trigger] d.patches().contains_key(x) <==> (self.armed(x) && x != addr)
            },
            ResumePhase::SettingPc { stmt_idx } => {
                &&& self.planned@
                &&& !d.exited
                &&& d.current_stmt is None
                &&& d.auto_breakpoint == self.plan_auto@
                &&& stmt_idx < d.num_stmts()
                &&& d.stmt_addresses@[stmt_idx as int] != 0
                &&& self.armed(d.stmt_addresses@[stmt_idx as int])
                &&& forall|x: u64|
                    #[trigger] d.patches().contains_key(x) <==> (self.armed(x) && x
                        != d.stmt_addresses@[stmt_idx as int])
            },
            ResumePhase::Cleaning => self.hit_state(d) && forall|x: u64|
                #[trigger] d.patches().contains_key(x) <==> ((self.base@.contains(x) || (
                self.temps@.contains(x) && !prefix_has(self.temps@, self.cursor as int, x)))
                && Some(x) != d.current_addr()),
            ResumePhase::Done => {
                ||| (d.exited && d.current_stmt is None && self.outcome is Some && !(
                self.outcome.unwrap() is HitBreakpoint) && self.no_temps_left(d))
                ||| (self.hit_state(d) && self.cursor == self.temps@.len() && forall|x: u64|
                    #[trigger] d.patches().contains_key(x) <==> (self.base@.contains(x) && Some(
                        x,
                    ) != d.current_addr()))
            },
        }
    }

    /// Stopped at a statement that one of the armed patches caught.
    pub open spec fn hit_state(&self, d: &Debugger) -> bool {
        &&& self.planned@
        &&& !d.exited
        &&& d.current_stmt is Some
        &&& self.armed(d.current_addr().unwrap())
        &&& d.auto_breakpoint == (if self.plan_auto@ == d.current_addr() {
            None
        } else {
            self.plan_auto@
        })
        &&& self.outcome == Some(
            (DebugEvent::HitBreakpoint {
                stmt_idx: d.current_stmt.unwrap(),
                line: d.source_map.statements@[d.current_stmt.unwrap() as int].line,
            }),
        )
    }

    /// No one-shot breakpoint is patched in.
    pub open spec fn no_temps_left(&self, d: &Debugger) -> bool {
        forall|j: int|
            0 <= j < self.temps@.len() ==> !d.patches().contains_key(#[trigger] self.temps@[j])
    }

    /// What each kind of step promises about the state it leaves.
    pub open spec fn step_ok(&self, d: &Debugger, r: ResumeStep) -> bool {
        &&& r matches ResumeStep::Patch(a) ==> !d.patches().contains_key(a) && ((self.phase is Planting
            && self.cursor < self.temps@.len() && a == self.temps@[self.cursor as int])
            || self.phase == ResumePhase::Reinstalling(a))
        &&& r is SingleStep ==> self.phase is SteppingOver
        &&& r is Continue ==> self.phase is Running
        &&& r matches ResumeStep::SetPc(a) ==> (self.phase matches ResumePhase::SettingPc {
            stmt_idx,
        } && d.stmt_addresses@[stmt_idx as int] == a)
        &&& r matches ResumeStep::Restore { addr, saved } ==> ((self.phase
            matches ResumePhase::Rewinding { addr: a, .. } && a == addr) || self.phase is Cleaning)
        &&& r matches ResumeStep::Finish(ev) ==> self.finished_with(d, ev)
    }

    /// The resume is over with `ev`: a stop is at a statement one of the
    /// armed patches caught (for a continue, an address a breakpoint
    /// claimed; after a step, INT3 is left only at user breakpoints), an exit
    /// leaves the process marked as gone, no one-shot breakpoint is left, and
    /// the table is at rest again.
    pub open spec fn finished_with(&self, d: &Debugger, ev: DebugEvent) -> bool {
        &&& self.phase is Done
        &&& self.outcome == Some(ev)
        &&& self.no_temps_left(d)
        &&& d.at_rest()
        &&& match ev {
            DebugEvent::HitBreakpoint { stmt_idx, line } => {
                &&& d.current_stmt == Some(stmt_idx)
                &&& stmt_idx < d.num_stmts()
                &&& line == d.source_map.statements@[stmt_idx as int].line
                &&& self.armed(d.stmt_addresses@[stmt_idx as int])
                &&& !self.is_step ==> self.claimed_at_plan(
                    d,
                    d.stmt_addresses@[stmt_idx as int],
                )
                &&& self.is_step ==> d.auto_breakpoint is None && forall|x: u64|
                    #[trigger] d.patches().contains_key(x) <==> (d.user_addr(x) && d.current_addr()
                        != Some(x))
            },
            _ => d.exited && d.current_stmt is None,
        }
    }
}

impl Resume {
    /// Plants the next one-shot breakpoint, or moves on to continuing the
    /// process.
    fn plant_next(&mut self, dbg: &Debugger) -> (r: ResumeStep)
        requires
            old(self).wf(dbg),
            old(self).phase is Planting,
        ensures
            final(self).wf(dbg),
            final(self).step_ok(dbg, r),
            final(self).same_plan(old(self)),
            r is Patch ==> final(self).phase is Planting,
            r is Continue ==> r == ResumeStep::Continue(None),
            (r is Patch || r is Continue),
    {
        while self.cursor < self.temps.len() && dbg.has_active_breakpoint(self.temps[self.cursor])
            invariant
                self.wf(dbg),
                self.phase is Planting,
                self.same_plan(old(self)),
            decreases self.temps@.len() - self.cursor,
        {
            let ghost a = self.temps@[self.cursor as int];
            proof {
                assert(self.temps@.contains(a)) by {
                    assert(self.temps@[self.cursor as int] == a);
                }
                if prefix_has(self.temps@, self.cursor as int, a) {
                    let j = choose|j: int| 0 <= j < self.cursor && #[trigger] self.temps@[j] == a;
                    assert(self.temps@[j] < self.temps@[self.cursor as int]);
                }
            }
            self.cursor = self.cursor + 1;
            proof {
                assert forall|x: u64| #[trigger] prefix_has(self.temps@, self.cursor as int, x) <==> (
                prefix_has(self.temps@, self.cursor - 1, x) || x == a) by {
                    if prefix_has(self.temps@, self.cursor as int, x) && x != a {
                        let j = choose|j: int| 0 <= j < self.cursor && #[trigger] self.temps@[j] == x;
                        assert(prefix_has(self.temps@, self.cursor - 1, x));
                    }
                    if x == a {
                        assert(self.temps@[self.cursor - 1] == x);
                    }
                }
            }
        }
        if self.cursor < self.temps.len() {
            let a = self.temps[self.cursor];
            proof {
                assert(self.temps@.contains(a)) by {
                    assert(self.temps@[self.cursor as int] == a);
                }
                assert(!self.base@.contains(a));
            }
            ResumeStep::Patch(a)
        } else {
            self.phase = ResumePhase::Running;
            proof {
                assert forall|x: u64| #[trigger] dbg.patches().contains_key(x) <==> self.armed(x) by {
                    if self.temps@.contains(x) {
                        let j = choose|j: int| 0 <= j < self.temps@.len() && self.temps@[j] == x;
                        assert(prefix_has(self.temps@, self.cursor as int, x));
                    }
                }
            }
            ResumeStep::Continue(None)
        }
    }

    /// The parts of the resume fixed once planting has begun.
    pub open spec fn same_plan(&self, other: &Resume) -> bool {
        &&& self.is_step == other.is_step
        &&& self.from == other.from
        &&& self.temps@ == other.temps@
        &&& self.base@ == other.base@
        &&& self.plan_auto@ == other.plan_auto@
        &&& self.planned@ == other.planned@
        &&& self.adopted@ == other.adopted@
    }

    /// Starts planting from a table at rest with execution no longer at a
    /// statement. A step takes over a pending launch breakpoint as one of its
    /// one-shot breakpoints (its INT3 is removed with theirs), so that after a
    /// step INT3 stays only at user breakpoints.
    fn begin_planting(&mut self, dbg: &mut Debugger) -> (r: ResumeStep)
        requires
            old(dbg).wf(),
            !old(dbg).exited,
            old(dbg).current_stmt is None,
            old(self).temps@.len() == 0,
            !old(self).planned@,
            old(dbg).at_rest(),
        ensures
            final(self).wf(final(dbg)),
            final(self).step_ok(final(dbg), r),
            final(self).is_step == old(self).is_step,
            final(self).from == old(self).from,
            final(self).planned@,
            final(dbg).same_program(old(dbg)),
            final(dbg).user_breakpoints@ == old(dbg).user_breakpoints@,
            final(dbg).current_stmt is None,
            !final(dbg).exited,
            final(dbg).patches() == old(dbg).patches(),
            final(dbg).auto_breakpoint == (if old(self).is_step {
                None
            } else {
                old(dbg).auto_breakpoint
            }),
            (r is Patch || r == ResumeStep::Continue(None)),
    {
        let ghost before = *dbg;
        let mut adopted: Option<u64> = None;
        if self.is_step {
            match dbg.auto_breakpoint {
                Some(a) => {
                    dbg.auto_breakpoint = None;
                    if dbg.has_active_breakpoint(a) && !dbg.claims(a) {
                        adopted = Some(a);
                    }
                },
                None => {},
            }
        }
        self.adopted = Ghost(adopted);
        self.base = Ghost(
            match adopted {
                Some(a) => dbg.patches().dom().remove(a),
                None => dbg.patches().dom(),
            },
        );
        self.plan_auto = Ghost(dbg.auto_breakpoint);
        if self.is_step {
            self.temps = dbg.unpatched_stmt_addresses();
            match adopted {
                Some(a) => crate::debugger::insert_sorted(&mut self.temps, a),
                None => {},
            }
        }
        self.cursor = 0;
        self.planned = Ghost(true);
        self.phase = ResumePhase::Planting;
        proof {
            assert forall|x: u64| #[trigger] dbg.patches().contains_key(x) <==> (
            self.base@.contains(x) || prefix_has(self.temps@, self.cursor as int, x)
                || self.adopted@ == Some(x)) by {}
            assert forall|a: u64| #[trigger] self.base@.contains(a) <==> self.claimed_at_plan(
                dbg,
                a,
            ) by {
                assert(before.patches().contains_key(a) <==> before.should_patch(a));
                assert(dbg.user_addr(a) == before.user_addr(a));
            }
            assert forall|a: u64| #[trigger] self.temps@.contains(a) <==> (self.is_step
                && is_stmt_addr(dbg.stmt_addresses@, a) && !self.base@.contains(a)) by {
                if adopted == Some(a) {
                    assert(before.claimed(a));
                    before.lemma_claimed_is_stmt_addr(a);
                }
            }
        }
        self.plant_next(dbg)
    }

    /// Starts resuming from where `dbg` stands. A step first single-steps
    /// off the statement it stands on; a continue does so only when a
    /// breakpoint claims that statement's address (so its INT3 can be put
    /// back). Otherwise the one-shot breakpoints of a step are planted and
    /// the process continued.
    pub fn start(dbg: &mut Debugger, is_step: bool) -> (r: (Resume, ResumeStep))
        requires
            old(dbg).wf(),
            !old(dbg).exited,
            old(dbg).at_rest(),
        ensures
            r.0.wf(final(dbg)),
            r.0.step_ok(final(dbg), r.1),
            r.0.is_step == is_step,
            r.0.from == old(dbg).current_stmt,
            final(dbg).same_program(old(dbg)),
            final(dbg).user_breakpoints@ == old(dbg).user_breakpoints@,
            final(dbg).auto_breakpoint == old(dbg).auto_breakpoint || (is_step && final(dbg).auto_breakpoint is None),
            final(dbg).patches() == old(dbg).patches(),
            !final(dbg).exited,
            (match old(dbg).current_addr() {
                Some(c) => is_step || old(dbg).claimed(c),
                None => false,
            }) ==> r.1 == ResumeStep::SingleStep && final(dbg).current_stmt == old(
                dbg,
            ).current_stmt && r.0.phase == ResumePhase::SteppingOver(old(dbg).current_addr().unwrap()),
            !(match old(dbg).current_addr() {
                Some(c) => is_step || old(dbg).claimed(c),
                None => false,
            }) ==> final(dbg).current_stmt is None && (r.1 is Patch || r.1 == ResumeStep::Continue(None)),
    {
        let mut res = Resume {
            is_step,
            from: dbg.current_stmt,
            temps: Vec::new(),
            cursor: 0,
            phase: ResumePhase::Done,
            outcome: None,
            base: Ghost(Set::empty()),
            plan_auto: Ghost(None),
            planned: Ghost(false),
            adopted: Ghost(None),
        };
        match dbg.current_stmt {
            Some(i) => {
                let c = dbg.stmt_addresses[i];
                if is_step || dbg.claims(c) {
                    res.phase = ResumePhase::SteppingOver(c);
                    return (res, ResumeStep::SingleStep);
                }
                let ghost before = *dbg;
                dbg.clear_current();
                proof {
                    if true {
                        assert forall|x: u64| #[trigger] dbg.patches().contains_key(x)
                            <==> dbg.should_patch(x) by {
                            assert(before.patches().contains_key(x) <==> before.should_patch(x));
                        }
                    }
                }
            },
            None => {},
        }
        let step = res.begin_planting(dbg);
        (res, step)
    }

    /// Reports the stop after the single step: if the program ended
    /// meanwhile the resume finishes with that; otherwise the breakpoint
    /// claiming the statement left is put back, and planting begins.
    pub fn single_stepped(&mut self, dbg: &mut Debugger, status: StopStatus) -> (r: ResumeStep)
        requires
            old(self).wf(old(dbg)),
            old(self).phase is SteppingOver,
        ensures
            final(self).wf(final(dbg)),
            final(self).step_ok(final(dbg), r),
            final(dbg).same_program(old(dbg)),
            final(dbg).user_breakpoints@ == old(dbg).user_breakpoints@,
            final(dbg).auto_breakpoint == old(dbg).auto_breakpoint || (old(self).is_step && final(dbg).auto_breakpoint is None),
            final(dbg).patches() == old(dbg).patches(),
            final(dbg).current_stmt is None,
            final(self).is_step == old(self).is_step,
            final(self).from == old(self).from,
            program_end(status) matches Some(ev) ==> r == ResumeStep::Finish(ev)
                && final(dbg).exited,
            program_end(status) is None ==> !final(dbg).exited && match old(self).phase {
                ResumePhase::SteppingOver(c) => if old(dbg).claimed(c) && !old(
                    dbg,
                ).patches().contains_key(c) {
                    r == ResumeStep::Patch(c) && final(self).phase == ResumePhase::Reinstalling(
                        c,
                    )
                } else {
                    (r is Patch || r == ResumeStep::Continue(None))
                },
                _ => false,
            },
    {
        let c = match self.phase {
            ResumePhase::SteppingOver(a) => a,
            _ => 0,
        };
        match single_step_outcome(status) {
            Some(ev) => {
                dbg.mark_exited();
                self.outcome = Some(ev);
                self.phase = ResumePhase::Done;
                ResumeStep::Finish(ev)
            },
            None => {
                let ghost before = *dbg;
                dbg.clear_current();
                if dbg.claims(c) && !dbg.has_active_breakpoint(c) {
                    self.phase = ResumePhase::Reinstalling(c);
                    proof {
                        if true {
                            assert forall|x: u64| x != c implies (#[trigger] dbg.patches().contains_key(x)
                                <==> dbg.should_patch(x)) by {
                                assert(before.patches().contains_key(x) <==> before.should_patch(x));
                            }
                        }
                    }
                    ResumeStep::Patch(c)
                } else {
                    proof {
                        if true {
                            assert(before.patches().contains_key(c) <==> before.should_patch(c));
                            assert forall|x: u64| #[trigger] dbg.patches().contains_key(x)
                                <==> dbg.should_patch(x) by {
                                assert(before.patches().contains_key(x) <==> before.should_patch(x));
                            }
                        }
                    }
                    self.begin_planting(dbg)
                }
            },
        }
    }

    /// Reports that INT3 was written at `addr` over the byte `saved`, as
    /// the last `Patch` step asked.
    pub fn patched(&mut self, dbg: &mut Debugger, addr: u64, saved: u8) -> (r: ResumeStep)
        requires
            old(self).wf(old(dbg)),
            old(self).phase == ResumePhase::Reinstalling(addr) || (old(self).phase is Planting
                && old(self).cursor < old(self).temps@.len() && old(self).temps@[old(
                self).cursor as int] == addr),
        ensures
            final(self).wf(final(dbg)),
            final(self).step_ok(final(dbg), r),
            final(dbg).same_program(old(dbg)),
            final(dbg).user_breakpoints@ == old(dbg).user_breakpoints@,
            final(dbg).exited == old(dbg).exited,
            old(self).phase is Planting ==> final(dbg).same_marks(old(dbg)),
            final(dbg).auto_breakpoint == old(dbg).auto_breakpoint || (old(self).is_step && final(dbg).auto_breakpoint is None),
            final(dbg).patches() == old(dbg).patches().insert(addr, saved),
            final(self).is_step == old(self).is_step,
            final(self).from == old(self).from,
            old(self).phase is Planting ==> final(self).same_plan(old(self)),
            (r is Patch || r == ResumeStep::Continue(None)),
    {
        dbg.record_breakpoint(addr, saved);
        match self.phase {
            ResumePhase::Reinstalling(_) => self.begin_planting(dbg),
            _ => {
                let n = self.temps.len();
                assert(self.cursor < n);
                self.cursor = self.cursor + 1;
                proof {
                    assert forall|x: u64| #[trigger] dbg.patches().contains_key(x) <==> (
                    self.base@.contains(x) || prefix_has(self.temps@, self.cursor as int, x)
                        || self.adopted@ == Some(x)) by {
                        if prefix_has(self.temps@, self.cursor as int, x) && x != addr {
                            let j = choose|j: int| 0 <= j < self.cursor && #[trigger] self.temps@[j] == x;
                            assert(prefix_has(self.temps@, self.cursor - 1, x));
                        }
                        if x == addr {
                            assert(self.temps@[self.cursor - 1] == x);
                        }
                    }
                }
                self.plant_next(dbg)
            },
        }
    }

    /// Removes the next one-shot breakpoint still patched in, or finishes.
    fn clean_next(&mut self, dbg: &mut Debugger) -> (r: ResumeStep)
        requires
            old(self).wf(old(dbg)),
            old(self).phase is Cleaning,
        ensures
            final(self).wf(final(dbg)),
            final(self).step_ok(final(dbg), r),
            final(dbg).same_program(old(dbg)),
            final(dbg).same_marks(old(dbg)),
            final(self).same_plan(old(self)),
            final(self).outcome == old(self).outcome,
            r matches ResumeStep::Restore { addr, saved } ==> old(dbg).patches().contains_key(addr)
                && old(dbg).patches()[addr] == saved && final(dbg).patches() == old(
                dbg).patches().remove(addr),
            r is Finish ==> final(dbg).patches() == old(dbg).patches(),
            (r is Restore || r is Finish),
    {
        while self.cursor < self.temps.len()
            invariant
                self.wf(dbg),
                self.phase is Cleaning,
                self.same_plan(old(self)),
                self.outcome == old(self).outcome,
                dbg.same_program(old(dbg)),
                dbg.same_marks(old(dbg)),
                dbg.patches() == old(dbg).patches(),
            decreases self.temps@.len() - self.cursor,
        {
            let a = self.temps[self.cursor];
            let ghost k = self.cursor as int;
            self.cursor = self.cursor + 1;
            let ghost before = *dbg;
            proof {
                assert forall|x: u64| #[trigger] prefix_has(self.temps@, self.cursor as int, x) <==> (
                prefix_has(self.temps@, k, x) || x == a) by {
                    if prefix_has(self.temps@, self.cursor as int, x) && x != a {
                        let j = choose|j: int| 0 <= j < self.cursor && #[trigger] self.temps@[j] == x;
                        assert(prefix_has(self.temps@, k, x));
                    }
                    if x == a {
                        assert(self.temps@[k] == x);
                    }
                }
                assert(self.temps@.contains(a));
                assert(!self.base@.contains(a));
            }
            match dbg.take_breakpoint(a) {
                Some(saved) => {
                    return ResumeStep::Restore { addr: a, saved };
                },
                None => {},
            }
        }
        self.phase = ResumePhase::Done;
        proof {
            assert forall|x: u64| #[trigger] self.temps@.contains(x) implies prefix_has(
                self.temps@,
                self.cursor as int,
                x,
            ) by {
                let j = choose|j: int| 0 <= j < self.temps@.len() && self.temps@[j] == x;
            }
            assert forall|j: int| 0 <= j < self.temps@.len() implies !dbg.patches().contains_key(
                #[trigger] self.temps@[j],
            ) by {
                assert(self.temps@.contains(self.temps@[j]));
                assert(prefix_has(self.temps@, self.cursor as int, self.temps@[j]));
            }
            if true {
                assert forall|x: u64| #[trigger] dbg.patches().contains_key(x)
                    <==> dbg.should_patch(x) by {
                    assert(self.base@.contains(x) <==> self.claimed_at_plan(dbg, x));
                }
            }
        }
        match self.outcome {
            Some(ev) => ResumeStep::Finish(ev),
            None => ResumeStep::Finish(DebugEvent::Exited { status: 0 }),
        }
    }

    /// Reports the stop the process made while running: a stop at one of
    /// our patches rewinds to its statement; an exit or a kill ends the
    /// resume at once (the process is gone: its one-shot patches are
    /// forgotten, not written back); anything else continues the process.
    pub fn stopped(&mut self, dbg: &mut Debugger, status: StopStatus) -> (r: ResumeStep)
        requires
            old(self).wf(old(dbg)),
            old(self).phase is Running,
            status matches StopStatus::Trapped { rip } ==> rip >= 1,
        ensures
            final(self).wf(final(dbg)),
            final(self).step_ok(final(dbg), r),
            final(dbg).same_program(old(dbg)),
            final(dbg).user_breakpoints@ == old(dbg).user_breakpoints@,
            final(dbg).auto_breakpoint == old(dbg).auto_breakpoint,
            final(self).same_plan(old(self)),
            match stop_action(old(dbg).stop_table(), old(dbg).patches(), status) {
                WaitAction::Report(ev) => r == ResumeStep::Finish(ev) && final(dbg).exited
                    && forall|x: u64| #[trigger] final(dbg).patches().contains_key(x) <==> (old(
                    dbg).patches().contains_key(x) && !old(self).temps@.contains(x)),
                WaitAction::Rewind { stmt_idx, addr } => r == (ResumeStep::Restore {
                    addr,
                    saved: old(dbg).patches()[addr],
                }) && old(dbg).patches().contains_key(addr) && final(dbg).patches() == old(
                    dbg,
                ).patches().remove(addr) && final(self).phase == (ResumePhase::Rewinding {
                    stmt_idx,
                    addr,
                }) && !final(dbg).exited,
                WaitAction::Resume(sig) => r == ResumeStep::Continue(sig) && final(dbg).patches()
                    == old(dbg).patches() && final(self).phase is Running && !final(dbg).exited,
            },
    {
        match dbg.classify_stop(status) {
            WaitAction::Report(ev) => {
                let n = self.temps.len();
                let mut k: usize = 0;
                while k < n
                    invariant
                        n == self.temps@.len(),
                        0 <= k <= n,
                        dbg.wf(),
                        dbg.same_program(old(dbg)),
                        dbg.same_marks(old(dbg)),
                        forall|j: int| 0 <= j < k ==> !dbg.patches().contains_key(#[trigger] self.temps@[j]),
                        forall|x: u64| #[trigger] dbg.patches().contains_key(x) <==> (old(
                        dbg).patches().contains_key(x) && !prefix_has(self.temps@, k as int, x)),
                    decreases n - k,
                {
                    proof {
                        assert forall|x: u64| #[trigger] prefix_has(self.temps@, k + 1, x) <==> (
                        prefix_has(self.temps@, k as int, x) || x == self.temps@[k as int]) by {
                            if prefix_has(self.temps@, k + 1, x) && x != self.temps@[k as int] {
                                let j = choose|j: int| 0 <= j < k + 1 && #[trigger] self.temps@[j] == x;
                                assert(prefix_has(self.temps@, k as int, x));
                            }
                            if x == self.temps@[k as int] {
                                assert(self.temps@[k as int] == x);
                            }
                        }
                    }
                    let _ = dbg.take_breakpoint(self.temps[k]);
                    k = k + 1;
                }
                proof {
                    assert forall|x: u64| #[trigger] self.temps@.contains(x) <==> prefix_has(
                        self.temps@,
                        n as int,
                        x,
                    ) by {
                        if self.temps@.contains(x) {
                            let j = choose|j: int| 0 <= j < n && self.temps@[j] == x;
                        }
                    }
                }
                dbg.mark_exited();
                self.outcome = Some(ev);
                self.phase = ResumePhase::Done;
                self.cursor = n;
                ResumeStep::Finish(ev)
            },
            WaitAction::Rewind { stmt_idx, addr } => {
                proof {
                    crate::debugger::lemma_addr_index(dbg.stmt_addresses@, addr);
                }
                let saved = match dbg.take_breakpoint(addr) {
                    Some(b) => b,
                    None => 0,
                };
                self.phase = ResumePhase::Rewinding { stmt_idx, addr };
                ResumeStep::Restore { addr, saved }
            },
            WaitAction::Resume(sig) => ResumeStep::Continue(sig),
        }
    }

    /// Reports that the original byte was written back.
    pub fn restored(&mut self, dbg: &mut Debugger) -> (r: ResumeStep)
        requires
            old(self).wf(old(dbg)),
            old(self).phase is Rewinding || old(self).phase is Cleaning,
        ensures
            final(self).wf(final(dbg)),
            final(self).step_ok(final(dbg), r),
            final(dbg).same_program(old(dbg)),
            final(dbg).same_marks(old(dbg)),
            final(self).same_plan(old(self)),
            (old(self).phase matches ResumePhase::Rewinding { stmt_idx, addr } ==> r
                == ResumeStep::SetPc(addr) && final(self).phase == (ResumePhase::SettingPc {
                stmt_idx,
            }) && final(dbg).patches() == old(dbg).patches()),
            r matches ResumeStep::Restore { addr, saved } ==> old(dbg).patches().contains_key(addr)
                && old(dbg).patches()[addr] == saved && final(dbg).patches() == old(
                dbg).patches().remove(addr),
            r is Finish ==> final(dbg).patches() == old(dbg).patches(),
            old(self).phase is Cleaning ==> (r is Restore || r is Finish),
    {
        match self.phase {
            ResumePhase::Rewinding { stmt_idx, addr } => {
                self.phase = ResumePhase::SettingPc { stmt_idx };
                ResumeStep::SetPc(addr)
            },
            _ => self.clean_next(dbg),
        }
    }

    /// Reports that the instruction pointer is back on the statement: the
    /// stop at it is recorded, and the one-shot breakpoints are removed.
    pub fn pc_set(&mut self, dbg: &mut Debugger) -> (r: ResumeStep)
        requires
            old(self).wf(old(dbg)),
            old(self).phase is SettingPc,
        ensures
            final(self).wf(final(dbg)),
            final(self).step_ok(final(dbg), r),
            final(dbg).same_program(old(dbg)),
            final(dbg).user_breakpoints@ == old(dbg).user_breakpoints@,
            final(self).same_plan(old(self)),
            (old(self).phase matches ResumePhase::SettingPc { stmt_idx } ==> final(dbg).current_stmt
                == Some(stmt_idx)),
            r matches ResumeStep::Restore { addr, saved } ==> old(dbg).patches().contains_key(addr)
                && old(dbg).patches()[addr] == saved && final(dbg).patches() == old(
                dbg).patches().remove(addr),
            r is Finish ==> final(dbg).patches() == old(dbg).patches(),
            (r is Restore || r is Finish),
    {
        let idx = match self.phase {
            ResumePhase::SettingPc { stmt_idx } => stmt_idx,
            _ => 0,
        };
        let ev = dbg.stop_at(idx);
        self.outcome = Some(ev);
        self.phase = ResumePhase::Cleaning;
        self.cursor = 0;
        proof {
            assert forall|x: u64| !#[trigger] prefix_has(self.temps@, 0, x) by {}
        }
        self.clean_next(dbg)
    }
}

} // verus!
