//! The debugger's state: which statement addresses carry INT3 patches,
//! which statements the user marked, where execution stopped, and the
//! decisions taken on toggles and stops. The process itself is driven by the
//! caller, who performs the ptrace requests these functions ask for and
//! reports their results back.
//!
//! Between operations the patch table is "at rest": INT3 sits exactly at the
//! addresses that a user breakpoint or the launch breakpoint claims, except
//! the address execution is stopped at. Toggles and resumes start only from
//! a table at rest (`is_at_rest` tells), and leave it at rest once the
//! patches they ask for are written.

use std::collections::{HashMap, HashSet};
use vstd::prelude::*;

use crate::elf_map::{label_lookup, LabelTable};
use crate::source_map::{is_nearest_stmt, lookup_var, SourceMap, StmtEntry, VarEntry, VarKind};
use crate::text::{lemma_lex_order, lex_lt, str_lt};

verus! {

broadcast use vstd::std_specs::hash::group_hash_axioms;

/// Why execution stopped.
#[derive(Debug, Clone, Copy, PartialEq, Eq, Structural)]
pub enum DebugEvent {
    /// Execution stopped at a known DPL statement.
    HitBreakpoint { stmt_idx: usize, line: u32 },
    /// The process exited normally.
    Exited { status: i32 },
    /// The process was killed by a signal (its number).
    Signaled { signal: i32 },
}

/// A value read from the stack of the debugged program.
#[derive(Debug)]
pub enum DplValue {
    Int(i64),
    /// An `f64`, held by its IEEE-754 bit pattern.
    Float(u64),
    String(String),
}

/// The debugger's state for one traced process.
pub struct Debugger {
    /// Process id of the traced child.
    pub child: i32,
    pub source_map: SourceMap,
    /// stmt_idx → virtual address (0 = unknown / not in binary).
    pub stmt_addresses: Vec<u64>,
    /// virtual address → stmt_idx (reverse lookup).
    pub addr_to_stmt: HashMap<u64, usize>,
    /// User-set persistent breakpoints (by stmt_idx).
    pub user_breakpoints: HashSet<usize>,
    /// Currently active INT3 patches: address → original byte that was there.
    pub active_breakpoints: HashMap<u64, u8>,
    /// Statement index we are currently stopped at (None = not started / running).
    pub current_stmt: Option<usize>,
    /// The launch breakpoint at the first statement, until it is hit.
    pub auto_breakpoint: Option<u64>,
    /// Whether the process has exited or was killed.
    pub exited: bool,
}

/// The address of a statement: the address of its label, or 0 when the
/// binary has no such label.
pub open spec fn stmt_address(labels: Seq<(String, u64)>, stmt: StmtEntry) -> u64 {
    match label_lookup(labels, stmt.label@) {
        Some(a) => a,
        None => 0,
    }
}

/// `a` is the nonzero address of some statement.
pub open spec fn is_stmt_addr(addrs: Seq<u64>, a: u64) -> bool {
    a != 0 && exists|j: int| 0 <= j < addrs.len() && #[trigger] addrs[j] == a
}

/// Reverse lookup of a statement address table: each nonzero address maps
/// to the last statement that has it.
pub open spec fn addr_index(addrs: Seq<u64>) -> Map<u64, usize>
    decreases addrs.len(),
{
    if addrs.len() == 0 {
        Map::empty()
    } else {
        let m = addr_index(addrs.drop_last());
        if addrs.last() != 0 {
            m.insert(addrs.last(), (addrs.len() - 1) as usize)
        } else {
            m
        }
    }
}

/// What toggling a user breakpoint asks of the tracee's memory.
#[derive(Debug, Clone, Copy, PartialEq, Eq, Structural)]
pub enum PatchAction {
    /// Patch INT3 in at this address (then record the saved byte with
    /// `record_breakpoint`).
    Insert(u64),
    /// Write the original byte `saved` back at `addr` (already forgotten
    /// by the patch table).
    Remove { addr: u64, saved: u8 },
    /// Nothing to patch.
    Keep,
}

/// The result of toggling the breakpoint nearest to a source line.
#[derive(Debug, Clone, Copy, PartialEq, Eq, Structural)]
pub struct ToggleOutcome {
    /// The statement the breakpoint is on.
    pub stmt_idx: usize,
    /// The actual source line of that statement.
    pub line: u32,
    /// Whether the breakpoint is now set (false: it was removed).
    pub set: bool,
    pub patch: PatchAction,
}

/// The user breakpoint set after toggling statement `idx`.
pub open spec fn toggled(bps: Set<usize>, idx: usize) -> Set<usize> {
    if bps.contains(idx) {
        bps.remove(idx)
    } else {
        bps.insert(idx)
    }
}

impl Debugger {
    /// The reverse address lookup table.
    pub open spec fn stop_table(&self) -> Map<u64, usize> {
        self.addr_to_stmt@
    }

    /// The INT3 patches in place: address → saved original byte.
    pub open spec fn patches(&self) -> Map<u64, u8> {
        self.active_breakpoints@
    }

    /// The number of statements.
    pub open spec fn num_stmts(&self) -> nat {
        self.source_map.statements@.len()
    }

    /// A user breakpoint sits on a statement at nonzero address `a`.
    pub open spec fn user_addr(&self, a: u64) -> bool {
        a != 0 && exists|u: usize|
            #[trigger] self.user_breakpoints@.contains(u) && self.stmt_addresses@[u as int] == a
    }

    /// A breakpoint, the user's or the launch one, claims address `a`.
    pub open spec fn claimed(&self, a: u64) -> bool {
        self.user_addr(a) || self.auto_breakpoint == Some(a)
    }

    /// The address of the statement execution is stopped at.
    pub open spec fn current_addr(&self) -> Option<u64> {
        match self.current_stmt {
            Some(i) => Some(self.stmt_addresses@[i as int]),
            None => None,
        }
    }

    /// INT3 belongs at `a` while the program is not running: the address is
    /// claimed and it is not where execution stands.
    pub open spec fn should_patch(&self, a: u64) -> bool {
        self.claimed(a) && self.current_addr() != Some(a)
    }

    /// The patch table holds exactly the addresses where INT3 belongs (or the
    /// process is gone).
    pub open spec fn at_rest(&self) -> bool {
        self.exited || forall|a: u64|
            #![trigger self.patches().contains_key(a)]
            #![trigger self.should_patch(a)]
            self.patches().contains_key(a) <==> self.should_patch(a)
    }

    /// The table is at rest but for INT3 still to be written at `a`.
    pub open spec fn pending_insert(&self, a: u64) -> bool {
        self.exited || {
            &&& !self.patches().contains_key(a)
            &&& self.should_patch(a)
            &&& forall|x: u64|
                #![trigger self.patches().contains_key(x)]
                #![trigger self.should_patch(x)]
                x != a ==> (self.patches().contains_key(x) <==> self.should_patch(x))
        }
    }

    /// The debugger's internal invariant.
    pub open spec fn wf(&self) -> bool {
        &&& self.source_map.wf()
        &&& self.stmt_addresses@.len() == self.num_stmts()
        &&& self.num_stmts() <= usize::MAX
        &&& self.stop_table() == addr_index(self.stmt_addresses@)
        &&& forall|i: usize| #[trigger] self.user_breakpoints@.contains(i) ==> i < self.num_stmts()
        &&& self.current_stmt matches Some(i) ==> i < self.num_stmts() && self.stmt_addresses@[i as int] != 0
        &&& self.auto_breakpoint matches Some(a) ==> is_stmt_addr(self.stmt_addresses@, a)
        &&& self.exited ==> self.current_stmt is None
    }

    /// The parts of the state that no stop or resume changes.
    pub open spec fn same_program(&self, other: &Debugger) -> bool {
        &&& self.child == other.child
        &&& self.source_map == other.source_map
        &&& self.stmt_addresses@ == other.stmt_addresses@
        &&& self.stop_table() == other.stop_table()
    }

    /// The parts of the state that only toggles, stops and exits change.
    pub open spec fn same_marks(&self, other: &Debugger) -> bool {
        &&& self.user_breakpoints@ == other.user_breakpoints@
        &&& self.current_stmt == other.current_stmt
        &&& self.auto_breakpoint == other.auto_breakpoint
        &&& self.exited == other.exited
    }

    /// The debugger for the traced process `child`, with the statement
    /// address table built from `labels`: no user breakpoints, not stopped
    /// anywhere, and the launch breakpoint claiming the first statement's
    /// address when it has one (INT3 still to be written there).
    pub fn new(child: i32, source_map: SourceMap, labels: &LabelTable) -> (d: Debugger)
        requires
            source_map.wf(),
        ensures
            d.wf(),
            d.child == child,
            d.source_map == source_map,
            forall|i: int|
                0 <= i < d.num_stmts() ==> #[trigger] d.stmt_addresses@[i] == stmt_address(
                    labels.entries@,
                    source_map.statements@[i],
                ),
            d.user_breakpoints@ == Set::<usize>::empty(),
            d.patches() == Map::<u64, u8>::empty(),
            d.current_stmt is None,
            !d.exited,
            d.auto_breakpoint == (if d.num_stmts() > 0 && d.stmt_addresses@[0] != 0 {
                Some(d.stmt_addresses@[0])
            } else {
                None
            }),
            match d.auto_breakpoint {
                Some(a) => d.pending_insert(a),
                None => d.at_rest(),
            },
    {
        let n = source_map.statements.len();
        let mut stmt_addresses: Vec<u64> = Vec::new();
        let mut k: usize = 0;
        while k < n
            invariant
                n == source_map.statements@.len(),
                0 <= k <= n,
                stmt_addresses@.len() == k,
                forall|i: int|
                    0 <= i < k ==> #[trigger] stmt_addresses@[i] == stmt_address(
                        labels.entries@,
                        source_map.statements@[i],
                    ),
            decreases n - k,
        {
            let a = match labels.get(source_map.statements[k].label.as_str()) {
                Some(a) => a,
                None => 0,
            };
            stmt_addresses.push(a);
            k = k + 1;
        }
        let mut addr_to_stmt: HashMap<u64, usize> = HashMap::new();
        let mut i: usize = 0;
        while i < n
            invariant
                n == stmt_addresses@.len(),
                0 <= i <= n,
                addr_to_stmt@ == addr_index(stmt_addresses@.subrange(0, i as int)),
            decreases n - i,
        {
            let ghost pre = stmt_addresses@.subrange(0, i as int);
            let ghost post = stmt_addresses@.subrange(0, i + 1);
            assert(post.drop_last() =~= pre);
            let addr = stmt_addresses[i];
            if addr != 0 {
                addr_to_stmt.insert(addr, i);
            }
            i = i + 1;
        }
        assert(stmt_addresses@.subrange(0, n as int) =~= stmt_addresses@);
        let auto_breakpoint = if n > 0 && stmt_addresses[0] != 0 {
            Some(stmt_addresses[0])
        } else {
            None
        };
        let d = Debugger {
            child,
            source_map,
            stmt_addresses,
            addr_to_stmt,
            user_breakpoints: HashSet::new(),
            active_breakpoints: HashMap::new(),
            current_stmt: None,
            auto_breakpoint,
            exited: false,
        };
        proof {
            assert forall|a: u64| !d.user_addr(a) by {}
        }
        d
    }

    /// Where the launch breakpoint wants INT3 (the first statement's
    /// address), until it is hit.
    pub fn initial_breakpoint(&self) -> (r: Option<u64>)
        ensures
            r == self.auto_breakpoint,
    {
        self.auto_breakpoint
    }

    /// Whether an INT3 patch is in place at `addr`.
    pub fn has_active_breakpoint(&self, addr: u64) -> (r: bool)
        ensures
            r == self.patches().contains_key(addr),
    {
        self.active_breakpoints.contains_key(&addr)
    }

    /// Records that INT3 was written at `addr` over the byte `saved`; when
    /// that write was the one the table was waiting for, it is at rest.
    pub fn record_breakpoint(&mut self, addr: u64, saved: u8)
        ensures
            final(self).patches() == old(self).patches().insert(addr, saved),
            final(self).same_program(old(self)),
            final(self).same_marks(old(self)),
            old(self).pending_insert(addr) ==> final(self).at_rest(),
    {
        self.active_breakpoints.insert(addr, saved);
    }

    /// Forgets the patch at `addr` and returns the byte it saved, if a
    /// patch was in place there.
    pub fn take_breakpoint(&mut self, addr: u64) -> (r: Option<u8>)
        ensures
            r == (if old(self).patches().contains_key(addr) {
                Some(old(self).patches()[addr])
            } else {
                None
            }),
            final(self).patches() == old(self).patches().remove(addr),
            final(self).same_program(old(self)),
            final(self).same_marks(old(self)),
    {
        self.active_breakpoints.remove(&addr)
    }

    /// Whether a user breakpoint or the launch breakpoint claims `a`.
    pub fn claims(&self, a: u64) -> (r: bool)
        requires
            self.wf(),
        ensures
            r == self.claimed(a),
    {
        if self.auto_breakpoint == Some(a) {
            return true;
        }
        if a == 0 {
            return false;
        }
        let n = self.stmt_addresses.len();
        let mut j: usize = 0;
        while j < n
            invariant
                n == self.stmt_addresses@.len(),
                self.wf(),
                a != 0,
                self.auto_breakpoint != Some(a),
                0 <= j <= n,
                forall|u: usize|
                    u < j ==> !(#[trigger] self.user_breakpoints@.contains(u)
                        && self.stmt_addresses@[u as int] == a),
            decreases n - j,
        {
            if self.stmt_addresses[j] == a && self.user_breakpoints.contains(&j) {
                assert(self.user_breakpoints@.contains(j) && self.stmt_addresses@[j as int] == a);
                return true;
            }
            j = j + 1;
        }
        false
    }

    /// Whether the patch table is at rest: INT3 exactly where a breakpoint
    /// claims it, except where execution stands.
    pub fn is_at_rest(&self) -> (r: bool)
        requires
            self.wf(),
        ensures
            r == self.at_rest(),
    {
        if self.exited {
            return true;
        }
        let n = self.stmt_addresses.len();
        let mut seen: Vec<u64> = Vec::new();
        let mut i: usize = 0;
        while i < n
            invariant
                n == self.stmt_addresses@.len(),
                self.wf(),
                !self.exited,
                0 <= i <= n,
                strictly_increasing(seen@),
                forall|a: u64|
                    #[trigger] seen@.contains(a) <==> (is_stmt_addr(
                        self.stmt_addresses@.subrange(0, i as int),
                        a,
                    ) && self.patches().contains_key(a)),
                forall|j: int|
                    0 <= j < i && self.stmt_addresses@[j] != 0 ==> (self.patches().contains_key(
                        #[trigger] self.stmt_addresses@[j],
                    ) <==> self.should_patch(self.stmt_addresses@[j])),
            decreases n - i,
        {
            let a = self.stmt_addresses[i];
            let ghost before = seen@;
            let ghost pre = self.stmt_addresses@.subrange(0, i as int);
            let ghost post = self.stmt_addresses@.subrange(0, i + 1);
            if a != 0 {
                let patched = self.active_breakpoints.contains_key(&a);
                let wanted = self.claims(a) && !(match self.current_stmt {
                    Some(c) => self.stmt_addresses[c] == a,
                    None => false,
                });
                assert(wanted == self.should_patch(a));
                if patched != wanted {
                    return false;
                }
                if patched {
                    insert_sorted(&mut seen, a);
                }
            }
            assert forall|x: u64| #[trigger] seen@.contains(x) <==> (is_stmt_addr(post, x)
                && self.patches().contains_key(x)) by {
                if is_stmt_addr(pre, x) {
                    let j = choose|j: int| 0 <= j < pre.len() && #[trigger] pre[j] == x;
                    assert(post[j] == x);
                }
                if is_stmt_addr(post, x) {
                    let j = choose|j: int| 0 <= j < post.len() && #[trigger] post[j] == x;
                    if j < i {
                        assert(pre[j] == x);
                    }
                }
                if x == a {
                    assert(post[i as int] == x);
                }
            }
            i = i + 1;
        }
        assert(self.stmt_addresses@.subrange(0, n as int) =~= self.stmt_addresses@);
        let ghost dom = self.patches().dom();
        proof {
            assert(seen@.no_duplicates()) by {
                assert forall|p: int, q: int| 0 <= p < seen@.len() && 0 <= q < seen@.len() && p != q
                    implies seen@[p] != seen@[q] by {
                    if p < q {
                        assert(seen@[p] < seen@[q]);
                    } else {
                        assert(seen@[q] < seen@[p]);
                    }
                }
            }
            seen@.unique_seq_to_set();
            assert(seen@.to_set().subset_of(dom)) by {
                assert forall|x: u64| seen@.to_set().contains(x) implies dom.contains(x) by {
                    assert(seen@.contains(x));
                }
            }
            vstd::seq_lib::seq_to_set_is_finite(seen@);
        }
        if seen.len() != self.active_breakpoints.len() {
            proof {
                if self.at_rest() {
                    assert(dom.subset_of(seen@.to_set())) by {
                        assert forall|x: u64| dom.contains(x) implies seen@.to_set().contains(x) by {
                            assert(self.should_patch(x));
                            self.lemma_claimed_is_stmt_addr(x);
                            assert(seen@.contains(x));
                        }
                    }
                    assert(seen@.to_set() =~= dom);
                }
            }
            return false;
        }
        proof {
            vstd::set_lib::lemma_subset_equality(seen@.to_set(), dom);
            assert forall|x: u64| #[trigger] self.patches().contains_key(x) <==> self.should_patch(x) by {
                if self.should_patch(x) {
                    self.lemma_claimed_is_stmt_addr(x);
                    let j = choose|j: int| 0 <= j < self.stmt_addresses@.len() && #[trigger] self.stmt_addresses@[j] == x;
                    assert(self.patches().contains_key(self.stmt_addresses@[j]) <==> self.should_patch(self.stmt_addresses@[j]));
                }
                if self.patches().contains_key(x) {
                    assert(seen@.to_set().contains(x));
                    assert(seen@.contains(x));
                    let j = choose|j: int| 0 <= j < self.stmt_addresses@.len() && #[trigger] self.stmt_addresses@[j] == x;
                    assert(self.patches().contains_key(self.stmt_addresses@[j]) <==> self.should_patch(self.stmt_addresses@[j]));
                }
            }
        }
        true
    }

    /// Only statement addresses are ever claimed.
    pub proof fn lemma_claimed_is_stmt_addr(&self, x: u64)
        requires
            self.wf(),
            self.claimed(x),
        ensures
            is_stmt_addr(self.stmt_addresses@, x),
    {
        if self.user_addr(x) {
            let u = choose|u: usize|
                #[trigger] self.user_breakpoints@.contains(u) && self.stmt_addresses@[u as int] == x;
            assert(self.stmt_addresses@[u as int] == x);
        }
    }

    /// Toggle a user-set persistent breakpoint on the statement nearest to
    /// `line`. Returns that statement, its actual source line, whether the
    /// breakpoint is now set, and the memory patch the change needs so that
    /// INT3 stays exactly where a breakpoint claims it; `None` when the
    /// program has no statements.
    pub fn toggle_breakpoint(&mut self, line: u32) -> (r: Option<ToggleOutcome>)
        requires
            old(self).wf(),
            old(self).at_rest(),
        ensures
            final(self).wf(),
            final(self).same_program(old(self)),
            final(self).current_stmt == old(self).current_stmt,
            final(self).auto_breakpoint == old(self).auto_breakpoint,
            final(self).exited == old(self).exited,
            r is None <==> old(self).num_stmts() == 0,
            r is None ==> final(self).user_breakpoints@ == old(self).user_breakpoints@
                && final(self).patches() == old(self).patches() && final(self).at_rest(),
            r matches Some(t) ==> {
                let i = t.stmt_idx as int;
                let a = old(self).stmt_addresses@[i];
                &&& is_nearest_stmt(old(self).source_map.statements@, line, i)
                &&& t.line == old(self).source_map.statements@[i].line
                &&& t.set == !old(self).user_breakpoints@.contains(t.stmt_idx)
                &&& final(self).user_breakpoints@ == toggled(
                    old(self).user_breakpoints@,
                    t.stmt_idx,
                )
                &&& match t.patch {
                    PatchAction::Insert(x) => x == a && !old(self).patches().contains_key(a)
                        && final(self).should_patch(a) && final(self).patches() == old(
                        self,
                    ).patches(),
                    PatchAction::Remove { addr, saved } => addr == a && old(
                        self,
                    ).patches().contains_key(a) && saved == old(self).patches()[a]
                        && !final(self).should_patch(a) && final(self).patches() == old(
                        self,
                    ).patches().remove(a),
                    PatchAction::Keep => (old(self).patches().contains_key(a)
                        <==> final(self).should_patch(a)) && final(self).patches() == old(
                        self,
                    ).patches(),
                }
                &&& match t.patch {
                    PatchAction::Insert(x) => final(self).pending_insert(x),
                    _ => final(self).at_rest(),
                }
            },
    {
        let idx = match self.source_map.stmt_idx_for_line(line) {
            Some(i) => i,
            None => return None,
        };
        let ghost old_self = *self;
        let actual_line = self.source_map.statements[idx].line;
        let addr = self.stmt_addresses[idx];
        let was_patched = self.active_breakpoints.contains_key(&addr);
        let set = !self.user_breakpoints.contains(&idx);
        if set {
            self.user_breakpoints.insert(idx);
        } else {
            self.user_breakpoints.remove(&idx);
        }
        let wanted = self.claims(addr) && !(match self.current_stmt {
            Some(c) => self.stmt_addresses[c] == addr,
            None => false,
        });
        assert(wanted == self.should_patch(addr));
        let patch = if !was_patched && wanted {
            PatchAction::Insert(addr)
        } else if was_patched && !wanted {
            let saved = match self.active_breakpoints.remove(&addr) {
                Some(b) => b,
                None => 0,
            };
            PatchAction::Remove { addr, saved }
        } else {
            PatchAction::Keep
        };
        proof {
            lemma_toggle_keeps_other_claims(old_self, *self, idx);
            assert forall|x: u64| x != addr implies (#[trigger] self.patches().contains_key(x)
                <==> old_self.patches().contains_key(x)) && (self.should_patch(x)
                <==> old_self.should_patch(x)) by {}
            if old_self.at_rest() && !old_self.exited {
                assert forall|x: u64| x != addr implies (#[trigger] self.patches().contains_key(x)
                    <==> self.should_patch(x)) by {
                    assert(old_self.patches().contains_key(x) <==> old_self.should_patch(x));
                }
                if !(patch is Insert) {
                    assert forall|x: u64| #[trigger] self.patches().contains_key(x)
                        <==> self.should_patch(x) by {
                        if x != addr {
                            assert(old_self.patches().contains_key(x) <==> old_self.should_patch(x));
                        }
                    }
                }
            }
        }
        Some(ToggleOutcome { stmt_idx: idx, line: actual_line, set, patch })
    }

    /// Whether statement `idx` carries a user breakpoint.
    pub fn is_user_breakpoint(&self, idx: usize) -> (r: bool)
        ensures
            r == self.user_breakpoints@.contains(idx),
    {
        self.user_breakpoints.contains(&idx)
    }

    /// The source line of the statement execution is stopped at.
    pub fn current_line(&self) -> (r: Option<u32>)
        requires
            self.wf(),
        ensures
            r == (match self.current_stmt {
                Some(i) => Some(self.source_map.statements@[i as int].line),
                None => None,
            }),
    {
        match self.current_stmt {
            Some(i) => Some(self.source_map.statements[i].line),
            None => None,
        }
    }

    /// Marks execution as running (no longer stopped at a statement).
    pub fn clear_current(&mut self)
        ensures
            final(self).current_stmt is None,
            final(self).same_program(old(self)),
            final(self).user_breakpoints@ == old(self).user_breakpoints@,
            final(self).auto_breakpoint == old(self).auto_breakpoint,
            final(self).exited == old(self).exited,
            final(self).patches() == old(self).patches(),
    {
        self.current_stmt = None;
    }

    /// Records that the process has exited or was killed.
    pub fn mark_exited(&mut self)
        ensures
            final(self).exited,
            final(self).current_stmt is None,
            final(self).same_program(old(self)),
            final(self).user_breakpoints@ == old(self).user_breakpoints@,
            final(self).auto_breakpoint == old(self).auto_breakpoint,
            final(self).patches() == old(self).patches(),
    {
        self.current_stmt = None;
        self.exited = true;
    }

    /// The statement addresses that carry no patch, in increasing order,
    /// each once: where a step plants its one-shot breakpoints.
    pub fn unpatched_stmt_addresses(&self) -> (r: Vec<u64>)
        requires
            self.wf(),
        ensures
            strictly_increasing(r@),
            forall|a: u64|
                #[trigger] r@.contains(a) <==> (is_stmt_addr(self.stmt_addresses@, a)
                    && !self.patches().contains_key(a)),
    {
        let n = self.stmt_addresses.len();
        let mut targets: Vec<u64> = Vec::new();
        let mut i: usize = 0;
        while i < n
            invariant
                n == self.stmt_addresses@.len(),
                0 <= i <= n,
                strictly_increasing(targets@),
                forall|a: u64|
                    #[trigger] targets@.contains(a) <==> (is_stmt_addr(
                        self.stmt_addresses@.subrange(0, i as int),
                        a,
                    ) && !self.patches().contains_key(a)),
            decreases n - i,
        {
            let addr = self.stmt_addresses[i];
            let ghost before = targets@;
            let ghost pre = self.stmt_addresses@.subrange(0, i as int);
            let ghost post = self.stmt_addresses@.subrange(0, i + 1);
            if addr != 0 && !self.active_breakpoints.contains_key(&addr) {
                insert_sorted(&mut targets, addr);
            }
            assert forall|a: u64| #[trigger] targets@.contains(a) <==> (is_stmt_addr(post, a)
                && !self.patches().contains_key(a)) by {
                if is_stmt_addr(pre, a) {
                    let j = choose|j: int| 0 <= j < pre.len() && #[trigger] pre[j] == a;
                    assert(post[j] == a);
                }
                if is_stmt_addr(post, a) {
                    let j = choose|j: int| 0 <= j < post.len() && #[trigger] post[j] == a;
                    if j < i {
                        assert(pre[j] == a);
                    }
                }
                if a == addr {
                    assert(post[i as int] == a);
                }
            }
            i = i + 1;
        }
        assert(self.stmt_addresses@.subrange(0, n as int) =~= self.stmt_addresses@);
        targets
    }

    /// What to do with a stop reported by `waitpid`.
    pub fn classify_stop(&self, status: StopStatus) -> (r: WaitAction)
        requires
            self.wf(),
            status matches StopStatus::Trapped { rip } ==> rip >= 1,
        ensures
            r == stop_action(self.stop_table(), self.patches(), status),
            status matches StopStatus::Stopped(s) ==> r == WaitAction::Resume(Some(s)),
    {
        match status {
            StopStatus::Exited(code) => WaitAction::Report(DebugEvent::Exited { status: code }),
            StopStatus::Signaled(sig) => WaitAction::Report(DebugEvent::Signaled { signal: sig }),
            StopStatus::Trapped { rip } => {
                let hit = rip - 1;
                if self.active_breakpoints.contains_key(&hit) {
                    match self.addr_to_stmt.get(&hit) {
                        Some(idx) => WaitAction::Rewind { stmt_idx: *idx, addr: hit },
                        None => WaitAction::Resume(None),
                    }
                } else {
                    WaitAction::Resume(None)
                }
            },
            StopStatus::Stopped(sig) => WaitAction::Resume(Some(sig)),
            StopStatus::Other => WaitAction::Resume(None),
        }
    }

    /// Records that execution is stopped at statement `idx` (its patch was
    /// removed and the instruction pointer put back on it) and returns the
    /// event to report; the launch breakpoint is spent once its address is
    /// reached.
    pub fn stop_at(&mut self, idx: usize) -> (r: DebugEvent)
        requires
            old(self).wf(),
            !old(self).exited,
            idx < old(self).num_stmts(),
            old(self).stmt_addresses@[idx as int] != 0,
        ensures
            final(self).wf(),
            final(self).current_stmt == Some(idx),
            final(self).auto_breakpoint == (if old(self).auto_breakpoint == Some(
                old(self).stmt_addresses@[idx as int],
            ) {
                None
            } else {
                old(self).auto_breakpoint
            }),
            r == (DebugEvent::HitBreakpoint {
                stmt_idx: idx,
                line: old(self).source_map.statements@[idx as int].line,
            }),
            final(self).same_program(old(self)),
            final(self).user_breakpoints@ == old(self).user_breakpoints@,
            final(self).exited == old(self).exited,
            final(self).patches() == old(self).patches(),
    {
        let line = self.source_map.statements[idx].line;
        if self.auto_breakpoint == Some(self.stmt_addresses[idx]) {
            self.auto_breakpoint = None;
        }
        self.current_stmt = Some(idx);
        DebugEvent::HitBreakpoint { stmt_idx: idx, line }
    }
}

/// Toggling statement `idx` changes which breakpoints claim its address
/// only: every other address is claimed before exactly when after.
pub proof fn lemma_toggle_keeps_other_claims(d0: Debugger, d1: Debugger, idx: usize)
    requires
        d0.wf(),
        idx < d0.num_stmts(),
        d1.stmt_addresses@ == d0.stmt_addresses@,
        d1.auto_breakpoint == d0.auto_breakpoint,
        d1.current_stmt == d0.current_stmt,
        d1.user_breakpoints@ == toggled(d0.user_breakpoints@, idx),
    ensures
        forall|x: u64|
            x != d0.stmt_addresses@[idx as int] ==> (#[trigger] d1.should_patch(x)
                <==> d0.should_patch(x)),
{
    assert forall|x: u64| x != d0.stmt_addresses@[idx as int] implies (#[trigger] d1.should_patch(
        x,
    ) <==> d0.should_patch(x)) by {
        if d1.user_addr(x) {
            let u = choose|u: usize|
                #[trigger] d1.user_breakpoints@.contains(u) && d1.stmt_addresses@[u as int] == x;
            assert(d0.user_breakpoints@.contains(u));
        }
        if d0.user_addr(x) {
            let u = choose|u: usize|
                #[trigger] d0.user_breakpoints@.contains(u) && d0.stmt_addresses@[u as int] == x;
            assert(d1.user_breakpoints@.contains(u));
        }
    }
}

impl Debugger {
    /// The stack slots to read to print `name` (a trailing backtick is
    /// dropped first): the variable's own slot and, when the map has one,
    /// the slot of its primed copy; `None` for an unknown variable.
    pub fn variable_plan(&self, name: &str) -> (r: Option<VariablePlan>)
        ensures
            r == (match lookup_var(self.source_map.variables@, base_name(name@)) {
                None => None,
                Some(e) => Some(
                    VariablePlan {
                        value: e,
                        primed: lookup_var(
                            self.source_map.variables@,
                            primed_name(base_name(name@)),
                        ),
                    },
                ),
            }),
    {
        let n = name.unicode_len();
        let base: &str = if n > 0 && name.get_char(n - 1) == '`' {
            name.substring_char(0, n - 1)
        } else {
            name
        };
        assert(base@ == base_name(name@));
        let entry = match self.source_map.find_variable(base) {
            Some(e) => e,
            None => return None,
        };
        let tick = "`";
        proof {
            reveal_strlit("`");
        }
        let primed: String = String::from_str(base).concat(tick);
        assert(primed@ =~= primed_name(base@));
        let p = self.source_map.find_variable(primed.as_str());
        Some(VariablePlan { value: entry, primed: p })
    }

    /// The names of all unprimed variables, in increasing order, each once.
    pub fn local_names(&self) -> (r: Vec<String>)
        ensures
            names_increasing(r@),
            forall|s: Seq<char>|
                #[trigger] holds_name(r@, s) <==> is_local_name(self.source_map.variables@, s),
    {
        let vars = &self.source_map.variables;
        let n = vars.len();
        let mut names: Vec<String> = Vec::new();
        let mut k: usize = 0;
        while k < n
            invariant
                n == vars@.len(),
                vars == &self.source_map.variables,
                0 <= k <= n,
                names_increasing(names@),
                forall|s: Seq<char>|
                    #[trigger] holds_name(names@, s) <==> is_local_name(
                        vars@.subrange(0, k as int),
                        s,
                    ),
            decreases n - k,
        {
            let ghost before = names@;
            let ghost pre = vars@.subrange(0, k as int);
            let ghost post = vars@.subrange(0, k + 1);
            let name = &vars[k].0;
            let len = name.as_str().unicode_len();
            let primed = len > 0 && name.as_str().get_char(len - 1) == '`';
            if !primed {
                insert_sorted_name(&mut names, name.clone());
            }
            assert forall|s: Seq<char>| is_local_name(post, s) implies #[trigger] holds_name(
                names@,
                s,
            ) by {
                let j = choose|j: int| 0 <= j < post.len() && #[trigger] post[j].0@ == s;
                if j < k {
                    assert(pre[j].0@ == s);
                    assert(is_local_name(pre, s));
                }
            }
            assert forall|s: Seq<char>| #[trigger] holds_name(names@, s) implies is_local_name(
                post,
                s,
            ) by {
                if holds_name(before, s) {
                    assert(is_local_name(pre, s));
                    let j = choose|j: int| 0 <= j < pre.len() && #[trigger] pre[j].0@ == s;
                    assert(post[j].0@ == s);
                } else {
                    assert(post[k as int].0@ == s);
                }
            }
            k = k + 1;
        }
        assert(vars@.subrange(0, n as int) =~= vars@);
        names
    }
}

/// The stack slots that printing one variable reads.
#[derive(Debug, Clone, Copy, PartialEq, Eq, Structural)]
pub struct VariablePlan {
    pub value: VarEntry,
    pub primed: Option<VarEntry>,
}

/// A name with a trailing backtick names the primed copy of a variable.
pub open spec fn is_primed(name: Seq<char>) -> bool {
    name.len() > 0 && name.last() == '`'
}

/// The variable a name refers to: the name without its trailing backtick.
pub open spec fn base_name(name: Seq<char>) -> Seq<char> {
    if is_primed(name) {
        name.drop_last()
    } else {
        name
    }
}

/// The name of the primed copy of variable `base`.
pub open spec fn primed_name(base: Seq<char>) -> Seq<char> {
    base.push('`')
}

/// Some element of `v` is the name `s`.
pub open spec fn holds_name(v: Seq<String>, s: Seq<char>) -> bool {
    exists|i: int| 0 <= i < v.len() && #[trigger] v[i]@ == s
}

/// `s` is the name of an unprimed variable in `vars`.
pub open spec fn is_local_name(vars: Seq<(String, VarEntry)>, s: Seq<char>) -> bool {
    !is_primed(s) && exists|j: int| 0 <= j < vars.len() && #[trigger] vars[j].0@ == s
}

/// Each name sorts before the next.
pub open spec fn names_increasing(v: Seq<String>) -> bool {
    forall|i: int, j: int| 0 <= i < j < v.len() ==> lex_lt(v[i]@, v[j]@)
}

/// Adds name `x` to an increasing list of names, keeping it increasing and
/// holding each name once.
fn insert_sorted_name(v: &mut Vec<String>, x: String)
    requires
        names_increasing(old(v)@),
    ensures
        names_increasing(final(v)@),
        forall|s: Seq<char>|
            #[trigger] holds_name(final(v)@, s) <==> (holds_name(old(v)@, s) || s == x@),
{
    let n = v.len();
    let mut p: usize = 0;
    while p < n && str_lt(v[p].as_str(), x.as_str())
        invariant
            n == v@.len(),
            v@ == old(v)@,
            0 <= p <= n,
            forall|i: int| 0 <= i < p ==> lex_lt(#[trigger] v@[i]@, x@),
        decreases n - p,
    {
        p = p + 1;
    }
    if p < n && crate::text::str_eq(v[p].as_str(), x.as_str()) {
        assert(v@[p as int]@ == x@);
        return;
    }
    let ghost before = v@;
    let ghost xv = x@;
    proof {
        if p < n {
            lemma_lex_order(before[p as int]@, xv, xv);
            lemma_lex_order(xv, before[p as int]@, xv);
            assert(lex_lt(xv, before[p as int]@));
        }
    }
    v.insert(p, x);
    assert forall|i: int, j: int| 0 <= i < j < v@.len() implies lex_lt(v@[i]@, v@[j]@) by {
        if i < p && j == p {
        } else if i < p && j > p {
            lemma_lex_order(v@[i]@, xv, v@[j]@);
            if j > p + 1 {
                lemma_lex_order(xv, before[p as int]@, before[j - 1]@);
            }
            assert(lex_lt(xv, v@[j]@));
        } else if i == p && j > p + 1 {
            lemma_lex_order(xv, before[p as int]@, before[j - 1]@);
        } else if i > p {
            assert(v@[i] == before[i - 1] && v@[j] == before[j - 1]);
        } else if i < p && j < p {
            assert(v@[i] == before[i] && v@[j] == before[j]);
        }
    }
    assert forall|s: Seq<char>| #[trigger] holds_name(v@, s) implies (holds_name(before, s)
        || s == xv) by {
        let k = choose|k: int| 0 <= k < v@.len() && #[trigger] v@[k]@ == s;
        if k < p {
            assert(before[k]@ == s);
        } else if k > p {
            assert(before[k - 1]@ == s);
        }
    }
    assert forall|s: Seq<char>| holds_name(before, s) || s == xv implies #[trigger] holds_name(
        v@,
        s,
    ) by {
        if s == xv {
            assert(v@[p as int]@ == s);
        } else {
            let k = choose|k: int| 0 <= k < before.len() && #[trigger] before[k]@ == s;
            if k < p {
                assert(v@[k]@ == s);
            } else {
                assert(v@[k + 1]@ == s);
            }
        }
    }
}

/// The text shown for a string variable holding a null pointer.
pub open spec fn null_text() -> Seq<char> {
    seq!['<', 'n', 'u', 'l', 'l', '>']
}

/// The longest C string read from the tracee, in bytes.
pub const C_STRING_MAX_LEN: usize = 4096;

/// What the raw word of a variable's slot means.
#[derive(Debug)]
pub enum SlotRead {
    /// The value itself.
    Value(DplValue),
    /// A pointer to a NUL-terminated string still to be read.
    CString { address: u64 },
}

/// Interprets the word `raw` read from a slot of kind `kind`.
pub fn decode_slot(kind: VarKind, raw: i64) -> (r: SlotRead)
    ensures
        match kind {
            VarKind::Int => r == SlotRead::Value(DplValue::Int(raw)),
            VarKind::Float => r == SlotRead::Value(DplValue::Float(raw as u64)),
            VarKind::String => if raw == 0 {
                r matches SlotRead::Value(DplValue::String(s)) && s@ == null_text()
            } else {
                r == SlotRead::CString { address: raw as u64 }
            },
        },
{
    match kind {
        VarKind::Int => SlotRead::Value(DplValue::Int(raw)),
        VarKind::Float => SlotRead::Value(DplValue::Float(raw as u64)),
        VarKind::String => {
            if raw == 0 {
                let t = "<null>";
                proof {
                    reveal_strlit("<null>");
                }
                let s = String::from_str(t);
                assert(s@ =~= null_text());
                SlotRead::Value(DplValue::String(s))
            } else {
                SlotRead::CString { address: raw as u64 }
            }
        },
    }
}

/// The address of the stack slot at `rbp - rbp_offset` (the subtraction
/// is done in `i64`, whose range it must stay in; the result is that
/// difference taken modulo 2^64).
pub fn slot_address(rbp: u64, rbp_offset: i32) -> (a: u64)
    requires
        i64::MIN <= (rbp as i64) - rbp_offset <= i64::MAX,
    ensures
        a as int == ((rbp as int) - (rbp_offset as int)) % 0x1_0000_0000_0000_0000int,
{
    let d: i64 = (rbp as i64) - (rbp_offset as i64);
    let a = d as u64;
    assert(((rbp as i64) - (rbp_offset as i64)) as u64 as int == ((rbp as int) - (
    rbp_offset as int)) % 0x1_0000_0000_0000_0000int) by (bit_vector)
        requires
            i64::MIN <= (rbp as i64) - rbp_offset <= i64::MAX,
    ;
    a
}

/// A stop of the traced process, as `waitpid` reported it.
#[derive(Debug, Clone, Copy, PartialEq, Eq, Structural)]
pub enum StopStatus {
    /// The process exited with this status.
    Exited(i32),
    /// The process was killed by this signal.
    Signaled(i32),
    /// The process stopped on SIGTRAP; `rip` is its instruction pointer.
    Trapped { rip: u64 },
    /// The process stopped on another signal.
    Stopped(i32),
    /// Any other wait status.
    Other,
}

/// The answer to a stop.
#[derive(Debug, Clone, Copy, PartialEq, Eq, Structural)]
pub enum WaitAction {
    /// Report this event: the wait is over.
    Report(DebugEvent),
    /// One of our INT3 patches at `addr` was hit by statement `stmt_idx`:
    /// restore it, set the instruction pointer back to `addr`, and stop
    /// there.
    Rewind { stmt_idx: usize, addr: u64 },
    /// Not a stop of ours: continue the process, delivering this signal.
    Resume(Option<i32>),
}

/// The answer to `status`, given the reverse address table `stops` and the
/// patches in place: a trap just past one of our patches at a statement
/// address is a stop there.
pub open spec fn stop_action(
    stops: Map<u64, usize>,
    patches: Map<u64, u8>,
    status: StopStatus,
) -> WaitAction {
    match status {
        StopStatus::Exited(code) => WaitAction::Report(DebugEvent::Exited { status: code }),
        StopStatus::Signaled(sig) => WaitAction::Report(DebugEvent::Signaled { signal: sig }),
        StopStatus::Trapped { rip } => {
            let hit = (rip - 1) as u64;
            if patches.contains_key(hit) && stops.contains_key(hit) {
                WaitAction::Rewind { stmt_idx: stops[hit], addr: hit }
            } else {
                WaitAction::Resume(None)
            }
        },
        StopStatus::Stopped(sig) => WaitAction::Resume(Some(sig)),
        StopStatus::Other => WaitAction::Resume(None),
    }
}

/// The end of the program that a stop reports, if it reports one.
pub open spec fn program_end(status: StopStatus) -> Option<DebugEvent> {
    match status {
        StopStatus::Exited(code) => Some(DebugEvent::Exited { status: code }),
        StopStatus::Signaled(sig) => Some(DebugEvent::Signaled { signal: sig }),
        _ => None,
    }
}

/// What the stop after single-stepping over a user breakpoint means: the
/// end of the program when it exited or was killed meanwhile, otherwise
/// nothing (the expected single-step trap).
pub fn single_step_outcome(status: StopStatus) -> (r: Option<DebugEvent>)
    ensures
        r == program_end(status),
        status matches StopStatus::Exited(c) ==> r == Some(DebugEvent::Exited { status: c }),
        status matches StopStatus::Signaled(s) ==> r == Some(DebugEvent::Signaled { signal: s }),
{
    match status {
        StopStatus::Exited(code) => Some(DebugEvent::Exited { status: code }),
        StopStatus::Signaled(sig) => Some(DebugEvent::Signaled { signal: sig }),
        _ => None,
    }
}

/// A stop on any signal other than the trap is never swallowed: the
/// process is continued with that same signal, whatever the patches.
pub proof fn other_signals_are_forwarded(stops: Map<u64, usize>, patches: Map<u64, u8>, sig: i32)
    ensures
        stop_action(stops, patches, StopStatus::Stopped(sig)) == WaitAction::Resume(Some(sig)),
{
}

/// The end of the program is reported with the status or signal the wait
/// gave, the same whether it came during a single step or while running;
/// any other stop is no end.
pub proof fn program_end_reports_wait_status(
    stops: Map<u64, usize>,
    patches: Map<u64, u8>,
    status: StopStatus,
)
    ensures
        status matches StopStatus::Exited(c) ==> program_end(status) == Some(
            DebugEvent::Exited { status: c },
        ),
        status matches StopStatus::Signaled(s) ==> program_end(status) == Some(
            DebugEvent::Signaled { signal: s },
        ),
        !(status is Exited || status is Signaled) ==> program_end(status) is None,
        program_end(status) matches Some(ev) ==> stop_action(stops, patches, status)
            == WaitAction::Report(ev),
        stop_action(stops, patches, status) matches WaitAction::Report(ev) ==> program_end(status)
            == Some(ev),
{
}

/// Each element is smaller than the next.
pub open spec fn strictly_increasing(s: Seq<u64>) -> bool {
    forall|i: int, j: int| 0 <= i < j < s.len() ==> s[i] < s[j]
}

/// Adds `x` to a strictly increasing vector, keeping it so.
pub(crate) fn insert_sorted(v: &mut Vec<u64>, x: u64)
    requires
        strictly_increasing(old(v)@),
    ensures
        strictly_increasing(final(v)@),
        forall|a: u64| final(v)@.contains(a) <==> (old(v)@.contains(a) || a == x),
{
    let n = v.len();
    let mut p: usize = 0;
    while p < n && v[p] < x
        invariant
            n == v@.len(),
            v@ == old(v)@,
            0 <= p <= n,
            forall|i: int| 0 <= i < p ==> v@[i] < x,
        decreases n - p,
    {
        p = p + 1;
    }
    if p < n && v[p] == x {
        assert(v@[p as int] == x);
        assert(v@.contains(x));
        return;
    }
    let ghost before = v@;
    assert(before == old(v)@);
    v.insert(p, x);
    assert forall|a: u64| #[trigger] v@.contains(a) implies (before.contains(a) || a == x) by {
        let k = choose|k: int| 0 <= k < v@.len() && v@[k] == a;
        if k < p {
            assert(before[k] == a);
        } else if k > p {
            assert(before[k - 1] == a);
        }
    }
    assert forall|a: u64| before.contains(a) || a == x implies #[trigger] v@.contains(a) by {
        if a == x {
            assert(v@[p as int] == a);
        } else {
            let k = choose|k: int| 0 <= k < before.len() && before[k] == a;
            if k < p {
                assert(v@[k] == a);
            } else {
                assert(v@[k + 1] == a);
            }
        }
    }
}

/// Reverse lookup of statement addresses: an address is in the table when
/// it is the nonzero address of some statement, and it then names the last
/// statement with that address.
pub proof fn lemma_addr_index(addrs: Seq<u64>, a: u64)
    requires
        addrs.len() <= usize::MAX,
    ensures
        addr_index(addrs).contains_key(a) <==> (a != 0 && exists|i: int|
            0 <= i < addrs.len() && addrs[i] == a),
        addr_index(addrs).contains_key(a) ==> {
            let i = addr_index(addrs)[a] as int;
            &&& 0 <= i < addrs.len()
            &&& addrs[i] == a
            &&& forall|j: int| i < j < addrs.len() ==> addrs[j] != a
        },
    decreases addrs.len(),
{
    if addrs.len() > 0 {
        let pre = addrs.drop_last();
        lemma_addr_index(pre, a);
        if addrs.last() == a && a != 0 {
            assert(addrs[addrs.len() - 1] == a);
        } else if addr_index(pre).contains_key(a) {
            let i = addr_index(pre)[a] as int;
            assert(addrs[i] == a);
            assert forall|j: int| i < j < addrs.len() implies addrs[j] != a by {
                if j < addrs.len() - 1 {
                    assert(pre[j] == addrs[j]);
                }
            }
        } else if a != 0 && exists|i: int| 0 <= i < addrs.len() && addrs[i] == a {
            let i = choose|i: int| 0 <= i < addrs.len() && addrs[i] == a;
            assert(pre[i] == a);
        }
    }
}

/// A breakpoint trap is attributed to the statement it was planted for: a
/// SIGTRAP with the instruction pointer just past address `a` asks for a
/// rewind to `a` exactly when one of our patches is at `a` and `a` is the
/// nonzero address of a statement, and the statement it names has that
/// address; any other SIGTRAP is continued without a signal.
pub proof fn trap_maps_to_statement(d: Debugger, a: u64)
    requires
        d.wf(),
        a < u64::MAX,
    ensures
        stop_action(d.stop_table(), d.patches(), StopStatus::Trapped { rip: (a + 1) as u64 })
            is Rewind <==> (d.patches().contains_key(a) && is_stmt_addr(d.stmt_addresses@, a)),
        stop_action(d.stop_table(), d.patches(), StopStatus::Trapped { rip: (a + 1) as u64 })
            matches WaitAction::Rewind { stmt_idx, addr } ==> addr == a && stmt_idx
            < d.num_stmts() && d.stmt_addresses@[stmt_idx as int] == a,
        !(stop_action(d.stop_table(), d.patches(), StopStatus::Trapped { rip: (a + 1) as u64 })
            is Rewind) ==> stop_action(
            d.stop_table(),
            d.patches(),
            StopStatus::Trapped { rip: (a + 1) as u64 },
        ) == WaitAction::Resume(None),
{
    lemma_addr_index(d.stmt_addresses@, a);
}

/// Two tables at rest over the same breakpoints hold patches at the same
/// addresses: where INT3 sits depends only on which breakpoints are set, the
/// launch breakpoint and where execution stands. So toggling a line twice,
/// which gives back the same user breakpoints, gives back the same patches.
pub proof fn at_rest_patches_agree(d1: Debugger, d2: Debugger)
    requires
        d1.at_rest(),
        d2.at_rest(),
        !d1.exited,
        !d2.exited,
        d1.stmt_addresses@ == d2.stmt_addresses@,
        d1.user_breakpoints@ == d2.user_breakpoints@,
        d1.auto_breakpoint == d2.auto_breakpoint,
        d1.current_stmt == d2.current_stmt,
    ensures
        d1.patches().dom() == d2.patches().dom(),
{
    assert forall|a: u64| d1.patches().contains_key(a) <==> d2.patches().contains_key(a) by {
        assert(d1.should_patch(a) == d2.should_patch(a));
    }
    assert(d1.patches().dom() =~= d2.patches().dom());
}

/// The statement a line resolves to is unique.
pub proof fn nearest_stmt_is_unique(stmts: Seq<StmtEntry>, line: u32, i: int, j: int)
    requires
        is_nearest_stmt(stmts, line, i),
        is_nearest_stmt(stmts, line, j),
    ensures
        i == j,
{
    if i < j {
        assert(line_distance_of(stmts, line, i) <= line_distance_of(stmts, line, j));
    } else if j < i {
        assert(line_distance_of(stmts, line, j) <= line_distance_of(stmts, line, i));
    }
}

spec fn line_distance_of(stmts: Seq<StmtEntry>, line: u32, i: int) -> nat {
    crate::source_map::line_distance(stmts[i].line, line)
}

/// Toggling the breakpoint of the same source line twice leaves the user
/// breakpoints as they were: both toggles resolve the line to the same
/// statement, and the second undoes the first.
pub proof fn toggle_twice_restores(
    stmts: Seq<StmtEntry>,
    line: u32,
    i: usize,
    j: usize,
    bps: Set<usize>,
)
    requires
        is_nearest_stmt(stmts, line, i as int),
        is_nearest_stmt(stmts, line, j as int),
    ensures
        toggled(toggled(bps, i), j) == bps,
{
    nearest_stmt_is_unique(stmts, line, i as int, j as int);
    if bps.contains(i) {
        assert(bps.remove(i).insert(i) =~= bps);
    } else {
        assert(bps.insert(i).remove(i) =~= bps);
    }
}

/// Recording a patch at an address that had none and then taking it back
/// returns the saved byte and leaves the patch table as it was.
pub proof fn patch_then_unpatch(patches: Map<u64, u8>, addr: u64, saved: u8)
    requires
        !patches.contains_key(addr),
    ensures
        patches.insert(addr, saved).contains_key(addr),
        patches.insert(addr, saved)[addr] == saved,
        patches.insert(addr, saved).remove(addr) == patches,
{
    assert(patches.insert(addr, saved).remove(addr) =~= patches);
}

/// Toggling the breakpoint of one source line twice, from a table at rest
/// and with each patch the toggles ask for written (so that the table is
/// at rest again after each, as `toggle_breakpoint` and `record_breakpoint`
/// ensure), gives back the same user breakpoints and INT3 at the same
/// addresses. With `breakpoint_roundtrip`, the bytes written back are the
/// program's own.
pub proof fn toggle_twice_restores_table(d0: Debugger, d2: Debugger, line: u32, i: usize, j: usize)
    requires
        d0.wf(),
        d0.at_rest(),
        d2.at_rest(),
        !d0.exited,
        !d2.exited,
        is_nearest_stmt(d0.source_map.statements@, line, i as int),
        is_nearest_stmt(d0.source_map.statements@, line, j as int),
        d2.stmt_addresses@ == d0.stmt_addresses@,
        d2.auto_breakpoint == d0.auto_breakpoint,
        d2.current_stmt == d0.current_stmt,
        d2.user_breakpoints@ == toggled(toggled(d0.user_breakpoints@, i), j),
    ensures
        d2.user_breakpoints@ == d0.user_breakpoints@,
        d2.patches().dom() == d0.patches().dom(),
{
    toggle_twice_restores(d0.source_map.statements@, line, i, j, d0.user_breakpoints@);
    at_rest_patches_agree(d0, d2);
}

} // verus!
