//! The compiler-emitted source map: statement labels with their source
//! lines, and stack slots of the program's variables.

use vstd::prelude::*;

verus! {

/// One DPL statement entry in the map file.
/// `label` is the assembly symbol (e.g. `dpl_stmt_3`),
/// `line` is the 1-based source line it corresponds to.
#[derive(Debug)]
pub struct StmtEntry {
    pub label: String,
    pub line: u32,
}

/// How a variable is stored on the stack.
#[derive(Debug, Clone, Copy, PartialEq, Eq, Structural)]
pub enum VarKind {
    Int,
    Float,
    String,
}

/// Stack location and type for one variable.
#[derive(Debug, Clone, Copy, PartialEq, Eq, Structural)]
pub struct VarEntry {
    /// Positive offset: the variable lives at `[rbp - rbp_offset]`.
    pub rbp_offset: i32,
    pub kind: VarKind,
}

/// The full source map produced by the compiler alongside the `.s` file.
///
/// `variables` holds the name → slot table as pairs, each name once (the map
/// file holds them as the keys of one JSON object).
#[derive(Debug)]
pub struct SourceMap {
    pub statements: Vec<StmtEntry>,
    pub variables: Vec<(String, VarEntry)>,
}

/// Distance between two source lines.
pub open spec fn line_distance(a: u32, b: u32) -> nat {
    if a >= b {
        (a - b) as nat
    } else {
        (b - a) as nat
    }
}

/// `i` is the first index whose line is closest to `line`.
pub open spec fn is_nearest_stmt(stmts: Seq<StmtEntry>, line: u32, i: int) -> bool {
    &&& 0 <= i < stmts.len()
    &&& forall|j: int|
        0 <= j < stmts.len() ==> line_distance(stmts[i].line, line) <= line_distance(
            #[trigger] stmts[j].line,
            line,
        )
    &&& forall|j: int|
        0 <= j < i ==> line_distance(stmts[i].line, line) < line_distance(
            #[trigger] stmts[j].line,
            line,
        )
}

/// The entry that `name` is bound to: the first pair with that name.
pub open spec fn lookup_var(vars: Seq<(String, VarEntry)>, name: Seq<char>) -> Option<VarEntry>
    decreases vars.len(),
{
    if vars.len() == 0 {
        None
    } else if vars[0].0@ == name {
        Some(vars[0].1)
    } else {
        lookup_var(vars.drop_first(), name)
    }
}

/// A lookup matches names exactly: it finds an entry exactly when some pair
/// carries `name` itself, and then it gives the entry of the first such pair.
pub proof fn lookup_var_matches_exact_name(vars: Seq<(String, VarEntry)>, name: Seq<char>)
    ensures
        lookup_var(vars, name) is None <==> forall|i: int|
            0 <= i < vars.len() ==> (#[trigger] vars[i]).0@ != name,
        lookup_var(vars, name) matches Some(e) ==> exists|i: int|
            0 <= i < vars.len() && (#[trigger] vars[i]).0@ == name && vars[i].1 == e && forall|
                j: int,
            | 0 <= j < i ==> (#[trigger] vars[j]).0@ != name,
    decreases vars.len(),
{
    if vars.len() > 0 {
        let rest = vars.drop_first();
        lookup_var_matches_exact_name(rest, name);
        if vars[0].0@ == name {
            assert(vars[0].0@ == name);
        } else {
            assert forall|i: int| 0 <= i < rest.len() implies #[trigger] rest[i] == vars[i + 1] by {}
            if lookup_var(rest, name) is None {
                assert forall|i: int| 0 <= i < vars.len() implies (#[trigger] vars[i]).0@ != name by {
                    if i > 0 {
                        assert(rest[i - 1] == vars[i]);
                    }
                }
            } else {
                let i = choose|i: int|
                    0 <= i < rest.len() && (#[trigger] rest[i]).0@ == name && rest[i].1
                        == lookup_var(rest, name).unwrap() && forall|j: int|
                        0 <= j < i ==> (#[trigger] rest[j]).0@ != name;
                assert(vars[i + 1] == rest[i]);
                assert forall|j: int| 0 <= j < i + 1 implies (#[trigger] vars[j]).0@ != name by {
                    if j > 0 {
                        assert(rest[j - 1] == vars[j]);
                    }
                }
            }
        }
    }
}

/// Where no name occurs twice, the variable bound to `name` is the one whose
/// pair carries exactly that name.
pub proof fn lookup_var_finds_named_entry(vars: Seq<(String, VarEntry)>, name: Seq<char>, i: int)
    requires
        forall|p: int, q: int| 0 <= p < q < vars.len() ==> vars[p].0@ != vars[q].0@,
        0 <= i < vars.len(),
        vars[i].0@ == name,
    ensures
        lookup_var(vars, name) == Some(vars[i].1),
{
    lookup_var_matches_exact_name(vars, name);
    assert(vars[i].0@ == name);
    let k = choose|k: int|
        0 <= k < vars.len() && (#[trigger] vars[k]).0@ == name && vars[k].1 == lookup_var(
            vars,
            name,
        ).unwrap() && forall|j: int| 0 <= j < k ==> (#[trigger] vars[j]).0@ != name;
    if k < i {
        assert(vars[k].0@ != vars[i].0@);
    } else if i < k {
        assert(vars[i].0@ != name);
    }
}

fn abs_diff_u32(a: u32, b: u32) -> (d: u32)
    ensures
        d == line_distance(a, b),
{
    if a >= b {
        a - b
    } else {
        b - a
    }
}

impl SourceMap {
    /// No variable name occurs twice.
    pub open spec fn wf(&self) -> bool {
        forall|i: int, j: int|
            0 <= i < j < self.variables@.len() ==> self.variables@[i].0@
                != self.variables@[j].0@
    }

    /// Whether no variable name occurs twice.
    pub fn has_distinct_names(&self) -> (r: bool)
        ensures
            r == self.wf(),
    {
        let n = self.variables.len();
        let mut i: usize = 0;
        while i < n
            invariant
                n == self.variables@.len(),
                0 <= i <= n,
                forall|a: int, b: int|
                    0 <= a < b < n && a < i ==> self.variables@[a].0@ != self.variables@[b].0@,
            decreases n - i,
        {
            let mut j: usize = i + 1;
            while j < n
                invariant
                    n == self.variables@.len(),
                    0 <= i < n,
                    i + 1 <= j <= n,
                    forall|a: int, b: int|
                        0 <= a < b < n && a < i ==> self.variables@[a].0@ != self.variables@[b].0@,
                    forall|b: int| i < b < j ==> self.variables@[i as int].0@ != self.variables@[b].0@,
                decreases n - j,
            {
                if crate::text::str_eq(self.variables[i].0.as_str(), self.variables[j].0.as_str()) {
                    return false;
                }
                j = j + 1;
            }
            i = i + 1;
        }
        true
    }

    /// Return the index of the statement whose line is closest to `line`
    /// (the first one on a tie), or `None` when there are no statements.
    pub fn stmt_idx_for_line(&self, line: u32) -> (r: Option<usize>)
        ensures
            r is None <==> self.statements@.len() == 0,
            r matches Some(i) ==> is_nearest_stmt(self.statements@, line, i as int),
    {
        let n = self.statements.len();
        if n == 0 {
            return None;
        }
        let mut best: usize = 0;
        let mut best_d: u32 = abs_diff_u32(self.statements[0].line, line);
        let mut k: usize = 1;
        while k < n
            invariant
                n == self.statements@.len(),
                1 <= k <= n,
                best < k,
                best_d == line_distance(self.statements@[best as int].line, line),
                forall|j: int|
                    0 <= j < k ==> line_distance(self.statements@[best as int].line, line)
                        <= line_distance(#[trigger] self.statements@[j].line, line),
                forall|j: int|
                    0 <= j < best ==> line_distance(self.statements@[best as int].line, line)
                        < line_distance(#[trigger] self.statements@[j].line, line),
            decreases n - k,
        {
            let d = abs_diff_u32(self.statements[k].line, line);
            if d < best_d {
                best = k;
                best_d = d;
            }
            k = k + 1;
        }
        Some(best)
    }

    /// The slot of variable `name`, if the map has one.
    pub fn find_variable(&self, name: &str) -> (r: Option<VarEntry>)
        ensures
            r == lookup_var(self.variables@, name@),
            r is None <==> forall|i: int|
                0 <= i < self.variables@.len() ==> (#[trigger] self.variables@[i]).0@ != name@,
            r matches Some(e) ==> exists|i: int|
                0 <= i < self.variables@.len() && (#[trigger] self.variables@[i]).0@ == name@
                    && self.variables@[i].1 == e,
    {
        proof {
            lookup_var_matches_exact_name(self.variables@, name@);
        }
        let n = self.variables.len();
        let mut k: usize = 0;
        assert(self.variables@.subrange(0, n as int) =~= self.variables@);
        while k < n
            invariant
                n == self.variables@.len(),
                0 <= k <= n,
                lookup_var(self.variables@, name@) == lookup_var(
                    self.variables@.subrange(k as int, n as int),
                    name@,
                ),
            decreases n - k,
        {
            let ghost rest = self.variables@.subrange(k as int, n as int);
            assert(rest.drop_first() =~= self.variables@.subrange(k + 1, n as int));
            if crate::text::str_eq(self.variables[k].0.as_str(), name) {
                return Some(self.variables[k].1);
            }
            k = k + 1;
        }
        None
    }
}

} // verus!
