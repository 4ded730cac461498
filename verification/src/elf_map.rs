//! Statement labels read from the symbol table of the compiled program.
//! The binary is linked without PIE, so a symbol's address in `.symtab` is
//! its address at run time.

use object::{Object, ObjectSymbol};
use vstd::prelude::*;

use crate::text::{has_prefix, str_starts_with};

verus! {

#[verifier::external_type_specification]
#[verifier::external_body]
pub struct ExObjectReadError(object::read::Error);

/// One entry of an object file's symbol table: its name, when the name is
/// valid UTF-8, and its address.
pub struct ElfSymbol {
    pub name: Option<String>,
    pub address: u64,
}

impl View for ElfSymbol {
    type V = (Option<Seq<char>>, u64);

    open spec fn view(&self) -> (Option<Seq<char>>, u64) {
        (
            match self.name {
                Some(n) => Some(n@),
                None => None,
            },
            self.address,
        )
    }
}

/// Why the symbol table could not be read.
#[derive(Debug)]
pub enum ElfError {
    /// The bytes are not an object file that can be parsed; the text is
    /// the parser's own description.
    Unparsable(String),
}

/// The symbol table (in the parser's order) of the object file held in
/// `data`, or `None` when `data` cannot be parsed.
pub uninterp spec fn elf_symbol_table(data: Seq<u8>) -> Option<Seq<(Option<Seq<char>>, u64)>>;

/// Parses `data` with `object::File::parse` and lists every symbol of
/// `Object::symbols` with `ObjectSymbol::name` (kept when it is `Ok`) and
/// `ObjectSymbol::address`. Trusted: the result is the named symbol table
/// of `data`, and the call fails exactly when that table does not exist.
#[verifier::external_body]
fn read_elf_symbols(data: &[u8]) -> (r: Result<Vec<ElfSymbol>, object::read::Error>)
    ensures
        match r {
            Ok(v) => elf_symbol_table(data@) == Some(v@.map_values(|s: ElfSymbol| s@)),
            Err(_) => elf_symbol_table(data@) is None,
        },
{
    let file = object::File::parse(data)?;
    let mut out = Vec::new();
    for sym in file.symbols() {
        out.push(ElfSymbol { name: sym.name().ok().map(|n| n.to_string()), address: sym.address() });
    }
    Ok(out)
}

/// The text of a parse error, as `Display` for `object::read::Error` writes
/// it. Trusted with no claim on the text.
#[verifier::external_body]
fn object_error_text(e: &object::read::Error) -> String {
    e.to_string()
}

/// The assembly labels that mark DPL statements: `dpl_stmt_` and a suffix.
pub open spec fn stmt_label_prefix() -> Seq<char> {
    seq!['d', 'p', 'l', '_', 's', 't', 'm', 't', '_']
}

/// A symbol that marks a statement: a statement label at a nonzero address.
pub open spec fn is_stmt_symbol(sym: (Option<Seq<char>>, u64)) -> bool {
    &&& sym.0 matches Some(n) && has_prefix(n, stmt_label_prefix())
    &&& sym.1 != 0
}

/// The address recorded for label `name` after entering the statement
/// symbols of `syms` in order, a later symbol replacing an earlier one.
pub open spec fn label_address(syms: Seq<(Option<Seq<char>>, u64)>, name: Seq<char>) -> Option<u64>
    decreases syms.len(),
{
    if syms.len() == 0 {
        None
    } else {
        let last = syms.last();
        if is_stmt_symbol(last) && last.0 == Some(name) {
            Some(last.1)
        } else {
            label_address(syms.drop_last(), name)
        }
    }
}

/// The address of the first entry named `name`.
pub open spec fn label_lookup(entries: Seq<(String, u64)>, name: Seq<char>) -> Option<u64>
    decreases entries.len(),
{
    if entries.len() == 0 {
        None
    } else if entries[0].0@ == name {
        Some(entries[0].1)
    } else {
        label_lookup(entries.drop_first(), name)
    }
}

/// Statement labels and their addresses, one entry per label.
pub struct LabelTable {
    pub entries: Vec<(String, u64)>,
}

impl LabelTable {
    /// No label occurs twice.
    pub open spec fn distinct(&self) -> bool {
        forall|i: int, j: int|
            0 <= i < j < self.entries@.len() ==> self.entries@[i].0@ != self.entries@[j].0@
    }

    /// The table holds exactly the labels of `syms`, each with its address.
    pub open spec fn describes(&self, syms: Seq<(Option<Seq<char>>, u64)>) -> bool {
        &&& self.distinct()
        &&& forall|i: int|
            0 <= i < self.entries@.len() ==> label_address(syms, #[trigger] self.entries@[i].0@)
                == Some(self.entries@[i].1)
        &&& forall|name: Seq<char>|
            #[trigger] label_address(syms, name) is Some ==> exists|i: int|
                0 <= i < self.entries@.len() && #[trigger] self.entries@[i].0@ == name
    }

    /// The address of `label`, or `None` when the table has no such label.
    pub fn get(&self, label: &str) -> (r: Option<u64>)
        ensures
            r == label_lookup(self.entries@, label@),
    {
        let n = self.entries.len();
        let mut k: usize = 0;
        assert(self.entries@.subrange(0, n as int) =~= self.entries@);
        while k < n
            invariant
                n == self.entries@.len(),
                0 <= k <= n,
                label_lookup(self.entries@, label@) == label_lookup(
                    self.entries@.subrange(k as int, n as int),
                    label@,
                ),
            decreases n - k,
        {
            let ghost rest = self.entries@.subrange(k as int, n as int);
            assert(rest.drop_first() =~= self.entries@.subrange(k + 1, n as int));
            if crate::text::str_eq(self.entries[k].0.as_str(), label) {
                return Some(self.entries[k].1);
            }
            k = k + 1;
        }
        None
    }

    /// The number of labels in the table.
    pub fn len(&self) -> (r: usize)
        ensures
            r == self.entries@.len(),
    {
        self.entries.len()
    }
}

/// The index of the entry for `label`, if there is one.
fn find_label(entries: &Vec<(String, u64)>, label: &str) -> (r: Option<usize>)
    ensures
        r is None ==> forall|i: int|
            0 <= i < entries@.len() ==> #[trigger] entries@[i].0@ != label@,
        r matches Some(j) ==> j < entries@.len() && entries@[j as int].0@ == label@,
{
    let n = entries.len();
    let mut k: usize = 0;
    while k < n
        invariant
            n == entries@.len(),
            0 <= k <= n,
            forall|i: int| 0 <= i < k ==> #[trigger] entries@[i].0@ != label@,
        decreases n - k,
    {
        if crate::text::str_eq(entries[k].0.as_str(), label) {
            return Some(k);
        }
        k = k + 1;
    }
    None
}

/// Whether `name` is a statement label.
pub fn is_stmt_label(name: &str) -> (r: bool)
    ensures
        r == has_prefix(name@, stmt_label_prefix()),
{
    let prefix = "dpl_stmt_";
    proof {
        reveal_strlit("dpl_stmt_");
        assert(prefix@ =~= stmt_label_prefix());
    }
    str_starts_with(name, prefix)
}

/// Enters the statement symbols of `syms` into a label table, in order; a
/// later symbol with the same label replaces the address of an earlier one.
pub fn stmt_labels(syms: &Vec<ElfSymbol>) -> (t: LabelTable)
    ensures
        t.describes(syms@.map_values(|s: ElfSymbol| s@)),
{
    let ghost all = syms@.map_values(|s: ElfSymbol| s@);
    let mut entries: Vec<(String, u64)> = Vec::new();
    let n = syms.len();
    let mut k: usize = 0;
    while k < n
        invariant
            n == syms@.len(),
            all == syms@.map_values(|s: ElfSymbol| s@),
            0 <= k <= n,
            (LabelTable { entries }).describes(all.subrange(0, k as int)),
        decreases n - k,
    {
        let ghost pre = all.subrange(0, k as int);
        let ghost post = all.subrange(0, k + 1);
        assert(post.drop_last() =~= pre);
        assert(post.last() == all[k as int]);
        let ghost old_entries = entries@;
        match &syms[k].name {
            Some(name) => {
                let addr = syms[k].address;
                if addr != 0 && is_stmt_label(name.as_str()) {
                    assert(is_stmt_symbol(post.last()));
                    let found = find_label(&entries, name.as_str());
                    let label = name.clone();
                    match found {
                        Some(j) => {
                            entries.set(j, (label, addr));
                            assert(entries@[j as int].0@ == name@ && entries@[j as int].1 == addr);
                        },
                        None => {
                            entries.push((label, addr));
                            assert(entries@[old_entries.len() as int].0@ == name@
                                && entries@[old_entries.len() as int].1 == addr);
                        },
                    }
                    assert(forall|i: int|
                        0 <= i < entries@.len() ==> #[trigger] entries@[i].0@ == name@ || (i
                            < old_entries.len() && entries@[i] == old_entries[i]));
                    assert(exists|i: int| 0 <= i < entries@.len() && entries@[i].0@ == name@
                        && entries@[i].1 == addr);
                    assert forall|nm: Seq<char>|
                        #[trigger] label_address(post, nm) is Some implies exists|i: int|
                            0 <= i < entries@.len() && #[trigger] entries@[i].0@ == nm by {
                        if nm != name@ {
                            assert(label_address(post, nm) == label_address(pre, nm));
                            let i = choose|i: int|
                                0 <= i < old_entries.len() && #[trigger] old_entries[i].0@ == nm;
                            assert(entries@[i].0@ == nm);
                        }
                    }
                    assert forall|i: int| 0 <= i < entries@.len() implies label_address(
                        post,
                        #[trigger] entries@[i].0@,
                    ) == Some(entries@[i].1) by {
                        if entries@[i].0@ != name@ {
                            assert(label_address(post, entries@[i].0@) == label_address(
                                pre,
                                old_entries[i].0@,
                            ));
                        }
                    }
                } else {
                    assert(!is_stmt_symbol(post.last()));
                    assert forall|nm: Seq<char>|
                        label_address(post, nm) == label_address(pre, nm) by {}
                }
            },
            None => {
                assert(!is_stmt_symbol(post.last()));
                assert forall|nm: Seq<char>|
                    label_address(post, nm) == label_address(pre, nm) by {}
            },
        }
        k = k + 1;
    }
    assert(all.subrange(0, n as int) =~= all);
    LabelTable { entries }
}

/// Parse the object file held in `data` and return, for every
/// `dpl_stmt_N` symbol with a nonzero address, its label and address.
pub fn resolve_stmt_addresses(data: &[u8]) -> (r: Result<LabelTable, ElfError>)
    ensures
        r is Ok <==> elf_symbol_table(data@) is Some,
        r matches Ok(t) ==> t.describes(elf_symbol_table(data@).unwrap()),
{
    match read_elf_symbols(data) {
        Ok(syms) => Ok(stmt_labels(&syms)),
        Err(e) => Err(ElfError::Unparsable(object_error_text(&e))),
    }
}

} // verus!
