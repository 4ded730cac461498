use dpl_debugger::elf_map::{resolve_stmt_addresses, stmt_labels, ElfError, ElfSymbol, LabelTable};
use dpl_debugger::source_map::{SourceMap, StmtEntry, VarEntry, VarKind};

fn stmt(label: &str, line: u32) -> StmtEntry {
    StmtEntry { label: label.to_string(), line }
}

fn map_with_lines(lines: &[u32]) -> SourceMap {
    SourceMap {
        statements: lines
            .iter()
            .enumerate()
            .map(|(i, &l)| stmt(&format!("dpl_stmt_{i}"), l))
            .collect(),
        variables: Vec::new(),
    }
}

#[test]
fn stmt_idx_for_line_empty_map_has_none() {
    let m = map_with_lines(&[]);
    assert_eq!(m.stmt_idx_for_line(3), None);
}

#[test]
fn stmt_idx_for_line_exact_match() {
    let m = map_with_lines(&[2, 4, 6, 9]);
    assert_eq!(m.stmt_idx_for_line(6), Some(2));
}

#[test]
fn stmt_idx_for_line_nearest_below_and_above() {
    let m = map_with_lines(&[2, 4, 6, 9]);
    assert_eq!(m.stmt_idx_for_line(8), Some(3));
    assert_eq!(m.stmt_idx_for_line(100), Some(3));
    assert_eq!(m.stmt_idx_for_line(0), Some(0));
}

#[test]
fn stmt_idx_for_line_tie_takes_first() {
    let m = map_with_lines(&[2, 4, 6, 9]);
    // line 5 is at distance 1 from both line 4 and line 6
    assert_eq!(m.stmt_idx_for_line(5), Some(1));
    // duplicate lines: the first statement wins
    let d = map_with_lines(&[7, 7, 7]);
    assert_eq!(d.stmt_idx_for_line(7), Some(0));
}

#[test]
fn stmt_idx_for_line_extreme_values() {
    let m = map_with_lines(&[0, u32::MAX]);
    assert_eq!(m.stmt_idx_for_line(u32::MAX - 1), Some(1));
    assert_eq!(m.stmt_idx_for_line(1), Some(0));
}

#[test]
fn find_variable_takes_first_binding() {
    let m = SourceMap {
        statements: Vec::new(),
        variables: vec![
            ("a".to_string(), VarEntry { rbp_offset: 8, kind: VarKind::Int }),
            ("b".to_string(), VarEntry { rbp_offset: 16, kind: VarKind::Float }),
            ("a".to_string(), VarEntry { rbp_offset: 24, kind: VarKind::String }),
        ],
    };
    assert_eq!(m.find_variable("a"), Some(VarEntry { rbp_offset: 8, kind: VarKind::Int }));
    assert_eq!(m.find_variable("b"), Some(VarEntry { rbp_offset: 16, kind: VarKind::Float }));
    assert_eq!(m.find_variable("c"), None);
    assert_eq!(m.find_variable(""), None);
}

fn sym(name: Option<&str>, address: u64) -> ElfSymbol {
    ElfSymbol { name: name.map(|n| n.to_string()), address }
}

fn lookup(t: &LabelTable, label: &str) -> Option<u64> {
    t.get(label)
}

#[test]
fn stmt_labels_keeps_statement_symbols_only() {
    let syms = vec![
        sym(Some("main"), 0x401000),
        sym(Some("dpl_stmt_0"), 0x401010),
        sym(None, 0x401020),
        sym(Some("dpl_stmt_1"), 0),
        sym(Some("dpl_stmt_2"), 0x401030),
        sym(Some("dpl_stm"), 0x401040),
        sym(Some("xdpl_stmt_3"), 0x401050),
    ];
    let t = stmt_labels(&syms);
    assert_eq!(t.len(), 2);
    assert_eq!(lookup(&t, "dpl_stmt_0"), Some(0x401010));
    assert_eq!(lookup(&t, "dpl_stmt_2"), Some(0x401030));
    assert_eq!(lookup(&t, "dpl_stmt_1"), None);
    assert_eq!(lookup(&t, "main"), None);
    assert_eq!(lookup(&t, "xdpl_stmt_3"), None);
}

#[test]
fn stmt_labels_later_symbol_replaces_earlier() {
    let syms = vec![
        sym(Some("dpl_stmt_0"), 0x10),
        sym(Some("dpl_stmt_1"), 0x20),
        sym(Some("dpl_stmt_0"), 0x30),
        sym(Some("dpl_stmt_0"), 0),
    ];
    let t = stmt_labels(&syms);
    assert_eq!(t.len(), 2);
    assert_eq!(lookup(&t, "dpl_stmt_0"), Some(0x30));
    assert_eq!(lookup(&t, "dpl_stmt_1"), Some(0x20));
}

#[test]
fn stmt_labels_bare_prefix_is_a_label() {
    let t = stmt_labels(&vec![sym(Some("dpl_stmt_"), 0x99)]);
    assert_eq!(lookup(&t, "dpl_stmt_"), Some(0x99));
}

/// A minimal little-endian ELF64 object with a symbol table.
fn elf_with_symbols(symbols: &[(&str, u64)]) -> Vec<u8> {
    let mut strtab: Vec<u8> = vec![0];
    let mut name_offsets = Vec::new();
    for (name, _) in symbols {
        name_offsets.push(strtab.len() as u32);
        strtab.extend_from_slice(name.as_bytes());
        strtab.push(0);
    }
    let mut symtab: Vec<u8> = vec![0; 24];
    for (i, (_, addr)) in symbols.iter().enumerate() {
        let mut e = vec![0u8; 24];
        e[0..4].copy_from_slice(&name_offsets[i].to_le_bytes());
        e[4] = 0x10; // STB_GLOBAL, STT_NOTYPE
        e[6..8].copy_from_slice(&0xfff1u16.to_le_bytes()); // SHN_ABS
        e[8..16].copy_from_slice(&addr.to_le_bytes());
        symtab.extend_from_slice(&e);
    }
    let shstrtab: Vec<u8> = b"\0.symtab\0.strtab\0.shstrtab\0".to_vec();

    let symtab_off = 64usize;
    let strtab_off = symtab_off + symtab.len();
    let shstrtab_off = strtab_off + strtab.len();
    let mut shoff = shstrtab_off + shstrtab.len();
    shoff = (shoff + 7) & !7;

    let mut out = vec![0u8; 64];
    out[0..4].copy_from_slice(b"\x7fELF");
    out[4] = 2; // ELFCLASS64
    out[5] = 1; // little endian
    out[6] = 1; // EV_CURRENT
    out[16..18].copy_from_slice(&2u16.to_le_bytes()); // ET_EXEC
    out[18..20].copy_from_slice(&62u16.to_le_bytes()); // EM_X86_64
    out[20..24].copy_from_slice(&1u32.to_le_bytes());
    out[40..48].copy_from_slice(&(shoff as u64).to_le_bytes());
    out[52..54].copy_from_slice(&64u16.to_le_bytes()); // e_ehsize
    out[58..60].copy_from_slice(&64u16.to_le_bytes()); // e_shentsize
    out[60..62].copy_from_slice(&4u16.to_le_bytes()); // e_shnum
    out[62..64].copy_from_slice(&3u16.to_le_bytes()); // e_shstrndx
    out.extend_from_slice(&symtab);
    out.extend_from_slice(&strtab);
    out.extend_from_slice(&shstrtab);
    while out.len() < shoff {
        out.push(0);
    }

    let section = |name: u32, kind: u32, off: usize, size: usize, link: u32, info: u32, align: u64, entsize: u64| {
        let mut h = vec![0u8; 64];
        h[0..4].copy_from_slice(&name.to_le_bytes());
        h[4..8].copy_from_slice(&kind.to_le_bytes());
        h[24..32].copy_from_slice(&(off as u64).to_le_bytes());
        h[32..40].copy_from_slice(&(size as u64).to_le_bytes());
        h[40..44].copy_from_slice(&link.to_le_bytes());
        h[44..48].copy_from_slice(&info.to_le_bytes());
        h[48..56].copy_from_slice(&align.to_le_bytes());
        h[56..64].copy_from_slice(&entsize.to_le_bytes());
        h
    };
    out.extend_from_slice(&vec![0u8; 64]);
    out.extend_from_slice(&section(1, 2, symtab_off, symtab.len(), 2, 1, 8, 24));
    out.extend_from_slice(&section(9, 3, strtab_off, strtab.len(), 0, 0, 1, 0));
    out.extend_from_slice(&section(17, 3, shstrtab_off, shstrtab.len(), 0, 0, 1, 0));
    out
}

#[test]
fn resolve_stmt_addresses_reads_elf_symbols() {
    let data = elf_with_symbols(&[
        ("main", 0x401000),
        ("dpl_stmt_0", 0x401126),
        ("dpl_stmt_1", 0x401130),
        ("dpl_stmt_2", 0),
    ]);
    let table = match resolve_stmt_addresses(&data) {
        Ok(t) => t,
        Err(e) => panic!("unexpected error {e:?}"),
    };
    assert_eq!(table.len(), 2);
    assert_eq!(table.get("dpl_stmt_0"), Some(0x401126));
    assert_eq!(table.get("dpl_stmt_1"), Some(0x401130));
    assert_eq!(table.get("dpl_stmt_2"), None);
    assert_eq!(table.get("main"), None);
}

#[test]
fn resolve_stmt_addresses_rejects_garbage() {
    let r = resolve_stmt_addresses(b"definitely not an object file");
    match r {
        Err(ElfError::Unparsable(msg)) => assert!(!msg.is_empty()),
        Ok(_) => panic!("garbage parsed"),
    }
    assert!(matches!(resolve_stmt_addresses(&[]), Err(ElfError::Unparsable(_))));
}

#[test]
fn distinct_variable_names() {
    let mut m = SourceMap {
        statements: Vec::new(),
        variables: vec![
            ("a".to_string(), VarEntry { rbp_offset: 8, kind: VarKind::Int }),
            ("a`".to_string(), VarEntry { rbp_offset: 16, kind: VarKind::Int }),
        ],
    };
    assert!(m.has_distinct_names());
    m.variables.push(("a".to_string(), VarEntry { rbp_offset: 24, kind: VarKind::Int }));
    assert!(!m.has_distinct_names());
    assert!(SourceMap { statements: Vec::new(), variables: Vec::new() }.has_distinct_names());
}
