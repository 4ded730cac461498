use dpl_debugger::cstring::CStringReader;

/// Drives a reader against `mem` (bytes starting at `base`), counting the
/// word fetches.
fn read(mem: &[u8], base: u64, addr: u64, max_len: usize) -> (Vec<u8>, Vec<u64>) {
    let mut r = CStringReader::new(addr, max_len);
    let mut fetches = Vec::new();
    while !r.is_finished() {
        assert!(r.next_address_fits());
        if let Some(start) = r.next_fetch() {
            let mut w = [0u8; 8];
            for k in 0..8u64 {
                let a = start + k;
                if a >= base && ((a - base) as usize) < mem.len() {
                    w[k as usize] = mem[(a - base) as usize];
                }
            }
            fetches.push(start);
            r.supply(start, u64::from_le_bytes(w));
        }
        r.advance();
    }
    (r.bytes, fetches)
}

#[test]
fn reads_until_nul() {
    let mut mem = vec![0u8; 32];
    mem[3..9].copy_from_slice(b"hello\0");
    let (bytes, fetches) = read(&mem, 0x1000, 0x1003, 4096);
    assert_eq!(bytes, b"hello".to_vec());
    // one aligned word covers 0x1003..0x1008, the NUL lies in the next word
    assert_eq!(fetches, vec![0x1000, 0x1008]);
}

#[test]
fn stops_at_max_len() {
    let mem = b"abcdefghijklmnop".to_vec();
    let (bytes, _) = read(&mem, 0x2000, 0x2000, 5);
    assert_eq!(bytes, b"abcde".to_vec());
}

#[test]
fn zero_max_len_reads_nothing() {
    let r = CStringReader::new(0x2000, 0);
    assert!(r.is_finished());
    assert!(r.bytes.is_empty());
}

#[test]
fn empty_string() {
    let mem = vec![0u8; 8];
    let (bytes, fetches) = read(&mem, 0x3000, 0x3000, 10);
    assert!(bytes.is_empty());
    assert_eq!(fetches, vec![0x3000]);
}

#[test]
fn reuses_cached_word_and_crosses_words() {
    let mut mem = vec![b'x'; 20];
    mem[19] = 0;
    let (bytes, fetches) = read(&mem, 0x4000, 0x4000, 4096);
    assert_eq!(bytes.len(), 19);
    assert_eq!(fetches, vec![0x4000, 0x4008, 0x4010]);
}

#[test]
fn next_address_fits_at_top_of_memory() {
    let r = CStringReader::new(u64::MAX, 4);
    assert!(r.next_address_fits());
}
