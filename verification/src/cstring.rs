//! Reading a NUL-terminated string out of the tracee's memory, one aligned
//! machine word at a time. The reader decides which word it needs next; the
//! caller fetches it (with a ptrace peek) and supplies it back.

use vstd::prelude::*;

verus! {

/// The start of the aligned 8-byte word that holds byte address `a`.
pub open spec fn word_start(a: u64) -> u64 {
    (a - a % 8) as u64
}

/// Byte `k` (counting from the least significant) of word `w`: the byte at
/// address `start + k` when `w` was read at `start` on a little-endian
/// machine.
pub open spec fn word_byte(w: u64, k: u64) -> u8 {
    ((w >> ((8 * k) as u64)) & 0xFF) as u8
}

/// The byte at address `a` according to the words in `mem` (keyed by the
/// aligned address they were read at).
pub open spec fn byte_at(mem: Map<u64, u64>, a: u64) -> u8 {
    word_byte(mem[word_start(a)], (a - word_start(a)) as u64)
}

/// A string read in progress.
pub struct CStringReader {
    /// Address of the first byte.
    pub addr: u64,
    /// The most bytes to read.
    pub max_len: usize,
    /// The bytes read so far, none of them NUL.
    pub bytes: Vec<u8>,
    /// The last word fetched, with the aligned address it was read at.
    pub cached: Option<(u64, u64)>,
    /// Whether the string is complete.
    pub finished: bool,
    /// Every word supplied so far, by aligned address.
    pub fetched: Ghost<Map<u64, u64>>,
}

proof fn lemma_word_start(a: u64)
    ensures
        a & 0xFFFF_FFFF_FFFF_FFF8u64 == word_start(a),
        word_start(a) <= a,
        a - word_start(a) < 8,
{
    assert(a & 0xFFFF_FFFF_FFFF_FFF8u64 == (a - a % 8) as u64) by (bit_vector);
}

impl CStringReader {
    /// The reader's invariant: each byte read is the byte at its address in
    /// the words supplied, no byte read is NUL, and a finished string ends
    /// at `max_len` bytes or at a NUL.
    pub open spec fn wf(&self) -> bool {
        let mem = self.fetched@;
        &&& self.bytes@.len() <= self.max_len
        &&& forall|k: int|
            0 <= k < self.bytes@.len() ==> #[trigger] self.bytes@[k] != 0 && self.bytes@[k]
                == byte_at(mem, (self.addr + k) as u64) && mem.contains_key(
                word_start((self.addr + k) as u64),
            ) && self.addr + k <= u64::MAX
        &&& self.cached matches Some((a, w)) ==> mem.contains_key(a) && mem[a] == w
        &&& forall|a: u64|
            #[trigger] mem.contains_key(a) ==> (self.cached matches Some((c, _)) && c == a) || a
                < self.next_address() - self.next_address() % 8
        &&& self.cached matches Some((c, _)) ==> c <= self.next_address() - self.next_address() % 8
        &&& self.finished ==> (self.bytes@.len() == self.max_len || {
            let b = (self.addr + self.bytes@.len()) as u64;
            &&& self.addr + self.bytes@.len() <= u64::MAX
            &&& mem.contains_key(word_start(b))
            &&& byte_at(mem, b) == 0
        })
        &&& !self.finished ==> self.bytes@.len() < self.max_len
    }

    /// The address of the next byte to read.
    pub open spec fn next_address(&self) -> int {
        self.addr + self.bytes@.len()
    }

    /// A reader for the string at `addr`, of at most `max_len` bytes.
    pub fn new(addr: u64, max_len: usize) -> (r: CStringReader)
        ensures
            r.wf(),
            r.addr == addr,
            r.max_len == max_len,
            r.bytes@.len() == 0,
            r.finished == (max_len == 0),
    {
        CStringReader {
            addr,
            max_len,
            bytes: Vec::new(),
            cached: None,
            finished: max_len == 0,
            fetched: Ghost(Map::empty()),
        }
    }

    /// Whether the address of the next byte is a valid address (computing it
    /// must not overflow).
    pub fn next_address_fits(&self) -> (r: bool)
        ensures
            r == (self.next_address() <= u64::MAX),
    {
        self.addr <= u64::MAX - (self.bytes.len() as u64)
    }

    /// The aligned address of the word to fetch before the next byte can be
    /// read, or `None` when the string is complete or that word is the one
    /// last fetched.
    pub fn next_fetch(&self) -> (r: Option<u64>)
        requires
            self.wf(),
            self.next_address() <= u64::MAX,
        ensures
            r == (if self.finished {
                None
            } else if self.cached matches Some((a, _)) && a == word_start(
                self.next_address() as u64,
            ) {
                None
            } else {
                Some(word_start(self.next_address() as u64))
            }),
    {
        if self.finished {
            return None;
        }
        let b = self.addr + self.bytes.len() as u64;
        let start = b & 0xFFFF_FFFF_FFFF_FFF8u64;
        proof {
            lemma_word_start(b);
        }
        match self.cached {
            Some((a, _)) => if a == start {
                None
            } else {
                Some(start)
            },
            None => Some(start),
        }
    }

    /// Supplies the word read at aligned address `start`, the one that
    /// `next_fetch` asked for.
    pub fn supply(&mut self, start: u64, word: u64)
        requires
            old(self).wf(),
            old(self).next_address() <= u64::MAX,
            !old(self).finished,
            start == word_start(old(self).next_address() as u64),
            !(old(self).cached matches Some((a, _)) && a == start),
        ensures
            final(self).wf(),
            final(self).cached == Some((start, word)),
            final(self).fetched@ == old(self).fetched@.insert(start, word),
            final(self).addr == old(self).addr,
            final(self).max_len == old(self).max_len,
            final(self).bytes@ == old(self).bytes@,
            final(self).finished == old(self).finished,
    {
        self.cached = Some((start, word));
        self.fetched = Ghost(self.fetched@.insert(start, word));
        assert forall|k: int| 0 <= k < self.bytes@.len() implies #[trigger] self.bytes@[k] != 0
            && self.bytes@[k] == byte_at(self.fetched@, (self.addr + k) as u64)
            && self.fetched@.contains_key(word_start((self.addr + k) as u64)) && self.addr + k
            <= u64::MAX by {
            assert(old(self).bytes@[k] == byte_at(old(self).fetched@, (self.addr + k) as u64));
        }
    }

    /// Reads the next byte from the word last fetched: a NUL ends the
    /// string, any other byte is appended, and the string also ends when it
    /// reaches `max_len` bytes.
    pub fn advance(&mut self)
        requires
            old(self).wf(),
            old(self).next_address() <= u64::MAX,
            !old(self).finished,
            old(self).cached matches Some((a, _)) && a == word_start(
                old(self).next_address() as u64,
            ),
        ensures
            final(self).wf(),
            final(self).addr == old(self).addr,
            final(self).max_len == old(self).max_len,
            final(self).cached == old(self).cached,
            final(self).fetched@ == old(self).fetched@,
            ({
                let b = byte_at(old(self).fetched@, old(self).next_address() as u64);
                if b == 0 {
                    &&& final(self).finished
                    &&& final(self).bytes@ == old(self).bytes@
                } else {
                    &&& final(self).bytes@ == old(self).bytes@.push(b)
                    &&& final(self).finished == (final(self).bytes@.len() == old(self).max_len)
                }
            }),
    {
        let b = self.addr + self.bytes.len() as u64;
        let (start, word) = match self.cached {
            Some(c) => c,
            None => (0, 0),
        };
        proof {
            lemma_word_start(b);
        }
        let k: u64 = b - start;
        let byte = ((word >> (8 * k)) & 0xFF) as u8;
        if byte == 0 {
            self.finished = true;
        } else {

            let ghost before = self.bytes@;
            self.bytes.push(byte);
            if self.bytes.len() == self.max_len {
                self.finished = true;
            }
            assert forall|k: int| 0 <= k < self.bytes@.len() implies #[trigger] self.bytes@[k]
                != 0 && self.bytes@[k] == byte_at(self.fetched@, (self.addr + k) as u64)
                && self.fetched@.contains_key(word_start((self.addr + k) as u64)) && self.addr + k
                <= u64::MAX by {
                if k < before.len() {
                    assert(self.bytes@[k] == before[k]);
                }
            }
        }
    }

    /// Whether the string is complete.
    pub fn is_finished(&self) -> (r: bool)
        ensures
            r == self.finished,
    {
        self.finished
    }
}

/// A finished reader holds the string at its address: no byte of it is NUL,
/// it is never longer than the limit, and it stops at the limit or at the
/// first NUL, according to the words that were read.
pub proof fn finished_string_is_c_string(r: CStringReader)
    requires
        r.wf(),
        r.finished,
    ensures
        r.bytes@.len() <= r.max_len,
        forall|k: int|
            0 <= k < r.bytes@.len() ==> #[trigger] r.bytes@[k] != 0 && r.bytes@[k] == byte_at(
                r.fetched@,
                (r.addr + k) as u64,
            ),
        r.bytes@.len() < r.max_len ==> byte_at(r.fetched@, (r.addr + r.bytes@.len()) as u64)
            == 0,
{
}

} // verus!
