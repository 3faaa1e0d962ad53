//! The circular memory arena.
//!
//! The arena is a ring of [`MEMORY_SIZE`] bytes. Every address is reduced
//! modulo the size before it is used, so no read or write can miss the arena.
//! Beside each byte the arena records which champion wrote it last.
//! Multi-byte values are stored big-endian.

use vstd::prelude::*;
use crate::constants::MEMORY_SIZE;
use crate::error::CoreWarError;
use crate::text::{decimal, decimal_text, hex_digits, hex_upper};

verus! {

/// The cell that an address falls on: the remainder of the address by the
/// arena's size, never negative.
pub open spec fn wrap(address: int) -> int {
    address % (MEMORY_SIZE as int)
}

/// Remainder of `a` by `m` that keeps the sign of `a`, as machine division
/// gives it.
pub open spec fn truncated_rem(a: int, m: int) -> int {
    if a >= 0 {
        a % m
    } else {
        -((-a) % m)
    }
}

/// The value of four bytes read as one big-endian word.
pub open spec fn word_of(b0: u8, b1: u8, b2: u8, b3: u8) -> int {
    b0 * 0x100_0000 + b1 * 0x1_0000 + b2 * 0x100 + b3
}

/// The value of two bytes read as one big-endian half-word.
pub open spec fn half_of(b0: u8, b1: u8) -> int {
    b0 * 0x100 + b1
}

/// Byte `k` of a word, counted from the most significant one.
pub open spec fn word_byte(value: int, k: int) -> u8 {
    if k == 0 {
        ((value / 0x100_0000) % 0x100) as u8
    } else if k == 1 {
        ((value / 0x1_0000) % 0x100) as u8
    } else if k == 2 {
        ((value / 0x100) % 0x100) as u8
    } else {
        (value % 0x100) as u8
    }
}

/// A word read as a signed number in two's complement.
pub open spec fn signed_word(value: int) -> int {
    if value >= 0x8000_0000 {
        value - 0x1_0000_0000
    } else {
        value
    }
}

/// A half-word read as a signed number in two's complement.
pub open spec fn signed_half(value: int) -> int {
    if value >= 0x8000 {
        value - 0x1_0000
    } else {
        value
    }
}

/// The word that stands for a signed number in two's complement.
pub open spec fn unsigned_word(value: int) -> int {
    if value < 0 {
        value + 0x1_0000_0000
    } else {
        value
    }
}

/// A word as a signed number: the same 32 bits read in two's complement.
pub fn word_to_signed(word: u32) -> (v: i32)
    ensures
        v == signed_word(word as int),
        unsigned_word(v as int) == word,
{
    if word >= 0x8000_0000 {
        ((word - 0x8000_0000) as i32) + i32::MIN
    } else {
        word as i32
    }
}

/// A signed number as a word: the same 32 bits read without a sign.
pub fn signed_to_word(value: i32) -> (w: u32)
    ensures
        w == unsigned_word(value as int),
        signed_word(w as int) == value,
{
    if value < 0 {
        ((value - i32::MIN) as u32) + 0x8000_0000
    } else {
        value as u32
    }
}

/// A half-word as a signed number, extended to 32 bits.
pub fn half_to_signed(half: u16) -> (v: i32)
    ensures
        v == signed_half(half as int),
{
    if half >= 0x8000 {
        (half as i32) - 0x1_0000
    } else {
        half as i32
    }
}

/// What an arena holds: its bytes and, for each, the champion that wrote it
/// last.
pub struct MemoryView {
    pub bytes: Seq<u8>,
    pub owners: Seq<Option<u8>>,
}

impl MemoryView {
    /// Both sequences cover the whole arena.
    pub open spec fn wf(self) -> bool {
        self.bytes.len() == MEMORY_SIZE && self.owners.len() == MEMORY_SIZE
    }

    /// The byte at an address.
    pub open spec fn read_byte(self, address: int) -> u8 {
        self.bytes[wrap(address)]
    }

    /// The champion that last wrote the cell at an address.
    pub open spec fn owner(self, address: int) -> Option<u8> {
        self.owners[wrap(address)]
    }

    /// The word that starts at an address.
    pub open spec fn read_word(self, address: int) -> int {
        word_of(
            self.read_byte(address),
            self.read_byte(address + 1),
            self.read_byte(address + 2),
            self.read_byte(address + 3),
        )
    }

    /// The half-word that starts at an address.
    pub open spec fn read_halfword(self, address: int) -> int {
        half_of(self.read_byte(address), self.read_byte(address + 1))
    }

    /// The arena after one byte is written. A write without an owner leaves
    /// the cell's owner as it was.
    pub open spec fn write_byte(self, address: int, value: u8, owner: Option<u8>) -> MemoryView {
        MemoryView {
            bytes: self.bytes.update(wrap(address), value),
            owners: if owner is Some {
                self.owners.update(wrap(address), owner)
            } else {
                self.owners
            },
        }
    }

    /// The arena after a word is written, most significant byte first.
    pub open spec fn write_word(self, address: int, value: int, owner: Option<u8>) -> MemoryView {
        self.write_byte(address, word_byte(value, 0), owner).write_byte(
            address + 1,
            word_byte(value, 1),
            owner,
        ).write_byte(address + 2, word_byte(value, 2), owner).write_byte(
            address + 3,
            word_byte(value, 3),
            owner,
        )
    }

    /// The arena after a half-word is written, most significant byte first.
    pub open spec fn write_halfword(self, address: int, value: int, owner: Option<u8>) -> MemoryView {
        self.write_byte(address, word_byte(value, 2), owner).write_byte(
            address + 1,
            word_byte(value, 3),
            owner,
        )
    }

    /// The arena after `code` is copied to `address` and the cells it covers
    /// are given to `owner`. Cell `j` is covered when its distance from
    /// `address`, going up round the ring, is less than the code's length.
    pub open spec fn load_code(self, address: int, code: Seq<u8>, owner: u8) -> MemoryView {
        MemoryView {
            bytes: Seq::new(
                self.bytes.len(),
                |j: int|
                    if wrap(j - address) < code.len() {
                        code[wrap(j - address)]
                    } else {
                        self.bytes[j]
                    },
            ),
            owners: Seq::new(
                self.owners.len(),
                |j: int|
                    if wrap(j - address) < code.len() {
                        Some(owner)
                    } else {
                        self.owners[j]
                    },
            ),
        }
    }

    /// The arena with every byte zero and no cell owned.
    pub open spec fn cleared() -> MemoryView {
        MemoryView {
            bytes: Seq::new(MEMORY_SIZE as nat, |j: int| 0u8),
            owners: Seq::new(MEMORY_SIZE as nat, |j: int| None::<u8>),
        }
    }
}

/// The number of the first `n` cells that belong to a champion.
pub open spec fn owned_count(owners: Seq<Option<u8>>, owner: u8, n: int) -> int
    decreases n,
{
    if n <= 0 {
        0
    } else {
        owned_count(owners, owner, n - 1) + if owners[n - 1] == Some(owner) {
            1int
        } else {
            0int
        }
    }
}

/// The text of cell `i` of a hex dump from `start`: the byte as two hex
/// digits and a space; before it, at the start of a line, the cell's address
/// in four hex digits and a colon; after it, at the end of a line, a line end.
pub open spec fn dump_cell_text(m: MemoryView, start: int, i: nat) -> Seq<char> {
    let prefix = if i % 16 == 0 {
        hex_digits(wrap(start + i) as nat, 4) + seq![':', ' ']
    } else {
        Seq::<char>::empty()
    };
    let cell = hex_digits(m.read_byte(start + i) as nat, 2) + seq![' '];
    let end = if i % 16 == 15 {
        seq!['\n']
    } else {
        Seq::<char>::empty()
    };
    prefix + cell + end
}

/// The text of the first `length` cells of a hex dump from `start`, sixteen
/// cells to a line.
pub open spec fn dump_text(m: MemoryView, start: int, length: nat) -> Seq<char>
    decreases length,
{
    if length == 0 {
        Seq::<char>::empty()
    } else {
        dump_text(m, start, (length - 1) as nat) + dump_cell_text(m, start, (length - 1) as nat)
    }
}

/// The whole text of a dump: the cells, and a line end if the last line is
/// not full.
pub open spec fn dump_hex_text(m: MemoryView, start: int, length: nat) -> Seq<char> {
    if length % 16 != 0 {
        dump_text(m, start, length) + seq!['\n']
    } else {
        dump_text(m, start, length)
    }
}

/// The message of the error that [`Memory::load_code`] returns.
pub open spec fn code_too_large_text(len: int) -> Seq<char> {
    "Code size "@ + decimal_text(len) + " exceeds memory size "@ + decimal_text(
        MEMORY_SIZE as int,
    )
}

/// The remainder that is never negative, from the one that keeps the sign:
/// a negative remainder is one modulus short.
pub proof fn lemma_truncated_rem(a: int, m: int)
    requires
        m > 0,
    ensures
        -m < truncated_rem(a, m) < m,
        a % m == if truncated_rem(a, m) < 0 {
            truncated_rem(a, m) + m
        } else {
            truncated_rem(a, m)
        },
{
    if a < 0 {
        let b = -a;
        let q = b / m;
        let r = b % m;
        vstd::arithmetic::div_mod::lemma_fundamental_div_mod(b, m);
        assert(b == m * q + r);
        if r == 0 {
            assert(a == (-q) * m + 0) by (nonlinear_arith)
                requires
                    a == -b,
                    b == m * q + r,
                    r == 0,
            ;
            vstd::arithmetic::div_mod::lemma_fundamental_div_mod_converse(a, m, -q, 0);
        } else {
            assert(a == (-q - 1) * m + (m - r)) by (nonlinear_arith)
                requires
                    a == -b,
                    b == m * q + r,
            ;
            vstd::arithmetic::div_mod::lemma_fundamental_div_mod_converse(a, m, -q - 1, m - r);
        }
    }
}

/// Addresses on the same cell stay on the same cell when both move by the
/// same distance.
pub proof fn lemma_wrap_shift(a: int, b: int, k: int)
    requires
        wrap(a) == wrap(b),
    ensures
        wrap(a + k) == wrap(b + k),
{
    vstd::arithmetic::div_mod::lemma_add_mod_noop(a, k, MEMORY_SIZE as int);
    vstd::arithmetic::div_mod::lemma_add_mod_noop(b, k, MEMORY_SIZE as int);
}

/// The cell of an address is the cell of its cell.
pub proof fn lemma_wrap_wrap(a: int)
    ensures
        wrap(wrap(a)) == wrap(a),
        0 <= wrap(a) < MEMORY_SIZE,
{
    vstd::arithmetic::div_mod::lemma_mod_twice(a, MEMORY_SIZE as int);
}

/// Reading is total and circular: for every integer address the byte read
/// is the one at the address's remainder by the arena's size, made positive.
/// With machine division, whose remainder keeps the sign of the address,
/// that cell is `((address % size) + size) % size`.
pub proof fn lemma_read_byte_circular(m: MemoryView, address: int)
    requires
        m.wf(),
    ensures
        0 <= wrap(address) < MEMORY_SIZE,
        wrap(address) == (truncated_rem(address, MEMORY_SIZE as int) + MEMORY_SIZE)
            % (MEMORY_SIZE as int),
        m.read_byte(address) == m.bytes[(truncated_rem(address, MEMORY_SIZE as int) + MEMORY_SIZE)
            % (MEMORY_SIZE as int)],
        m.read_byte(address + MEMORY_SIZE) == m.read_byte(address),
{
}

/// A cell belongs to the champion that wrote it last: after a write to
/// `address` by `champion` the cell's owner is `champion`, and it stays so
/// through any later write that falls on another cell.
pub proof fn lemma_owner_is_last_writer(
    m: MemoryView,
    address: int,
    value: u8,
    champion: u8,
    other: int,
    other_value: u8,
    other_owner: Option<u8>,
)
    requires
        m.wf(),
    ensures
        m.write_byte(address, value, Some(champion)).owner(address) == Some(champion),
        m.write_byte(address, value, Some(champion)).read_byte(address) == value,
        wrap(other) != wrap(address) ==> m.write_byte(address, value, Some(champion)).write_byte(
            other,
            other_value,
            other_owner,
        ).owner(address) == Some(champion),
        wrap(other) != wrap(address) ==> m.write_byte(address, value, Some(champion)).write_byte(
            other,
            other_value,
            other_owner,
        ).read_byte(address) == value,
{
}

/// Every cell that a word write covers belongs to the writer afterwards.
pub proof fn lemma_word_write_owns(m: MemoryView, address: int, value: int, champion: u8, k: int)
    requires
        m.wf(),
        0 <= k < 4,
    ensures
        m.write_word(address, value, Some(champion)).owner(address + k) == Some(champion),
        m.write_word(address, value, Some(champion)).wf(),
{
}

/// A word that is written is the word that is read back from the same
/// address, wherever on the ring it lies.
pub proof fn lemma_word_round_trip(m: MemoryView, address: int, value: int, owner: Option<u8>)
    requires
        m.wf(),
        0 <= value < 0x1_0000_0000,
    ensures
        m.write_word(address, value, owner).read_word(address) == value,
{
    let w = m.write_word(address, value, owner);
    assert(w.read_byte(address) == word_byte(value, 0));
    assert(w.read_byte(address + 1) == word_byte(value, 1));
    assert(w.read_byte(address + 2) == word_byte(value, 2));
    assert(w.read_byte(address + 3) == word_byte(value, 3));
}

/// A half-word that is written is the half-word that is read back.
pub proof fn lemma_halfword_round_trip(m: MemoryView, address: int, value: int, owner: Option<u8>)
    requires
        m.wf(),
        0 <= value < 0x1_0000,
    ensures
        m.write_halfword(address, value, owner).read_halfword(address) == value,
{
    let w = m.write_halfword(address, value, owner);
    assert(w.read_byte(address) == word_byte(value, 2));
    assert(w.read_byte(address + 1) == word_byte(value, 3));
}

/// After code is loaded its bytes are read back in order from the load
/// address, round the ring, and every cell it covers belongs to its owner.
pub proof fn lemma_load_code_reads_back(m: MemoryView, address: int, code: Seq<u8>, owner: u8, i: int)
    requires
        m.wf(),
        code.len() <= MEMORY_SIZE,
        0 <= i < code.len(),
    ensures
        m.load_code(address, code, owner).read_byte(address + i) == code[i],
        m.load_code(address, code, owner).owner(address + i) == Some(owner),
        m.load_code(address, code, owner).wf(),
{
    assert(wrap(wrap(address + i) - address) == i);
}

/// The memory arena of the machine.
#[derive(Debug)]
pub struct Memory {
    /// The bytes of the arena.
    data: Vec<u8>,
    /// For each cell, the champion that wrote it last.
    ownership: Vec<Option<u8>>,
}

impl View for Memory {
    type V = MemoryView;

    closed spec fn view(&self) -> MemoryView {
        MemoryView { bytes: self.data@, owners: self.ownership@ }
    }
}

impl Memory {
    #[verifier::type_invariant]
    spec fn inv(self) -> bool {
        self.data@.len() == MEMORY_SIZE && self.ownership@.len() == MEMORY_SIZE
    }

    /// A new arena: every byte zero, no cell owned.
    pub fn new() -> (m: Self)
        ensures
            m@ == MemoryView::cleared(),
            m@.wf(),
    {
        let m = Memory { data: vec![0u8; MEMORY_SIZE], ownership: vec![None; MEMORY_SIZE] };
        assert(m@.bytes =~= MemoryView::cleared().bytes);
        assert(m@.owners =~= MemoryView::cleared().owners);
        m
    }

    /// The number of cells of the arena.
    pub fn size(&self) -> (n: usize)
        ensures
            n == MEMORY_SIZE,
            self@.wf(),
    {
        proof {
            use_type_invariant(self);
        }
        MEMORY_SIZE
    }

    /// The cell that an address falls on.
    fn normalize_address(&self, address: usize) -> (r: usize)
        ensures
            r == wrap(address as int),
            r < MEMORY_SIZE,
    {
        address % MEMORY_SIZE
    }

    /// The cell that a signed address falls on: addresses below zero count
    /// back from the end of the arena.
    pub fn wrap_address(address: i64) -> (r: usize)
        ensures
            r == wrap(address as int),
            r < MEMORY_SIZE,
    {
        let m: i64 = address % 6144;
        if m < 0 {
            (m + 6144) as usize
        } else {
            m as usize
        }
    }

    /// The byte at an address.
    pub fn read_byte(&self, address: usize) -> (b: u8)
        ensures
            b == self@.read_byte(address as int),
            self@.wf(),
    {
        proof {
            use_type_invariant(self);
        }
        let normalized = self.normalize_address(address);
        self.data[normalized]
    }

    /// Writes one byte. With an owner the cell becomes that champion's;
    /// without one the cell keeps the owner it had.
    pub fn write_byte(&mut self, address: usize, value: u8, owner: Option<u8>)
        ensures
            final(self)@ == old(self)@.write_byte(address as int, value, owner),
            final(self)@.wf(),
    {
        proof {
            use_type_invariant(&*self);
        }
        let normalized = self.normalize_address(address);
        self.data[normalized] = value;
        if owner.is_some() {
            self.ownership[normalized] = owner;
        }
    }

    /// The word at an address: four bytes, most significant first, each found
    /// by its own address on the ring.
    pub fn read_word(&self, address: usize) -> (w: u32)
        ensures
            w == self@.read_word(address as int),
            self@.wf(),
    {
        let a = self.normalize_address(address);
        let b0 = self.read_byte(a) as u32;
        let b1 = self.read_byte(a + 1) as u32;
        let b2 = self.read_byte(a + 2) as u32;
        let b3 = self.read_byte(a + 3) as u32;
        b0 * 0x100_0000 + b1 * 0x1_0000 + b2 * 0x100 + b3
    }

    /// Writes a word at an address, most significant byte first; every cell
    /// written goes to `owner`.
    pub fn write_word(&mut self, address: usize, value: u32, owner: Option<u8>)
        ensures
            final(self)@ == old(self)@.write_word(address as int, value as int, owner),
            final(self)@.wf(),
    {
        let a = self.normalize_address(address);
        self.write_byte(a, (value / 0x100_0000) as u8, owner);
        self.write_byte(a + 1, ((value / 0x1_0000) % 0x100) as u8, owner);
        self.write_byte(a + 2, ((value / 0x100) % 0x100) as u8, owner);
        self.write_byte(a + 3, (value % 0x100) as u8, owner);
    }

    /// The word at a signed address.
    pub fn read_word_at(&self, address: i64) -> (w: u32)
        ensures
            w == self@.read_word(address as int),
            self@.wf(),
    {
        self.read_word(Memory::wrap_address(address))
    }

    /// Writes a word at a signed address.
    pub fn write_word_at(&mut self, address: i64, value: u32, owner: Option<u8>)
        ensures
            final(self)@ == old(self)@.write_word(address as int, value as int, owner),
            final(self)@.wf(),
    {
        self.write_word(Memory::wrap_address(address), value, owner)
    }

    /// The half-word at an address: two bytes, most significant first.
    pub fn read_halfword(&self, address: usize) -> (h: u16)
        ensures
            h == self@.read_halfword(address as int),
            self@.wf(),
    {
        let a = self.normalize_address(address);
        let b0 = self.read_byte(a) as u16;
        let b1 = self.read_byte(a + 1) as u16;
        b0 * 0x100 + b1
    }

    /// Writes a half-word at an address, most significant byte first.
    pub fn write_halfword(&mut self, address: usize, value: u16, owner: Option<u8>)
        ensures
            final(self)@ == old(self)@.write_halfword(address as int, value as int, owner),
            final(self)@.wf(),
    {
        let a = self.normalize_address(address);
        self.write_byte(a, (value / 0x100) as u8, owner);
        self.write_byte(a + 1, (value % 0x100) as u8, owner);
    }

    /// Copies `code` into the arena from `address` on, round the ring, and
    /// gives every cell it covers to `champion_id`. Code longer than the
    /// arena is refused and the arena stays as it was.
    pub fn load_code(&mut self, address: usize, code: &[u8], champion_id: u8) -> (r: Result<
        (),
        CoreWarError,
    >)
        ensures
            final(self)@.wf(),
            code@.len() <= MEMORY_SIZE ==> r is Ok && final(self)@ == old(self)@.load_code(
                address as int,
                code@,
                champion_id,
            ),
            code@.len() > MEMORY_SIZE ==> final(self)@ == old(self)@ && (r matches Err(
                CoreWarError::Memory { message },
            ) && message@ == code_too_large_text(code@.len() as int)),
    {
        proof {
            use_type_invariant(&*self);
        }
        if code.len() > MEMORY_SIZE {
            let mut message = String::from_str("Code size ");
            message.append(decimal(code.len() as i128).as_str());
            message.append(" exceeds memory size ");
            message.append(decimal(MEMORY_SIZE as i128).as_str());
            return Err(CoreWarError::memory(message));
        }
        let base = self.normalize_address(address);
        let n = code.len();
        let mut i: usize = 0;
        while i < n
            invariant
                i <= n,
                n == code@.len(),
                n <= MEMORY_SIZE,
                base == wrap(address as int),
                self@.wf(),
                old(self)@.wf(),
                forall|j: int|
                    0 <= j < MEMORY_SIZE ==> #[trigger] self@.bytes[j] == if wrap(j - address) < i {
                        code@[wrap(j - address)]
                    } else {
                        old(self)@.bytes[j]
                    },
                forall|j: int|
                    0 <= j < MEMORY_SIZE ==> #[trigger] self@.owners[j] == if wrap(j - address)
                        < i {
                        Some(champion_id)
                    } else {
                        old(self)@.owners[j]
                    },
            decreases n - i,
        {
            let ghost before = self@;
            self.write_byte(base + i, code[i], Some(champion_id));
            proof {
                let cell = wrap(base + i);
                assert(wrap(cell - address) == i);
                assert forall|j: int| 0 <= j < MEMORY_SIZE implies #[trigger] self@.bytes[j] == if wrap(
                    j - address,
                ) < i + 1 {
                    code@[wrap(j - address)]
                } else {
                    old(self)@.bytes[j]
                } by {
                    assert(before.bytes[j] == if wrap(j - address) < i {
                        code@[wrap(j - address)]
                    } else {
                        old(self)@.bytes[j]
                    });
                    if j != cell {
                        assert(wrap(j - address) != i);
                    }
                }
                assert forall|j: int| 0 <= j < MEMORY_SIZE implies #[trigger] self@.owners[j] == if wrap(
                    j - address,
                ) < i + 1 {
                    Some(champion_id)
                } else {
                    old(self)@.owners[j]
                } by {
                    assert(before.owners[j] == if wrap(j - address) < i {
                        Some(champion_id)
                    } else {
                        old(self)@.owners[j]
                    });
                    if j != cell {
                        assert(wrap(j - address) != i);
                    }
                }
            }
            i += 1;
        }
        proof {
            let target = old(self)@.load_code(address as int, code@, champion_id);
            assert(self@.bytes =~= target.bytes);
            assert(self@.owners =~= target.owners);
        }
        Ok(())
    }

    /// The champion that last wrote the cell at an address, if any did.
    pub fn get_owner(&self, address: usize) -> (o: Option<u8>)
        ensures
            o == self@.owner(address as int),
            self@.wf(),
    {
        proof {
            use_type_invariant(self);
        }
        let normalized = self.normalize_address(address);
        self.ownership[normalized]
    }

    /// The text of one cell of a hex dump.
    fn dump_cell(&self, start: usize, i: usize) -> (s: String)
        ensures
            s@ == dump_cell_text(self@, start as int, i as nat),
    {
        let base = self.normalize_address(start);
        let at = self.normalize_address(base + i % MEMORY_SIZE);
        assert(at == wrap(start + i));
        let mut cell = String::new();
        if i % 16 == 0 {
            cell.append(hex_upper(at as u64, 4).as_str());
            cell.append(": ");
        }
        let byte = self.read_byte(at);
        assert(byte == self@.read_byte(start + i));
        cell.append(hex_upper(byte as u64, 2).as_str());
        cell.append(" ");
        if i % 16 == 15 {
            cell.append("\n");
        }
        proof {
            reveal_strlit(": ");
            reveal_strlit(" ");
            reveal_strlit("\n");
            assert(": "@ =~= seq![':', ' ']);
            assert(" "@ =~= seq![' ']);
            assert("\n"@ =~= seq!['\n']);
            assert(cell@ =~= dump_cell_text(self@, start as int, i as nat));
        }
        cell
    }

    /// The number of cells that belong to a champion.
    pub fn owned_cells(&self, owner: u8) -> (count: usize)
        ensures
            count == owned_count(self@.owners, owner, MEMORY_SIZE as int),
            count <= MEMORY_SIZE,
    {
        proof {
            use_type_invariant(self);
        }
        let mut count: usize = 0;
        let mut i: usize = 0;
        while i < MEMORY_SIZE
            invariant
                i <= MEMORY_SIZE,
                self.ownership@.len() == MEMORY_SIZE,
                count == owned_count(self.ownership@, owner, i as int),
                count <= i,
            decreases MEMORY_SIZE - i,
        {
            match self.ownership[i] {
                Some(id) => {
                    if id == owner {
                        count += 1;
                    }
                },
                None => {},
            }
            i += 1;
        }
        count
    }

    /// A hex dump of `length` bytes from `start`, going round the ring.
    pub fn dump_hex(&self, start: usize, length: usize) -> (s: String)
        ensures
            s@ == dump_hex_text(self@, start as int, length as nat),
    {
        let mut result = String::new();
        let mut i: usize = 0;
        while i < length
            invariant
                i <= length,
                result@ == dump_text(self@, start as int, i as nat),
            decreases length - i,
        {
            let cell = self.dump_cell(start, i);
            result.append(cell.as_str());
            i += 1;
        }
        if length % 16 != 0 {
            result.append("\n");
            proof {
                reveal_strlit("\n");
                assert("\n"@ =~= seq!['\n']);
            }
        }
        result
    }

    /// Sets every byte to zero and forgets every owner.
    pub fn clear(&mut self)
        ensures
            final(self)@ == MemoryView::cleared(),
            final(self)@.wf(),
    {
        proof {
            use_type_invariant(&*self);
        }
        let mut i: usize = 0;
        while i < MEMORY_SIZE
            invariant
                i <= MEMORY_SIZE,
                self.data@.len() == MEMORY_SIZE,
                self.ownership@.len() == MEMORY_SIZE,
                forall|j: int| 0 <= j < i ==> self.data@[j] == 0u8,
                forall|j: int| 0 <= j < i ==> self.ownership@[j] == None::<u8>,
            decreases MEMORY_SIZE - i,
        {
            self.data[i] = 0;
            self.ownership[i] = None;
            i += 1;
        }
        assert(self@.bytes =~= MemoryView::cleared().bytes);
        assert(self@.owners =~= MemoryView::cleared().owners);
    }

    /// The addresses at which `champion_count` champions are placed: evenly
    /// spaced round the arena, the first at zero.
    pub fn calculate_placement_addresses(champion_count: usize) -> (addresses: Vec<usize>)
        requires
            champion_count > 0,
        ensures
            addresses@.len() == champion_count,
            forall|i: int|
                0 <= i < champion_count ==> #[trigger] addresses@[i] == i * (MEMORY_SIZE
                    / champion_count),
    {
        let mut addresses = Vec::new();
        let spacing = MEMORY_SIZE / champion_count;
        let mut i: usize = 0;
        while i < champion_count
            invariant
                i <= champion_count,
                champion_count > 0,
                spacing == MEMORY_SIZE / champion_count,
                addresses@.len() == i,
                forall|k: int| 0 <= k < i ==> #[trigger] addresses@[k] == k * spacing,
            decreases champion_count - i,
        {
            assert(i * spacing <= MEMORY_SIZE) by (nonlinear_arith)
                requires
                    i < champion_count,
                    spacing == MEMORY_SIZE / champion_count,
                    champion_count > 0,
            ;
            addresses.push(i * spacing);
            i += 1;
        }
        addresses
    }
}

impl Default for Memory {
    fn default() -> (m: Self)
        ensures
            m@ == MemoryView::cleared(),
    {
        Memory::new()
    }
}

} // verus!
