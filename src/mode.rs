use crate::addr::{PhysicalAddress, PAGE_SIZE};
use vstd::prelude::*;

verus! {

pub const FLAG_VALID: usize = 1;
pub const FLAG_READ: usize = 2;
pub const FLAG_WRITE: usize = 4;
pub const FLAG_EXECUTE: usize = 8;
pub const FLAG_USER: usize = 16;
pub const FLAG_GLOBAL: usize = 32;
pub const FLAG_ACCESS: usize = 64;
pub const FLAG_DIRTY: usize = 128;

/// The eight low bits of a RISC-V page-table entry.
#[derive(Debug, Clone, Copy, PartialEq, Eq, Structural)]
pub struct EntryFlags {
    pub bits: usize,
}

impl EntryFlags {
    pub open spec fn spec_bits(&self) -> usize {
        self.bits
    }

    pub open spec fn has(&self, flag: usize) -> bool {
        self.bits & flag != 0
    }

    /// Keeps the bits that name a flag and drops the rest.
    pub fn from_bits_truncate(bits: usize) -> (r: Self)
        ensures
            r.spec_bits() == bits & 0xff,
            r.spec_bits() < 256,
    {
        proof {
            assert(bits & 0xff < 256) by (bit_vector);
        }
        EntryFlags { bits: bits & 0xff }
    }

    pub fn bits(&self) -> (r: usize)
        ensures
            r == self.spec_bits(),
    {
        self.bits
    }

    pub fn union(&self, other: EntryFlags) -> (r: Self)
        requires
            self.spec_bits() < 256,
            other.spec_bits() < 256,
        ensures
            r.spec_bits() == self.spec_bits() | other.spec_bits(),
            r.spec_bits() < 256,
    {
        let (a, b) = (self.bits, other.bits);
        proof {
            assert(a < 256 && b < 256 ==> a | b < 256) by (bit_vector);
        }
        EntryFlags { bits: a | b }
    }

    pub fn contains(&self, other: EntryFlags) -> (r: bool)
        ensures
            r == (self.spec_bits() & other.spec_bits() == other.spec_bits()),
    {
        self.bits & other.bits == other.bits
    }

    pub fn intersects(&self, other: EntryFlags) -> (r: bool)
        ensures
            r == (self.spec_bits() & other.spec_bits() != 0),
    {
        self.bits & other.bits != 0
    }
}

/// A leaf entry maps a page: it is valid and readable or executable.
pub open spec fn entry_is_leaf(pte: usize) -> bool {
    pte & 1 != 0 && pte & 0b1010 != 0
}

/// Physical frame that an entry points to.
pub open spec fn pte_phys(pte: usize) -> usize {
    ((pte >> 10usize) << 12usize) as usize
}

/// Flag bits of an entry.
pub open spec fn pte_flags(pte: usize) -> usize {
    pte & 0xff
}

/// Entries carry the frame number from bit ten on: a frame address shifted right by two.
pub open spec fn spec_encode_entry(phys: usize, flags: usize) -> usize {
    (phys >> 2usize) | flags
}

/// Physical addresses that an entry can hold: frame aligned and below 2^56.
pub open spec fn encodable_frame(phys: usize) -> bool {
    phys & 0xfff == 0 && phys < 0x100_0000_0000_0000
}

/// Builds the entry for `phys` with `flags`.
pub fn encode_entry(phys: PhysicalAddress, flags: EntryFlags) -> (r: usize)
    requires
        encodable_frame(phys.0),
        flags.spec_bits() < 256,
    ensures
        r == spec_encode_entry(phys.0, flags.spec_bits()),
        pte_phys(r) == phys.0,
        pte_flags(r) == flags.spec_bits(),
{
    let p = phys.0;
    let f = flags.bits();
    proof {
        lemma_entry_round_trip(p, f);
    }
    (p >> 2) | f
}

pub proof fn lemma_entry_round_trip(p: usize, f: usize)
    requires
        encodable_frame(p),
        f < 256,
    ensures
        pte_phys(spec_encode_entry(p, f)) == p,
        pte_flags(spec_encode_entry(p, f)) == f,
{
    assert((((p >> 2usize) | f) >> 10usize) << 12usize == p) by (bit_vector)
        requires
            p & 0xfff == 0 && p < 0x100_0000_0000_0000 && f < 256,
    ;
    assert(((p >> 2usize) | f) & 0xff == f) by (bit_vector)
        requires
            p & 0xfff == 0 && f < 256,
    ;
}

/// Frame an entry points to.
pub fn entry_phys(pte: usize) -> (r: PhysicalAddress)
    ensures
        r.0 == pte_phys(pte),
{
    PhysicalAddress((pte >> 10) << 12)
}

/// Whether an entry is a leaf.
pub fn is_leaf_entry(pte: usize) -> (r: bool)
    ensures
        r == entry_is_leaf(pte),
{
    pte & 1 != 0 && pte & 0b1010 != 0
}

/// Bit layout and behaviour of one paging mode.
pub trait Mode {
    /// Number of table levels.
    spec fn spec_levels() -> nat;

    /// Start of the direct map of physical memory.
    spec fn spec_phys_offset() -> nat;

    fn page_table_levels() -> (r: usize)
        ensures
            r == Self::spec_levels(),
            3 <= r <= 5,
    ;

    fn phys_offset() -> (r: u64)
        ensures
            r == Self::spec_phys_offset(),
    ;

    fn page_size() -> (r: usize)
        ensures
            r == PAGE_SIZE,
    ;

    fn page_table_entries() -> (r: usize)
        ensures
            r == 512,
    ;

    fn entry_is_leaf(pte: usize) -> (r: bool)
        ensures
            r == entry_is_leaf(pte),
    ;
}

/// Three-level tables, 39-bit virtual addresses.
#[derive(Debug, Clone, Copy)]
pub struct Riscv64Sv39;

/// Four-level tables, 48-bit virtual addresses.
#[derive(Debug, Clone, Copy)]
pub struct Riscv64Sv48;

/// Five-level tables, 57-bit virtual addresses.
#[derive(Debug, Clone, Copy)]
pub struct Riscv64Sv57;

impl Mode for Riscv64Sv39 {
    open spec fn spec_levels() -> nat {
        3
    }

    open spec fn spec_phys_offset() -> nat {
        0xffff_ffd8_0000_0000
    }

    fn page_table_levels() -> (r: usize) {
        3
    }

    fn phys_offset() -> (r: u64) {
        0xffff_ffd8_0000_0000
    }

    fn page_size() -> (r: usize) {
        PAGE_SIZE
    }

    fn page_table_entries() -> (r: usize) {
        512
    }

    fn entry_is_leaf(pte: usize) -> (r: bool) {
        is_leaf_entry(pte)
    }
}

impl Mode for Riscv64Sv48 {
    open spec fn spec_levels() -> nat {
        4
    }

    open spec fn spec_phys_offset() -> nat {
        0xffff_bfff_8000_0000
    }

    fn page_table_levels() -> (r: usize) {
        4
    }

    fn phys_offset() -> (r: u64) {
        0xffff_bfff_8000_0000
    }

    fn page_size() -> (r: usize) {
        PAGE_SIZE
    }

    fn page_table_entries() -> (r: usize) {
        512
    }

    fn entry_is_leaf(pte: usize) -> (r: bool) {
        is_leaf_entry(pte)
    }
}

impl Mode for Riscv64Sv57 {
    open spec fn spec_levels() -> nat {
        5
    }

    open spec fn spec_phys_offset() -> nat {
        0xff7f_ffff_8000_0000
    }

    fn page_table_levels() -> (r: usize) {
        5
    }

    fn phys_offset() -> (r: u64) {
        0xff7f_ffff_8000_0000
    }

    fn page_size() -> (r: usize) {
        PAGE_SIZE
    }

    fn page_table_entries() -> (r: usize) {
        512
    }

    fn entry_is_leaf(pte: usize) -> (r: bool) {
        is_leaf_entry(pte)
    }
}

} // verus!
