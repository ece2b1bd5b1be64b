use vstd::prelude::*;

verus! {

/// Magic number at the start of a device-tree blob.
pub const DTB_MAGIC: u32 = 0xd00d_feed;

/// The blob version this parser reads.
pub const DTB_VERSION: u32 = 17;

/// Bytes of the blob header.
pub const HEADER_SIZE: usize = 40;

/// Why a device-tree blob could not be read.
#[derive(Debug, Clone, Copy, PartialEq, Eq, Structural)]
pub enum DtbError {
    InvalidMagic,
    InvalidVersion,
    UnexpectedEOF,
}

/// The big-endian number in bytes `i .. i + 4` of `s`.
pub open spec fn be_u32(s: Seq<u8>, i: int) -> int {
    s[i] * 0x100_0000 + s[i + 1] * 0x1_0000 + s[i + 2] * 0x100 + s[i + 3]
}

/// The big-endian number in bytes `i .. i + 8` of `s`.
pub open spec fn be_u64(s: Seq<u8>, i: int) -> int {
    be_u32(s, i) * 0x1_0000_0000 + be_u32(s, i + 4)
}

/// Reads the big-endian `u32` at `i`.
pub fn read_be_u32(s: &[u8], i: usize) -> (r: u32)
    requires
        i + 4 <= s@.len(),
    ensures
        r == be_u32(s@, i as int),
{
    let n = s.len();
    proof {
        assert(i + 4 <= n);
    }
    let r = (s[i] as u32) * 0x100_0000 + (s[i + 1] as u32) * 0x1_0000 + (s[i + 2] as u32) * 0x100
        + (s[i + 3] as u32);
    r
}

/// Reads the big-endian `u64` at `i`.
pub fn read_be_u64(s: &[u8], i: usize) -> (r: u64)
    requires
        i + 8 <= s@.len(),
    ensures
        r == be_u64(s@, i as int),
{
    let n = s.len();
    proof {
        assert(i + 8 <= n);
    }
    let hi = read_be_u32(s, i) as u64;
    let lo = read_be_u32(s, i + 4) as u64;
    proof {
        assert(hi * 0x1_0000_0000 + lo <= u64::MAX) by (nonlinear_arith)
            requires
                hi <= u32::MAX,
                lo <= u32::MAX,
        ;
    }
    hi * 0x1_0000_0000 + lo
}

/// A flattened device tree: its header fields and its bytes.
#[derive(Debug)]
pub struct DevTree {
    version: u32,
    last_comp_version: u32,
    boot_cpuid_phys: u32,
    total: Vec<u8>,
    mem_rsvmap: usize,
}

/// One reserved range of physical memory.
#[derive(Debug, Clone, Copy, PartialEq, Eq, Structural)]
pub struct ReserveEntry {
    pub address: u64,
    pub size: u64,
}

/// The reserved-memory entries of a device tree, read one at a time.
#[derive(Debug)]
pub struct ReserveEntries {
    buf: Vec<u8>,
    offset: usize,
    done: bool,
}

impl DevTree {
    pub closed spec fn bytes(&self) -> Seq<u8> {
        self.total@
    }

    pub closed spec fn spec_version(&self) -> u32 {
        self.version
    }

    pub closed spec fn spec_last_comp_version(&self) -> u32 {
        self.last_comp_version
    }

    pub closed spec fn spec_boot_cpuid_phys(&self) -> u32 {
        self.boot_cpuid_phys
    }

    /// Offset of the reserved-memory block.
    pub closed spec fn spec_mem_rsvmap(&self) -> nat {
        self.mem_rsvmap as nat
    }

    /// Reads the header of the blob that `blob` starts with. The blob is the
    /// first `totalsize` bytes; its magic and version must match.
    pub fn from_bytes(blob: &[u8]) -> (r: Result<DevTree, DtbError>)
        ensures
            blob@.len() < HEADER_SIZE ==> r == Err::<DevTree, DtbError>(DtbError::UnexpectedEOF),
            blob@.len() >= HEADER_SIZE && be_u32(blob@, 0) != DTB_MAGIC ==> r == Err::<DevTree, DtbError>(
                DtbError::InvalidMagic,
            ),
            blob@.len() >= HEADER_SIZE && be_u32(blob@, 0) == DTB_MAGIC && be_u32(blob@, 20) != DTB_VERSION
                ==> r == Err::<DevTree, DtbError>(DtbError::InvalidVersion),
            blob@.len() >= HEADER_SIZE && be_u32(blob@, 0) == DTB_MAGIC && be_u32(blob@, 20) == DTB_VERSION
                ==> (r is Ok <==> (be_u32(blob@, 4) <= blob@.len() && be_u32(blob@, 16) <= be_u32(blob@, 4))),
            r is Err ==> (r == Err::<DevTree, DtbError>(DtbError::UnexpectedEOF) || r == Err::<DevTree, DtbError>(
                DtbError::InvalidMagic,
            ) || r == Err::<DevTree, DtbError>(DtbError::InvalidVersion)),
            r is Ok ==> {
                let t = r->Ok_0;
                &&& t.spec_version() == DTB_VERSION
                &&& t.spec_last_comp_version() == be_u32(blob@, 24)
                &&& t.spec_boot_cpuid_phys() == be_u32(blob@, 28)
                &&& t.bytes() == blob@.subrange(0, be_u32(blob@, 4))
                &&& t.spec_mem_rsvmap() == be_u32(blob@, 16)
            },
    {
        if blob.len() < HEADER_SIZE {
            return Err(DtbError::UnexpectedEOF);
        }
        if read_be_u32(blob, 0) != DTB_MAGIC {
            return Err(DtbError::InvalidMagic);
        }
        let version = read_be_u32(blob, 20);
        if version != DTB_VERSION {
            return Err(DtbError::InvalidVersion);
        }
        let totalsize = read_be_u32(blob, 4) as usize;
        let mem_rsvmap = read_be_u32(blob, 16) as usize;
        if totalsize > blob.len() || mem_rsvmap > totalsize {
            return Err(DtbError::UnexpectedEOF);
        }
        let mut total: Vec<u8> = Vec::new();
        let mut i: usize = 0;
        while i < totalsize
            invariant
                i <= totalsize <= blob@.len(),
                total@ == blob@.subrange(0, i as int),
            decreases totalsize - i,
        {
            total.push(blob[i]);
            i += 1;
            proof {
                assert(total@ =~= blob@.subrange(0, i as int));
            }
        }
        Ok(DevTree {
            version,
            last_comp_version: read_be_u32(blob, 24),
            boot_cpuid_phys: read_be_u32(blob, 28),
            total,
            mem_rsvmap,
        })
    }

    pub fn version(&self) -> (r: u32)
        ensures
            r == self.spec_version(),
    {
        self.version
    }

    pub fn last_comp_version(&self) -> (r: u32)
        ensures
            r == self.spec_last_comp_version(),
    {
        self.last_comp_version
    }

    pub fn boot_cpuid_phys(&self) -> (r: u32)
        ensures
            r == self.spec_boot_cpuid_phys(),
    {
        self.boot_cpuid_phys
    }

    /// The bytes of the whole blob.
    pub fn as_slice(&self) -> (r: &[u8])
        ensures
            r@ == self.bytes(),
    {
        self.total.as_slice()
    }

    /// The entries of the reserved-memory block.
    pub fn reserved_entries(&self) -> (r: ReserveEntries)
        requires
            self.spec_mem_rsvmap() <= self.bytes().len(),
        ensures
            r.spec_buf() == self.bytes().subrange(self.spec_mem_rsvmap() as int, self.bytes().len() as int),
            r.spec_offset() == 0,
            !r.spec_done(),
    {
        let mut buf: Vec<u8> = Vec::new();
        let mut i: usize = self.mem_rsvmap;
        let len = self.total.len();
        while i < len
            invariant
                self.mem_rsvmap <= i <= len == self.total@.len(),
                buf@ == self.total@.subrange(self.mem_rsvmap as int, i as int),
            decreases len - i,
        {
            buf.push(self.total[i]);
            i += 1;
            proof {
                assert(buf@ =~= self.total@.subrange(self.mem_rsvmap as int, i as int));
            }
        }
        ReserveEntries { buf, offset: 0, done: false }
    }
}

impl ReserveEntries {
    pub closed spec fn spec_buf(&self) -> Seq<u8> {
        self.buf@
    }

    pub closed spec fn spec_offset(&self) -> nat {
        self.offset as nat
    }

    pub closed spec fn spec_done(&self) -> bool {
        self.done
    }

    fn read_u64(&mut self) -> (r: Result<u64, DtbError>)
        requires
            old(self).offset <= old(self).buf@.len(),
        ensures
            final(self).buf == old(self).buf,
            final(self).done == old(self).done,
            final(self).offset <= final(self).buf@.len(),
            old(self).offset + 8 <= old(self).buf@.len() ==> r == Ok::<u64, DtbError>(
                be_u64(old(self).buf@, old(self).offset as int) as u64,
            ) && final(self).offset == old(self).offset + 8,
            old(self).offset + 8 > old(self).buf@.len() ==> r == Err::<u64, DtbError>(DtbError::UnexpectedEOF)
                && final(self).offset == old(self).offset,
    {
        if self.buf.len() - self.offset < 8 {
            return Err(DtbError::UnexpectedEOF);
        }
        let v = read_be_u64(self.buf.as_slice(), self.offset);
        self.offset = self.offset + 8;
        Ok(v)
    }

    /// The next entry. An entry whose address or size is zero ends the list; so
    /// does the end of the block, or an entry cut short, which is an error.
    pub fn next(&mut self) -> (r: Result<Option<ReserveEntry>, DtbError>)
        requires
            old(self).spec_offset() <= old(self).spec_buf().len(),
        ensures
            final(self).spec_buf() == old(self).spec_buf(),
            final(self).spec_offset() <= final(self).spec_buf().len(),
            ({
                let s = old(self).spec_buf();
                let o = old(self).spec_offset() as int;
                let finished = old(self).spec_done() || o == s.len();
                &&& finished ==> r == Ok::<Option<ReserveEntry>, DtbError>(None) && *final(self) == *old(self)
                &&& !finished && o + 16 > s.len() ==> r == Err::<Option<ReserveEntry>, DtbError>(
                    DtbError::UnexpectedEOF,
                ) && final(self).spec_done()
                &&& !finished && o + 16 <= s.len() && (be_u64(s, o) == 0 || be_u64(s, o + 8) == 0) ==> r
                    == Ok::<Option<ReserveEntry>, DtbError>(None) && final(self).spec_done()
                &&& !finished && o + 16 <= s.len() && be_u64(s, o) != 0 && be_u64(s, o + 8) != 0 ==> r
                    == Ok::<Option<ReserveEntry>, DtbError>(
                    Some(ReserveEntry { address: be_u64(s, o) as u64, size: be_u64(s, o + 8) as u64 }),
                ) && !final(self).spec_done() && final(self).spec_offset() == o + 16
            }),
    {
        if self.done || self.offset == self.buf.len() {
            return Ok(None);
        }
        let address = match self.read_u64() {
            Ok(a) => a,
            Err(e) => {
                self.done = true;
                return Err(e);
            },
        };
        let size = match self.read_u64() {
            Ok(s) => s,
            Err(e) => {
                self.done = true;
                return Err(e);
            },
        };
        if address == 0 || size == 0 {
            self.done = true;
            return Ok(None);
        }
        Ok(Some(ReserveEntry { address, size }))
    }
}

/// A list of NUL-terminated strings, read one at a time.
#[derive(Debug, Clone)]
pub struct Strings {
    bytes: Vec<u8>,
    offset: usize,
    err: bool,
}

impl Strings {
    /// The strings packed in `bytes`.
    pub fn new(bytes: Vec<u8>) -> (r: Self)
        ensures
            r.spec_bytes() == bytes@,
            r.spec_offset() == 0,
    {
        Strings { bytes, offset: 0, err: false }
    }

    pub closed spec fn spec_bytes(&self) -> Seq<u8> {
        self.bytes@
    }

    pub closed spec fn spec_offset(&self) -> nat {
        self.offset as nat
    }

    pub closed spec fn spec_err(&self) -> bool {
        self.err
    }

    /// The next string, without its NUL; a string without one is an error that
    /// ends the list.
    pub fn next(&mut self) -> (r: Result<Option<Vec<u8>>, DtbError>)
        requires
            old(self).spec_offset() <= old(self).spec_bytes().len(),
        ensures
            final(self).spec_bytes() == old(self).spec_bytes(),
            final(self).spec_offset() <= final(self).spec_bytes().len(),
            ({
                let s = old(self).spec_bytes();
                let o = old(self).spec_offset() as int;
                let finished = old(self).spec_err() || o == s.len();
                let has_nul = exists|j: int| o <= j < s.len() && s[j] == 0;
                &&& finished ==> r == Ok::<Option<Vec<u8>>, DtbError>(None)
                &&& !finished && !has_nul ==> r == Err::<Option<Vec<u8>>, DtbError>(DtbError::UnexpectedEOF)
                    && final(self).spec_err()
                &&& !finished && has_nul ==> r is Ok && r->Ok_0 is Some && {
                    let v = r->Ok_0->Some_0@;
                    let j = o + v.len();
                    &&& j < s.len()
                    &&& s[j] == 0
                    &&& v == s.subrange(o, j)
                    &&& forall|k: int| o <= k < j ==> s[k] != 0
                    &&& final(self).spec_offset() == j + 1
                }
            }),
    {
        if self.offset == self.bytes.len() || self.err {
            return Ok(None);
        }
        let mut out: Vec<u8> = Vec::new();
        let mut j: usize = self.offset;
        let len = self.bytes.len();
        while j < len
            invariant
                self.offset <= j <= len == self.bytes@.len(),
                out@ == self.bytes@.subrange(self.offset as int, j as int),
                forall|k: int| self.offset <= k < j ==> self.bytes@[k] != 0,
                self.bytes@ == old(self).bytes@,
                self.offset == old(self).offset,
                self.err == old(self).err,
                !self.err,
                self.offset < len,
            decreases len - j,
        {
            if self.bytes[j] == 0 {
                proof {
                    assert(self.bytes@[j as int] == 0);
                    assert(out@.len() == j - self.offset);
                }
                self.offset = j + 1;
                return Ok(Some(out));
            }
            out.push(self.bytes[j]);
            j += 1;
            proof {
                assert(out@ =~= self.bytes@.subrange(self.offset as int, j as int));
            }
        }
        self.err = true;
        Err(DtbError::UnexpectedEOF)
    }
}

} // verus!
