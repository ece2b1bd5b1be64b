use vstd::prelude::*;

verus! {

/// Unsigned LEB128: seven bits per byte, low group first, the high bit set on
/// every byte but the last.
pub open spec fn leb_u64(v: nat) -> Seq<u8>
    decreases v,
{
    if v < 128 {
        seq![v as u8]
    } else {
        seq![(v % 128 + 128) as u8] + leb_u64(v / 128)
    }
}

/// Relies on leb128fmt::encode_u64, which writes the unsigned LEB128 bytes of `v`
/// into a buffer and returns how many it wrote; for a `u64` it always succeeds.
#[verifier::external_body]
fn encode_u64(v: u64) -> (r: Vec<u8>)
    ensures
        r@ == leb_u64(v as nat),
{
    let (bytes, len) = leb128fmt::encode_u64(v).unwrap();
    bytes[..len].to_vec()
}

/// Appends the unsigned LEB128 bytes of `v` to `sink`.
pub fn encode_leb_u64(v: u64, sink: &mut Vec<u8>)
    ensures
        final(sink)@ == old(sink)@ + leb_u64(v as nat),
{
    let bytes = encode_u64(v);
    let mut i: usize = 0;
    while i < bytes.len()
        invariant
            i <= bytes@.len(),
            bytes@ == leb_u64(v as nat),
            sink@ == old(sink)@ + bytes@.subrange(0, i as int),
        decreases bytes@.len() - i,
    {
        sink.push(bytes[i]);
        i += 1;
        proof {
            assert(sink@ =~= old(sink)@ + bytes@.subrange(0, i as int));
        }
    }
    proof {
        assert(bytes@.subrange(0, bytes@.len() as int) =~= bytes@);
    }
}

/// Types of the values that index a table.
#[derive(Debug, Clone, Copy, PartialEq, Eq, Structural)]
pub enum ValType {
    I32,
    I64,
}

/// Element types of a table.
#[derive(Debug, Clone, Copy, PartialEq, Eq, Structural)]
pub enum RefType {
    FuncRef,
    ExternRef,
}

/// The byte that encodes a reference type.
pub open spec fn ref_type_byte(t: RefType) -> u8 {
    match t {
        RefType::FuncRef => 0x70,
        RefType::ExternRef => 0x6f,
    }
}

/// A table's type.
#[derive(Debug, Clone, Copy, PartialEq, Eq, Structural)]
pub struct TableType {
    /// The table's element type.
    pub element_type: RefType,
    /// Whether this is a 64-bit table.
    pub table64: bool,
    /// Minimum size, in elements.
    pub minimum: u64,
    /// Maximum size, in elements.
    pub maximum: Option<u64>,
    /// Whether the table is shared.
    pub shared: bool,
}

/// The flags byte of a table type.
pub open spec fn table_flags(t: TableType) -> u8 {
    ((if t.maximum is Some { 1int } else { 0int }) + (if t.shared { 2int } else { 0int }) + (if t.table64 {
        4int
    } else {
        0int
    })) as u8
}

/// The encoding of a table type.
pub open spec fn table_type_bytes(t: TableType) -> Seq<u8> {
    seq![ref_type_byte(t.element_type), table_flags(t)] + leb_u64(t.minimum as nat) + match t.maximum {
        Some(m) => leb_u64(m as nat),
        None => Seq::empty(),
    }
}

impl TableType {
    /// The type of the values that index this table.
    pub fn index_type(&self) -> (r: ValType)
        ensures
            r == (if self.table64 {
                ValType::I64
            } else {
                ValType::I32
            }),
    {
        if self.table64 {
            ValType::I64
        } else {
            ValType::I32
        }
    }

    /// Appends the encoding of this type to `sink`.
    pub fn encode(&self, sink: &mut Vec<u8>)
        ensures
            final(sink)@ == old(sink)@ + table_type_bytes(*self),
    {
        let mut flags: u8 = 0;
        if self.maximum.is_some() {
            flags = flags + 1;
        }
        if self.shared {
            flags = flags + 2;
        }
        if self.table64 {
            flags = flags + 4;
        }
        let tag: u8 = match self.element_type {
            RefType::FuncRef => 0x70,
            RefType::ExternRef => 0x6f,
        };
        sink.push(tag);
        sink.push(flags);
        encode_leb_u64(self.minimum, sink);
        match self.maximum {
            Some(max) => encode_leb_u64(max, sink),
            None => {},
        }
        proof {
            assert(sink@ =~= old(sink)@ + table_type_bytes(*self));
        }
    }
}

/// A constant expression: its instructions, without the closing `end`.
#[derive(Debug, Clone, PartialEq, Eq)]
pub struct ConstExpr {
    pub bytes: Vec<u8>,
}

/// Opcode that closes an expression.
pub const END_OPCODE: u8 = 0x0b;

/// The encoder of a table section.
#[derive(Debug, Clone)]
pub struct TableSection {
    bytes: Vec<u8>,
    num_added: u32,
}

impl TableSection {
    /// Encoded tables, in the order they were added.
    pub closed spec fn spec_bytes(&self) -> Seq<u8> {
        self.bytes@
    }

    pub closed spec fn spec_len(&self) -> nat {
        self.num_added as nat
    }

    /// An empty table section.
    pub fn new() -> (r: Self)
        ensures
            r.spec_bytes() == Seq::<u8>::empty(),
            r.spec_len() == 0,
    {
        TableSection { bytes: Vec::new(), num_added: 0 }
    }

    /// The number of tables in the section.
    pub fn len(&self) -> (r: u32)
        ensures
            r == self.spec_len(),
    {
        self.num_added
    }

    /// Whether the section holds no table.
    pub fn is_empty(&self) -> (r: bool)
        ensures
            r == (self.spec_len() == 0),
    {
        self.num_added == 0
    }

    /// The encoded tables.
    pub fn as_bytes(&self) -> (r: &Vec<u8>)
        ensures
            r@ == self.spec_bytes(),
    {
        &self.bytes
    }

    /// Defines a table.
    pub fn table(&mut self, table_type: TableType) -> (r: &mut Self)
        requires
            old(self).spec_len() < u32::MAX,
        ensures
            r.spec_bytes() == old(self).spec_bytes() + table_type_bytes(table_type),
            r.spec_len() == old(self).spec_len() + 1,
            *final(self) == *final(r),
    {
        table_type.encode(&mut self.bytes);
        self.num_added = self.num_added + 1;
        self
    }

    /// Defines a table with an explicit initialisation expression.
    pub fn table_with_init(&mut self, table_type: TableType, init: &ConstExpr) -> (r: &mut Self)
        requires
            old(self).spec_len() < u32::MAX,
        ensures
            r.spec_bytes() == old(self).spec_bytes() + seq![0x40u8, 0x00u8] + table_type_bytes(table_type)
                + init.bytes@ + seq![END_OPCODE],
            r.spec_len() == old(self).spec_len() + 1,
            *final(self) == *final(r),
    {
        self.bytes.push(0x40);
        self.bytes.push(0x00);
        table_type.encode(&mut self.bytes);
        let mut i: usize = 0;
        let ghost before = self.bytes@;
        while i < init.bytes.len()
            invariant
                i <= init.bytes@.len(),
                self.bytes@ == before + init.bytes@.subrange(0, i as int),
                self.num_added == old(self).num_added,
            decreases init.bytes@.len() - i,
        {
            self.bytes.push(init.bytes[i]);
            i += 1;
            proof {
                assert(self.bytes@ =~= before + init.bytes@.subrange(0, i as int));
            }
        }
        self.bytes.push(END_OPCODE);
        self.num_added = self.num_added + 1;
        proof {
            assert(init.bytes@.subrange(0, init.bytes@.len() as int) =~= init.bytes@);
            assert(self.bytes@ =~= old(self).bytes@ + seq![0x40u8, 0x00u8] + table_type_bytes(table_type)
                + init.bytes@ + seq![END_OPCODE]);
        }
        self
    }
}

} // verus!
