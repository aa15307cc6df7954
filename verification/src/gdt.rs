//! The segment descriptor table: a null entry, a flat code segment and a
//! flat data segment, each eight bytes in the format the CPU reads, and the
//! record that tells the CPU where the table lies.

use crate::endian::{byte_of_u64, le_byte, le_bytes, le_value, u64_from_le_bytes, u64_to_le_bytes};
use vstd::prelude::*;

verus! {

/// Selector of the code segment: its byte offset in the table.
pub const CODE_SEG: usize = 8;

/// Selector of the data segment: its byte offset in the table.
pub const DATA_SEG: usize = 16;

/// Bytes in the table.
pub const GDT_SIZE: usize = 24;

/// Access byte of the code segment: present, ring 0, code or data,
/// executable, not conforming, readable.
pub const CODE_ACCESS: u8 = 0x9A;

/// Access byte of the data segment: present, ring 0, code or data, not
/// executable, grows up, writable.
pub const DATA_ACCESS: u8 = 0x92;

/// Flags of a flat segment: limit in 4 KiB blocks, 32-bit.
pub const FLAT_FLAGS: u8 = 0xC;

/// Limit of a flat segment: all 20 bits set.
pub const FLAT_LIMIT: u32 = 0xF_FFFF;

/// The eight bytes of a descriptor with these fields: limit bits 0 to 15,
/// base bits 0 to 23, the access byte, the flags above limit bits 16 to 19,
/// base bits 24 to 31.
pub open spec fn descriptor_bytes(base: u32, limit: u32, access: u8, flags: u8) -> Seq<u8> {
    seq![
        le_byte(limit as int, 0),
        le_byte(limit as int, 1),
        le_byte(base as int, 0),
        le_byte(base as int, 1),
        le_byte(base as int, 2),
        access,
        (flags * 0x10 + le_byte(limit as int, 2)) as u8,
        le_byte(base as int, 3),
    ]
}

/// The bytes of a flat segment with the given access byte.
pub open spec fn flat_descriptor_bytes(access: u8) -> Seq<u8> {
    seq![0xFFu8, 0xFFu8, 0x00u8, 0x00u8, 0x00u8, access, 0xCFu8, 0x00u8]
}

/// Base address that a descriptor holds.
pub open spec fn descriptor_base(d: u64) -> int {
    le_byte(d as int, 2) + 0x100 * le_byte(d as int, 3) + 0x1_0000 * le_byte(d as int, 4)
        + 0x100_0000 * le_byte(d as int, 7)
}

/// Limit that a descriptor holds, in units of its granularity.
pub open spec fn descriptor_limit(d: u64) -> int {
    le_byte(d as int, 0) + 0x100 * le_byte(d as int, 1) + 0x1_0000 * (le_byte(d as int, 6) as int % 0x10)
}

/// Access byte of a descriptor.
pub open spec fn descriptor_access(d: u64) -> u8 {
    le_byte(d as int, 5)
}

/// Flags of a descriptor: the high half of byte 6.
pub open spec fn descriptor_flags(d: u64) -> int {
    le_byte(d as int, 6) as int / 0x10
}

/// Bit `bit` of `byte`.
pub open spec fn bit_set(byte: int, bit: nat) -> bool {
    (byte / pow2(bit)) % 2 == 1
}

/// 2 to the power `n`.
pub open spec fn pow2(n: nat) -> int
    decreases n,
{
    if n == 0 {
        1
    } else {
        2 * pow2((n - 1) as nat)
    }
}

/// The segment is present in memory.
pub open spec fn is_present(d: u64) -> bool {
    bit_set(descriptor_access(d) as int, 7)
}

/// Privilege level of the segment, 0 to 3.
pub open spec fn privilege_level(d: u64) -> int {
    (descriptor_access(d) as int / 0x20) % 4
}

/// The descriptor describes a code or data segment, not a system segment.
pub open spec fn is_code_or_data(d: u64) -> bool {
    bit_set(descriptor_access(d) as int, 4)
}

/// Instructions may be fetched from the segment.
pub open spec fn is_executable(d: u64) -> bool {
    bit_set(descriptor_access(d) as int, 3)
}

/// For a code segment, it may be read; for a data segment, written.
pub open spec fn is_readable_or_writable(d: u64) -> bool {
    bit_set(descriptor_access(d) as int, 1)
}

/// The limit counts 4 KiB blocks.
pub open spec fn has_page_granularity(d: u64) -> bool {
    bit_set(descriptor_flags(d), 3)
}

/// The segment holds 32-bit code or data.
pub open spec fn is_32_bit(d: u64) -> bool {
    bit_set(descriptor_flags(d), 2)
}

/// The segment starts at address 0 and spans the whole 4 GiB, at ring 0.
pub open spec fn is_flat(d: u64) -> bool {
    &&& is_present(d)
    &&& is_code_or_data(d)
    &&& privilege_level(d) == 0
    &&& descriptor_base(d) == 0
    &&& has_page_granularity(d)
    &&& is_32_bit(d)
    &&& (descriptor_limit(d) + 1) * 0x1000 == 0x1_0000_0000
}

/// Builds a descriptor from its fields.
pub fn segment_descriptor(base: u32, limit: u32, access: u8, flags: u8) -> (descriptor: u64)
    requires
        limit <= FLAT_LIMIT,
        flags <= 0xF,
    ensures
        le_bytes(descriptor as int, 8) == descriptor_bytes(base, limit, access, flags),
{
    let limit_high: u8 = byte_of_u64(limit as u64, 2);
    assert(limit_high <= 0xF) by {
        reveal_with_fuel(le_byte, 3);
    }
    let bytes: [u8; 8] = [
        byte_of_u64(limit as u64, 0),
        byte_of_u64(limit as u64, 1),
        byte_of_u64(base as u64, 0),
        byte_of_u64(base as u64, 1),
        byte_of_u64(base as u64, 2),
        access,
        flags * 0x10 + limit_high,
        byte_of_u64(base as u64, 3),
    ];
    assert(bytes@ =~= descriptor_bytes(base, limit, access, flags));
    u64_from_le_bytes(&bytes)
}

/// A descriptor built with base 0, the full limit and the flat flags has the
/// fixed byte pattern of a flat segment.
pub proof fn lemma_flat_descriptor_bytes(access: u8)
    ensures
        descriptor_bytes(0, FLAT_LIMIT, access, FLAT_FLAGS) == flat_descriptor_bytes(access),
{
    reveal_with_fuel(le_byte, 4);
    assert(descriptor_bytes(0, FLAT_LIMIT, access, FLAT_FLAGS) =~= flat_descriptor_bytes(access));
}

/// The global descriptor table: null, flat code, flat data.
#[derive(Clone, Copy, Debug, PartialEq, Eq)]
pub struct GDT {
    null_segment: u64,
    code_segment: u64,
    data_segment: u64,
}

/// The three descriptors of a table, as plain values.
pub struct GdtEntries {
    pub null_segment: u64,
    pub code_segment: u64,
    pub data_segment: u64,
}

impl View for GDT {
    type V = GdtEntries;

    closed spec fn view(&self) -> GdtEntries {
        GdtEntries {
            null_segment: self.null_segment,
            code_segment: self.code_segment,
            data_segment: self.data_segment,
        }
    }
}

/// The entries of the one table this crate builds.
pub open spec fn is_flat_table(t: GdtEntries) -> bool {
    &&& t.null_segment == 0
    &&& le_bytes(t.code_segment as int, 8) == flat_descriptor_bytes(CODE_ACCESS)
    &&& le_bytes(t.data_segment as int, 8) == flat_descriptor_bytes(DATA_ACCESS)
}

/// The table as it lies in memory: the three descriptors one after the
/// other, each little-endian.
pub open spec fn table_bytes(t: GdtEntries) -> Seq<u8> {
    le_bytes(t.null_segment as int, 8) + le_bytes(t.code_segment as int, 8) + le_bytes(
        t.data_segment as int,
        8,
    )
}

impl GDT {
    #[verifier::type_invariant]
    spec fn well_formed(self) -> bool {
        is_flat_table(self@)
    }

    /// Builds the table.
    pub fn new() -> (gdt: Self)
        ensures
            is_flat_table(gdt@),
    {
        proof {
            lemma_flat_descriptor_bytes(CODE_ACCESS);
            lemma_flat_descriptor_bytes(DATA_ACCESS);
        }
        Self {
            null_segment: 0,
            code_segment: segment_descriptor(0, FLAT_LIMIT, CODE_ACCESS, FLAT_FLAGS),
            data_segment: segment_descriptor(0, FLAT_LIMIT, DATA_ACCESS, FLAT_FLAGS),
        }
    }

    /// The null descriptor: always 0.
    pub fn null_segment(&self) -> (d: u64)
        ensures
            d == self@.null_segment,
            d == 0,
    {
        proof {
            use_type_invariant(self);
        }
        self.null_segment
    }

    /// The code descriptor.
    pub fn code_segment(&self) -> (d: u64)
        ensures
            d == self@.code_segment,
            le_bytes(d as int, 8) == flat_descriptor_bytes(CODE_ACCESS),
    {
        proof {
            use_type_invariant(self);
        }
        self.code_segment
    }

    /// The data descriptor.
    pub fn data_segment(&self) -> (d: u64)
        ensures
            d == self@.data_segment,
            le_bytes(d as int, 8) == flat_descriptor_bytes(DATA_ACCESS),
    {
        proof {
            use_type_invariant(self);
        }
        self.data_segment
    }

    /// The table as it lies in memory.
    pub fn to_bytes(&self) -> (bytes: [u8; 24])
        ensures
            bytes@ == table_bytes(self@),
            bytes@ == le_bytes(0, 8) + flat_descriptor_bytes(CODE_ACCESS) + flat_descriptor_bytes(
                DATA_ACCESS,
            ),
    {
        proof {
            use_type_invariant(self);
        }
        let null: [u8; 8] = u64_to_le_bytes(self.null_segment);
        let code: [u8; 8] = u64_to_le_bytes(self.code_segment);
        let data: [u8; 8] = u64_to_le_bytes(self.data_segment);
        let mut bytes: [u8; 24] = [0u8; 24];
        let mut i: usize = 0;
        while i < 8
            invariant
                i <= 8,
                forall|j: int| 0 <= j < i ==> bytes@[j] == null@[j],
                forall|j: int| 0 <= j < i ==> bytes@[8 + j] == code@[j],
                forall|j: int| 0 <= j < i ==> bytes@[16 + j] == data@[j],
            decreases 8 - i,
        {
            bytes[i] = null[i];
            bytes[8 + i] = code[i];
            bytes[16 + i] = data[i];
            i += 1;
        }
        assert(bytes@ =~= null@ + code@ + data@);
        bytes
    }
}

/// The selectors are the offsets of their descriptors in the table, and the
/// descriptors there are what the table holds.
pub proof fn lemma_selectors_index_table(t: GdtEntries)
    ensures
        table_bytes(t).len() == GDT_SIZE,
        table_bytes(t).subrange(0, 8) == le_bytes(t.null_segment as int, 8),
        table_bytes(t).subrange(CODE_SEG as int, CODE_SEG + 8) == le_bytes(t.code_segment as int, 8),
        table_bytes(t).subrange(DATA_SEG as int, DATA_SEG + 8) == le_bytes(t.data_segment as int, 8),
{
    assert(table_bytes(t).subrange(0, 8) =~= le_bytes(t.null_segment as int, 8));
    assert(table_bytes(t).subrange(8, 16) =~= le_bytes(t.code_segment as int, 8));
    assert(table_bytes(t).subrange(16, 24) =~= le_bytes(t.data_segment as int, 8));
}

/// Both segments of the table are flat ring-0 segments over the whole
/// 4 GiB; the code segment can be executed and read, the data segment
/// cannot be executed and can be written.
pub proof fn lemma_flat_table_segments(t: GdtEntries)
    requires
        is_flat_table(t),
    ensures
        descriptor_access(t.code_segment) == CODE_ACCESS,
        descriptor_access(t.data_segment) == DATA_ACCESS,
        le_byte(t.code_segment as int, 6) == 0xCF,
        le_byte(t.data_segment as int, 6) == 0xCF,
        is_flat(t.code_segment),
        is_flat(t.data_segment),
        is_executable(t.code_segment),
        is_readable_or_writable(t.code_segment),
        !is_executable(t.data_segment),
        is_readable_or_writable(t.data_segment),
{
    reveal_with_fuel(pow2, 9);
    assert(pow2(7) == 128 && pow2(4) == 16 && pow2(3) == 8 && pow2(2) == 4 && pow2(1) == 2);
    let c = le_bytes(t.code_segment as int, 8);
    let d = le_bytes(t.data_segment as int, 8);
    assert(forall|i: int| 0 <= i < 8 ==> c[i] == le_byte(t.code_segment as int, i as nat));
    assert(forall|i: int| 0 <= i < 8 ==> d[i] == le_byte(t.data_segment as int, i as nat));
    assert(c[0] == 0xFF && c[1] == 0xFF && c[2] == 0 && c[3] == 0 && c[4] == 0 && c[5] == 0x9A
        && c[6] == 0xCF && c[7] == 0);
    assert(d[0] == 0xFF && d[1] == 0xFF && d[2] == 0 && d[3] == 0 && d[4] == 0 && d[5] == 0x92
        && d[6] == 0xCF && d[7] == 0);
}

/// The record that the table-load instruction reads: the table's size less
/// one, and its address.
#[derive(Clone, Copy, Debug, PartialEq, Eq, Structural)]
pub struct GDTDescriptor {
    /// Size of the table in bytes, less one.
    pub size: u16,
    /// Address of the table.
    pub offset: u32,
}

/// The six bytes of a table descriptor: size, then address, little-endian.
pub open spec fn table_descriptor_bytes(d: GDTDescriptor) -> Seq<u8> {
    le_bytes(d.size as int, 2) + le_bytes(d.offset as int, 4)
}

impl GDTDescriptor {
    /// The record as it lies in memory.
    pub fn to_bytes(&self) -> (bytes: [u8; 6])
        ensures
            bytes@ == table_descriptor_bytes(*self),
    {
        let size: u64 = self.size as u64;
        let offset: u64 = self.offset as u64;
        let bytes: [u8; 6] = [
            byte_of_u64(size, 0),
            byte_of_u64(size, 1),
            byte_of_u64(offset, 0),
            byte_of_u64(offset, 1),
            byte_of_u64(offset, 2),
            byte_of_u64(offset, 3),
        ];
        assert(bytes@ =~= table_descriptor_bytes(*self));
        bytes
    }
}

/// The record to load for a table that lies at `table_address`.
pub fn load(table_address: u32) -> (descriptor: GDTDescriptor)
    ensures
        descriptor.size == GDT_SIZE - 1,
        descriptor.offset == table_address,
{
    GDTDescriptor { size: 23, offset: table_address }
}

} // verus!
