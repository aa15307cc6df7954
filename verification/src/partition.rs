//! Reader for the classic boot-sector partition table.
//!
//! Only the fields needed to read a partition through the firmware are
//! decoded: the status byte, the first sector and the sector count. The CHS
//! fields and the partition type are ignored.

use vstd::prelude::*;

verus! {

/// Bytes in one raw table entry.
pub const ENTRY_SIZE: usize = 16;

/// Entries in a partition table.
pub const ENTRY_COUNT: usize = 4;

/// Bytes in a whole raw table.
pub const TABLE_SIZE: usize = 64;

/// Status byte of a bootable partition.
pub const BOOT_ACTIVE: u8 = 0x80;

/// Why a table entry could not be decoded.
#[derive(Clone, Copy, Debug, PartialEq, Eq, Structural)]
pub enum DecodeError {
    /// The entry index is not one of 1, 2, 3, 4.
    IndexOutOfRange,
    /// The raw table ends before the last byte of the requested entry.
    TableTooShort,
}

/// One decoded partition table entry.
#[derive(Clone, Copy, Debug, PartialEq, Eq, Structural)]
pub struct PartitionTableEntry {
    /// True exactly when the status byte is `0x80`.
    pub bootable: bool,
    /// First sector of the partition.
    pub lba_start: u32,
    /// Number of sectors in the partition.
    pub sector_count: u32,
}

/// The number whose little-endian encoding is `b0 b1 b2 b3`.
pub open spec fn le_u32(b0: u8, b1: u8, b2: u8, b3: u8) -> int {
    b0 + 0x100 * b1 + 0x1_0000 * b2 + 0x100_0000 * b3
}

/// The entry that starts at byte `offset` of `raw`.
pub open spec fn entry_at(raw: Seq<u8>, offset: int) -> PartitionTableEntry {
    PartitionTableEntry {
        bootable: raw[offset] == BOOT_ACTIVE,
        lba_start: le_u32(raw[offset + 8], raw[offset + 9], raw[offset + 10], raw[offset + 11]) as u32,
        sector_count: le_u32(
            raw[offset + 12],
            raw[offset + 13],
            raw[offset + 14],
            raw[offset + 15],
        ) as u32,
    }
}

/// What decoding entry `index` (counted from 1) of `raw` yields.
pub open spec fn decode_entry(raw: Seq<u8>, index: int) -> Result<PartitionTableEntry, DecodeError> {
    if index < 1 || index > ENTRY_COUNT {
        Err(DecodeError::IndexOutOfRange)
    } else if raw.len() < index * ENTRY_SIZE {
        Err(DecodeError::TableTooShort)
    } else {
        Ok(entry_at(raw, (index - 1) * ENTRY_SIZE))
    }
}

fn read_le_u32(raw: &[u8], offset: usize) -> (value: u32)
    requires
        offset + 4 <= raw@.len(),
    ensures
        value == le_u32(
            raw@[offset as int],
            raw@[offset + 1],
            raw@[offset + 2],
            raw@[offset + 3],
        ),
{
    let b0: u8 = raw[offset];
    let b1: u8 = raw[offset + 1];
    let b2: u8 = raw[offset + 2];
    let b3: u8 = raw[offset + 3];
    assert((b0 as u32 | (b1 as u32) << 8 | (b2 as u32) << 16 | (b3 as u32) << 24) == b0 + 0x100
        * b1 + 0x1_0000 * b2 + 0x100_0000 * b3) by (bit_vector);
    b0 as u32 | (b1 as u32) << 8 | (b2 as u32) << 16 | (b3 as u32) << 24
}

impl PartitionTableEntry {
    /// Decodes entry `index` of a raw partition table. Entries are counted
    /// from 1; entry `index` occupies the 16 bytes from `(index - 1) * 16`.
    /// Byte 0 of the entry is the status, bytes 8 to 11 the first sector and
    /// bytes 12 to 15 the sector count, both little-endian.
    pub fn from_raw(partition_table_raw: &[u8], index: usize) -> (result: Result<Self, DecodeError>)
        ensures
            result == decode_entry(partition_table_raw@, index as int),
    {
        if index < 1 || index > ENTRY_COUNT {
            return Err(DecodeError::IndexOutOfRange);
        }
        let end_index: usize = index * ENTRY_SIZE;
        if partition_table_raw.len() < end_index {
            return Err(DecodeError::TableTooShort);
        }
        let start_index: usize = end_index - ENTRY_SIZE;
        let bootable: bool = partition_table_raw[start_index] == BOOT_ACTIVE;
        let lba_start: u32 = read_le_u32(partition_table_raw, start_index + 8);
        let sectors: u32 = read_le_u32(partition_table_raw, start_index + 12);
        Ok(PartitionTableEntry { bootable, lba_start, sector_count: sectors })
    }
}

/// The 64 bytes of a partition table, as found in the boot sector.
#[derive(Clone, Copy, Debug, PartialEq, Eq)]
pub struct PartitionTable {
    raw: [u8; 64],
}

impl View for PartitionTable {
    type V = Seq<u8>;

    closed spec fn view(&self) -> Seq<u8> {
        self.raw@
    }
}

impl PartitionTable {
    /// A table is 64 bytes long.
    pub proof fn lemma_len(self)
        ensures
            self@.len() == 64,
    {
    }

    /// Takes a copy of the table that `ptr` refers to.
    pub fn from_ptr(ptr: &[u8; 64]) -> (table: Self)
        ensures
            table@ == ptr@,
    {
        PartitionTable { raw: *ptr }
    }

    /// Decodes entry `index` of the table. Entries are counted from 1.
    pub fn load_entry(&self, index: usize) -> (result: Result<PartitionTableEntry, DecodeError>)
        ensures
            result == decode_entry(self@, index as int),
            result is Ok <==> 1 <= index <= 4,
    {
        PartitionTableEntry::from_raw(self.raw.as_slice(), index)
    }
}

} // verus!
