//! The disk address packet: the 16-byte record that describes one extended
//! (LBA) read request to the firmware.

use crate::endian::{byte_of_u64, le_byte, le_value};
use crate::firmware::{Action, ActionView};
use vstd::prelude::*;

verus! {

/// Size of a packet on the wire, and the value of its first byte.
pub const PACKET_SIZE: u8 = 0x10;

/// The most sectors that one firmware read may request.
pub const MAX_SECTORS_PER_READ: u16 = 127;

/// The fields of a packet that vary from one request to the next.
pub struct PacketFields {
    pub sector_count: u16,
    pub offset: u16,
    pub segment: u16,
    pub lba_start: u64,
}

/// One extended-read request: how many sectors, where they go
/// (`segment:offset`), and the sector they start at.
#[derive(Clone, Copy, Debug, PartialEq, Eq)]
pub struct DiskAddressPacket {
    packet_size: u8,
    always_zero: u8,
    sector_count: u16,
    offset: u16,
    segment: u16,
    lba_start: u64,
}

/// The 16 bytes handed to the firmware for a packet with these fields:
/// size, a zero byte, then sector count, offset, segment (two bytes each)
/// and the starting sector (eight bytes), all little-endian.
pub open spec fn wire_format(p: PacketFields) -> Seq<u8> {
    seq![
        PACKET_SIZE,
        0u8,
        le_byte(p.sector_count as int, 0),
        le_byte(p.sector_count as int, 1),
        le_byte(p.offset as int, 0),
        le_byte(p.offset as int, 1),
        le_byte(p.segment as int, 0),
        le_byte(p.segment as int, 1),
        le_byte(p.lba_start as int, 0),
        le_byte(p.lba_start as int, 1),
        le_byte(p.lba_start as int, 2),
        le_byte(p.lba_start as int, 3),
        le_byte(p.lba_start as int, 4),
        le_byte(p.lba_start as int, 5),
        le_byte(p.lba_start as int, 6),
        le_byte(p.lba_start as int, 7),
    ]
}

impl View for DiskAddressPacket {
    type V = PacketFields;

    closed spec fn view(&self) -> PacketFields {
        PacketFields {
            sector_count: self.sector_count,
            offset: self.offset,
            segment: self.segment,
            lba_start: self.lba_start,
        }
    }
}

impl DiskAddressPacket {
    #[verifier::type_invariant]
    spec fn well_formed(self) -> bool {
        self.packet_size == PACKET_SIZE && self.always_zero == 0
    }

    /// A packet that asks for `sector_count` sectors from sector `lba_start`
    /// on, to be stored at `segment:offset`.
    pub fn new(sector_count: u16, offset: u16, segment: u16, lba_start: u64) -> (packet: Self)
        ensures
            packet@ == (PacketFields { sector_count, offset, segment, lba_start }),
    {
        Self { packet_size: PACKET_SIZE, always_zero: 0, sector_count, segment, offset, lba_start }
    }

    /// The size byte of the packet: always 16.
    pub fn packet_size(&self) -> (size: u8)
        ensures
            size == 16,
    {
        proof {
            use_type_invariant(self);
        }
        self.packet_size
    }

    /// The reserved byte of the packet: always 0.
    pub fn always_zero(&self) -> (reserved: u8)
        ensures
            reserved == 0,
    {
        proof {
            use_type_invariant(self);
        }
        self.always_zero
    }

    /// Number of sectors to read.
    pub fn sector_count(&self) -> (count: u16)
        ensures
            count == self@.sector_count,
    {
        self.sector_count
    }

    /// Offset part of the destination address.
    pub fn offset(&self) -> (offset: u16)
        ensures
            offset == self@.offset,
    {
        self.offset
    }

    /// Segment part of the destination address.
    pub fn segment(&self) -> (segment: u16)
        ensures
            segment == self@.segment,
    {
        self.segment
    }

    /// First sector to read.
    pub fn lba_start(&self) -> (lba: u64)
        ensures
            lba == self@.lba_start,
    {
        self.lba_start
    }

    /// Asks for the read that this packet describes, on the given drive.
    /// The platform issues the request and reports the carry flag that the
    /// firmware left; `read_result` tells what the flag means.
    pub fn load(&self, drive_number: u8) -> (request: Action)
        ensures
            request@ == (ActionView::Read { packet: self@, drive: drive_number }),
    {
        Action::Read { packet: *self, drive: drive_number }
    }

    /// The packet as the firmware reads it from memory.
    pub fn to_bytes(&self) -> (bytes: [u8; 16])
        ensures
            bytes@ == wire_format(self@),
    {
        proof {
            use_type_invariant(self);
        }
        let sc: u64 = self.sector_count as u64;
        let off: u64 = self.offset as u64;
        let seg: u64 = self.segment as u64;
        let lba: u64 = self.lba_start;
        let bytes: [u8; 16] = [
            self.packet_size,
            self.always_zero,
            byte_of_u64(sc, 0),
            byte_of_u64(sc, 1),
            byte_of_u64(off, 0),
            byte_of_u64(off, 1),
            byte_of_u64(seg, 0),
            byte_of_u64(seg, 1),
            byte_of_u64(lba, 0),
            byte_of_u64(lba, 1),
            byte_of_u64(lba, 2),
            byte_of_u64(lba, 3),
            byte_of_u64(lba, 4),
            byte_of_u64(lba, 5),
            byte_of_u64(lba, 6),
            byte_of_u64(lba, 7),
        ];
        assert(bytes@ =~= wire_format(self@));
        bytes
    }
}

/// Reading the fields back out of the wire format gives the packet's
/// fields: the encoding loses nothing.
pub proof fn lemma_wire_format_round_trip(p: PacketFields)
    ensures
        wire_format(p).len() == 16,
        wire_format(p)[0] == 16,
        wire_format(p)[1] == 0,
        le_value(wire_format(p), 2, 2) == p.sector_count,
        le_value(wire_format(p), 4, 2) == p.offset,
        le_value(wire_format(p), 6, 2) == p.segment,
        le_value(wire_format(p), 8, 8) == p.lba_start,
{
    reveal_with_fuel(le_byte, 9);
    reveal_with_fuel(le_value, 9);
}

} // verus!
