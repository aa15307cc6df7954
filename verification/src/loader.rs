//! The arithmetic of a staged load: how a run of sectors is cut into reads
//! of bounded size, and where each read starts on disk and in memory.

use crate::dap::{DiskAddressPacket, PacketFields};
use crate::firmware::sectors_requested;
use vstd::prelude::*;

verus! {

/// Bytes in a sector.
pub const LBA_SECTOR_SIZE: u16 = 512;

/// End of the memory that a firmware read can store to: `segment:offset`
/// pairs with the offset in the low four bits reach every address below
/// this one.
pub const ADDRESS_LIMIT: u32 = 0x10_0000;

/// Sectors that the next read asks for when `sectors_left` remain and a read
/// may ask for `cap` at most.
pub open spec fn next_chunk(sectors_left: nat, cap: nat) -> nat {
    if sectors_left < cap {
        sectors_left
    } else {
        cap
    }
}

/// Number of reads that `total` sectors take: `total / cap`, rounded up.
pub open spec fn chunk_count(total: nat, cap: nat) -> nat {
    ((total + cap - 1) / (cap as int)) as nat
}

/// Sectors that read `k` asks for, counted from 0.
pub open spec fn chunk_len(total: nat, cap: nat, k: nat) -> nat {
    next_chunk((total - k * cap) as nat, cap)
}

/// The packet for a read of `sectors` sectors from sector `lba` on, stored
/// at the linear address `addr`: the offset is the low four bits of the
/// address, the segment the rest.
pub open spec fn packet_for(sectors: nat, addr: nat, lba: nat) -> PacketFields {
    PacketFields {
        sector_count: sectors as u16,
        offset: (addr % 16) as u16,
        segment: (addr / 16) as u16,
        lba_start: lba as u64,
    }
}

/// The linear address that a packet's `segment:offset` pair names.
pub open spec fn linear_address(p: PacketFields) -> nat {
    (p.segment * 16 + p.offset) as nat
}

/// The reads of a load of `total` sectors that start at sector `lba` and go
/// to consecutive memory from `addr` on, `cap` sectors at most per read:
/// read `k` starts `k * cap` sectors into the partition.
pub open spec fn read_plan(total: nat, cap: nat, lba: nat, addr: nat) -> Seq<PacketFields> {
    Seq::new(
        chunk_count(total, cap),
        |k: int|
            packet_for(
                chunk_len(total, cap, k as nat),
                (addr + k * cap * 512) as nat,
                (lba + k * cap) as nat,
            ),
    )
}

/// The reads still to come when `sectors_left` sectors remain, the next one
/// at sector `lba` and for the address `addr`.
pub open spec fn remaining_reads(sectors_left: nat, cap: nat, lba: nat, addr: nat) -> Seq<
    PacketFields,
>
    decreases sectors_left,
{
    if sectors_left == 0 || cap == 0 {
        Seq::empty()
    } else {
        let n = next_chunk(sectors_left, cap);
        seq![packet_for(n, addr, lba)] + remaining_reads(
            (sectors_left - n) as nat,
            cap,
            lba + n,
            addr + n * 512,
        )
    }
}

/// `chunk_count` is the quotient rounded up: that many reads of `cap`
/// sectors cover `total`, and one fewer do not.
pub proof fn lemma_chunk_count_is_ceiling(total: nat, cap: nat)
    requires
        cap > 0,
    ensures
        chunk_count(total, cap) * cap >= total,
        total > 0 ==> (chunk_count(total, cap) - 1) * cap < total,
        total == 0 ==> chunk_count(total, cap) == 0,
{
    let c = cap as int;
    let x = total + cap - 1;
    assert(0 <= x) by (nonlinear_arith)
        requires
            x == total + cap - 1,
            cap > 0,
    ;
    assert(x == c * (x / c) + x % c && 0 <= x % c < c) by (nonlinear_arith)
        requires
            c > 0,
    ;
    assert((x / c) * c == c * (x / c)) by (nonlinear_arith);
    assert(((x / c) - 1) * c == c * (x / c) - c) by (nonlinear_arith);
    if total == 0 {
        assert(x / c == 0) by (nonlinear_arith)
            requires
                0 <= x < c,
        ;
    }
    assert(x / c >= 0) by (nonlinear_arith)
        requires
            x >= 0,
            c > 0,
    ;
}

/// After the first read the count is one less.
proof fn lemma_chunk_count_step(total: nat, cap: nat)
    requires
        cap > 0,
        total > 0,
    ensures
        chunk_count(total, cap) == 1 + chunk_count((total - next_chunk(total, cap)) as nat, cap),
{
    let c = cap as int;
    if total < cap {
        let x = total + cap - 1;
        assert(x / c == 1) by (nonlinear_arith)
            requires
                c <= x < 2 * c,
        ;
        let y = cap - 1;
        assert(y / c == 0) by (nonlinear_arith)
            requires
                0 <= y < c,
        ;
    } else {
        let x = total + cap - 1;
        let y = total - cap + cap - 1;
        assert(x / c == 1 + y / c) by (nonlinear_arith)
            requires
                x == y + c,
                c > 0,
                y >= 0,
        ;
    }
}

/// The reads still to come from the start of a load are the plan.
pub proof fn lemma_remaining_reads_is_plan(total: nat, cap: nat, lba: nat, addr: nat)
    requires
        cap > 0,
    ensures
        remaining_reads(total, cap, lba, addr) == read_plan(total, cap, lba, addr),
    decreases total,
{
    if total == 0 {
        lemma_chunk_count_is_ceiling(total, cap);
        assert(read_plan(total, cap, lba, addr) =~= Seq::<PacketFields>::empty());
    } else {
        let n = next_chunk(total, cap);
        let rest_total = (total - n) as nat;
        let rest = read_plan(rest_total, cap, lba + n, addr + n * 512);
        lemma_remaining_reads_is_plan(rest_total, cap, lba + n, addr + n * 512);
        lemma_chunk_count_step(total, cap);
        let plan = read_plan(total, cap, lba, addr);
        let joined = seq![packet_for(n, addr, lba)] + rest;
        assert(plan.len() == joined.len());
        assert forall|k: int| 0 <= k < plan.len() implies plan[k] == joined[k] by {
            if k == 0 {
                assert(0 * cap == 0) by (nonlinear_arith);
                assert(0 * cap * 512 == 0) by (nonlinear_arith);
            } else {
                assert(rest.len() > 0);
                assert(rest_total > 0) by {
                    lemma_chunk_count_is_ceiling(rest_total, cap);
                }
                assert(n == cap);
                assert(k * cap == (k - 1) * cap + cap) by (nonlinear_arith);
                assert(k * cap * 512 == (k - 1) * cap * 512 + cap * 512) by (nonlinear_arith);
                assert((k - 1) * cap >= 0) by (nonlinear_arith)
                    requires
                        k >= 1,
                        cap > 0,
                ;
                assert(joined[k] == rest[k - 1]);
                assert((total - k * cap) as nat == (rest_total - (k - 1) * cap) as nat);
            }
        }
        assert(plan =~= joined);
    }
}

/// Every read of a plan asks for at least one sector and at most `cap`, and
/// all but the last ask for exactly `cap`.
pub proof fn lemma_plan_chunk_sizes(total: nat, cap: nat, lba: nat, addr: nat, k: int)
    requires
        0 < cap <= 0xFFFF,
        0 <= k < chunk_count(total, cap),
    ensures
        read_plan(total, cap, lba, addr).len() == chunk_count(total, cap),
        1 <= read_plan(total, cap, lba, addr)[k].sector_count <= cap,
        read_plan(total, cap, lba, addr)[k].sector_count == chunk_len(total, cap, k as nat),
        k + 1 < chunk_count(total, cap) ==> read_plan(total, cap, lba, addr)[k].sector_count == cap,
        k * cap + chunk_len(total, cap, k as nat) <= total,
        k + 1 == chunk_count(total, cap) ==> k * cap + chunk_len(total, cap, k as nat) == total,
{
    lemma_chunk_count_is_ceiling(total, cap);
    let count = chunk_count(total, cap);
    assert(k * cap <= (count - 1) * cap) by (nonlinear_arith)
        requires
            0 <= k <= count - 1,
            cap > 0,
    ;
    assert(0 <= k * cap) by (nonlinear_arith)
        requires
            0 <= k,
            cap > 0,
    ;
    if k + 1 < count {
        assert((k + 1) * cap <= (count - 1) * cap) by (nonlinear_arith)
            requires
                k + 1 <= count - 1,
                cap > 0,
        ;
        assert((k + 1) * cap == k * cap + cap) by (nonlinear_arith);
    } else {
        assert((k + 1) * cap == k * cap + cap) by (nonlinear_arith);
        assert(count * cap == (k + 1) * cap);
    }
}

/// The reads of a plan ask for `total` sectors all together.
pub proof fn lemma_plan_covers_total(total: nat, cap: nat, lba: nat, addr: nat)
    requires
        0 < cap <= 0xFFFF,
    ensures
        sectors_requested(read_plan(total, cap, lba, addr)) == total,
{
    lemma_remaining_reads_is_plan(total, cap, lba, addr);
    lemma_remaining_reads_cover(total, cap, lba, addr);
}

proof fn lemma_remaining_reads_cover(sectors_left: nat, cap: nat, lba: nat, addr: nat)
    requires
        0 < cap <= 0xFFFF,
    ensures
        sectors_requested(remaining_reads(sectors_left, cap, lba, addr)) == sectors_left,
    decreases sectors_left,
{
    if sectors_left > 0 {
        let n = next_chunk(sectors_left, cap);
        let rest = remaining_reads(
            (sectors_left - n) as nat,
            cap,
            lba + n,
            addr + n * 512,
        );
        lemma_remaining_reads_cover((sectors_left - n) as nat, cap, lba + n, addr + n * 512);
        let all = remaining_reads(sectors_left, cap, lba, addr);
        assert(all.skip(1) =~= rest);
    }
}

/// Where the address fits 20 bits, a packet's `segment:offset` pair names
/// exactly the address it was made for.
pub proof fn lemma_packet_address(sectors: nat, addr: nat, lba: nat)
    requires
        addr < 0x10_0000,
    ensures
        linear_address(packet_for(sectors, addr, lba)) == addr,
        packet_for(sectors, addr, lba).offset < 16,
{
}

/// Read `k` of a plan that ends within reach starts `k * cap` sectors into
/// the partition and stores `k * cap * 512` bytes past the start address,
/// within the memory that the whole load takes.
pub proof fn lemma_plan_read(total: nat, cap: nat, lba: nat, addr: nat, k: int)
    requires
        0 < cap <= 0xFFFF,
        0 <= k < chunk_count(total, cap),
        addr + total * 512 <= ADDRESS_LIMIT,
        lba + total <= u64::MAX,
    ensures
        ({
            let p = read_plan(total, cap, lba, addr)[k];
            &&& p.sector_count == chunk_len(total, cap, k as nat)
            &&& p.lba_start == lba + k * cap
            &&& p.offset == (addr + k * cap * 512) % 16
            &&& p.segment == (addr + k * cap * 512) / 16
            &&& linear_address(p) == addr + k * cap * 512
            &&& linear_address(p) + p.sector_count * 512 <= addr + total * 512
        }),
{
    lemma_plan_chunk_sizes(total, cap, lba, addr, k);
    assert(k * cap >= 0) by (nonlinear_arith)
        requires
            k >= 0,
            cap > 0,
    ;
    assert(k * cap * 512 == (k * cap) * 512);
    lemma_packet_address(
        chunk_len(total, cap, k as nat),
        (addr + k * cap * 512) as nat,
        (lba + k * cap) as nat,
    );
}

/// Two runs of packets ask for the same sectors in the same order, whatever
/// their addresses.
pub open spec fn same_extents(a: Seq<PacketFields>, b: Seq<PacketFields>) -> bool {
    &&& a.len() == b.len()
    &&& forall|k: int|
        0 <= k < a.len() ==> (#[trigger] a[k]).sector_count == b[k].sector_count && a[k].lba_start
            == b[k].lba_start
}

/// What a packet's read delivers lies within the `capacity` bytes from
/// `start` on.
pub open spec fn lands_in(p: PacketFields, start: nat, capacity: nat) -> bool {
    start <= linear_address(p) && linear_address(p) + p.sector_count * 512 <= start + capacity
}

/// Two runs that each ask for the same sectors as a third ask for the same
/// sectors as each other.
pub proof fn lemma_same_extents_via(a: Seq<PacketFields>, b: Seq<PacketFields>, via: Seq<PacketFields>)
    requires
        same_extents(a, via),
        same_extents(b, via),
    ensures
        same_extents(a, b),
{
    assert forall|k: int| 0 <= k < a.len() implies (#[trigger] a[k]).sector_count
        == b[k].sector_count && a[k].lba_start == b[k].lba_start by {
        let x = a[k];
        let y = b[k];
        assert(x.sector_count == via[k].sector_count);
        assert(y.sector_count == via[k].sector_count);
    }
}

/// A run that starts like another and goes on like it asks for the same
/// sectors.
pub proof fn lemma_same_extents_cons(
    first: PacketFields,
    tail: Seq<PacketFields>,
    expected: Seq<PacketFields>,
)
    requires
        expected.len() > 0,
        first.sector_count == expected[0].sector_count,
        first.lba_start == expected[0].lba_start,
        same_extents(tail, expected.skip(1)),
    ensures
        same_extents(seq![first] + tail, expected),
{
    let all = seq![first] + tail;
    assert forall|k: int| 0 <= k < all.len() implies (#[trigger] all[k]).sector_count
        == expected[k].sector_count && all[k].lba_start == expected[k].lba_start by {
        if k > 0 {
            let x = tail[k - 1];
            assert(x.sector_count == expected.skip(1)[k - 1].sector_count);
            assert(all[k] == x);
        }
    }
}

/// Runs that ask for the same sectors ask for as many.
pub proof fn lemma_same_extents_same_total(a: Seq<PacketFields>, b: Seq<PacketFields>)
    requires
        same_extents(a, b),
    ensures
        sectors_requested(a) == sectors_requested(b),
    decreases a.len(),
{
    if a.len() > 0 {
        assert(a[0].sector_count == b[0].sector_count);
        assert forall|k: int| 0 <= k < a.skip(1).len() implies (#[trigger] a.skip(1)[k]).sector_count
            == b.skip(1)[k].sector_count && a.skip(1)[k].lba_start == b.skip(1)[k].lba_start by {
            let x = a[k + 1];
            assert(x.sector_count == b[k + 1].sector_count);
        }
        lemma_same_extents_same_total(a.skip(1), b.skip(1));
    }
}

/// Which sectors the reads to come ask for does not depend on the address.
pub proof fn lemma_extents_ignore_address(
    sectors_left: nat,
    cap: nat,
    lba: nat,
    addr: nat,
    other: nat,
)
    ensures
        same_extents(
            remaining_reads(sectors_left, cap, lba, addr),
            remaining_reads(sectors_left, cap, lba, other),
        ),
    decreases sectors_left,
{
    if sectors_left == 0 || cap == 0 {
    } else {
        let n = next_chunk(sectors_left, cap);
        lemma_extents_ignore_address(
            (sectors_left - n) as nat,
            cap,
            lba + n,
            addr + n * 512,
            other + n * 512,
        );
    }
}

/// Sectors to ask for in the next read.
pub fn sectors_to_read(sectors_left: u32, cap: u16) -> (sectors: u16)
    ensures
        sectors == next_chunk(sectors_left as nat, cap as nat),
{
    if sectors_left < cap as u32 {
        sectors_left as u16
    } else {
        cap
    }
}

/// The packet for a read of `sectors` sectors from sector `lba` on, stored
/// at `memory_addr`, which must lie below the address limit: the segment
/// has 16 bits.
pub fn packet_at(sectors: u16, memory_addr: u32, lba: u64) -> (packet: DiskAddressPacket)
    requires
        memory_addr < ADDRESS_LIMIT,
    ensures
        packet@ == packet_for(sectors as nat, memory_addr as nat, lba as nat),
        linear_address(packet@) == memory_addr,
{
    assert(memory_addr & 0xF == memory_addr % 16) by (bit_vector);
    assert(memory_addr >> 4 == memory_addr / 16) by (bit_vector);
    let offset: u16 = (memory_addr & 0xF) as u16;
    let segment: u16 = (memory_addr >> 4) as u16;
    DiskAddressPacket::new(sectors, offset, segment, lba)
}

} // verus!
