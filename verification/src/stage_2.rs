//! The second stage: enter unreal mode, then load the kernel from
//! partition 2 to its destination above the first megabyte.
//!
//! Firmware reads cannot reach the destination, so every read lands in the
//! staging buffer and the buffer is flushed to the destination whenever the
//! next read would not fit, and once more at the end. The stage ends with a
//! halt: the jump into the kernel is left open.
//!
//! Like the first stage this is a state machine: `_start` yields the first
//! action and `SecondStage::step` each further one.

use crate::buffer::{zeros, DiskBuffer};
use crate::dap::{PacketFields, MAX_SECTORS_PER_READ};
use crate::firmware::{
    data_flushed, lemma_flushes_of_cons, lemma_reads_of_cons, placed_from, read_result, reads_of,
    sectors_requested, Action, ActionView, Event, EventView, FAULT,
};
use crate::loader::{
    ADDRESS_LIMIT, chunk_count, chunk_len, lands_in, lemma_extents_ignore_address, lemma_packet_address,
    linear_address,
    lemma_plan_chunk_sizes, lemma_plan_covers_total, lemma_remaining_reads_is_plan,
    lemma_same_extents_cons, lemma_same_extents_same_total, lemma_same_extents_via, next_chunk,
    packet_at, packet_for, read_plan, remaining_reads, same_extents, sectors_to_read,
};
use crate::partition::{entry_at, PartitionTable, PartitionTableEntry};
use crate::protected_mode::{enter_unreal_mode, unreal_mode_steps};
use crate::screen::{hex_text, print, print_char, print_hex};
use vstd::prelude::*;
use vstd::string::StringSliceAdditionalSpecFns;

verus! {

/// Greeting of the second stage.
pub const REAL_MODE_MSG: &'static str = "Entering second stage...";

/// Preamble of every fatal message.
pub const ERR_MSG: &'static str = "Fatal error: ";

/// Diagnostic byte: the kernel partition is not marked bootable.
pub const NOT_BOOTABLE: u8 = 0x42;

/// Diagnostic byte: a disk read of this stage failed.
pub const DISK_FAILURE: u8 = 0x81;

/// Diagnostic byte: the kernel is loaded, and the stage ends here.
pub const LOADED: u8 = 0x58;

/// Where the second stage stands.
#[derive(Clone, Copy, Debug, PartialEq, Eq, Structural)]
pub enum Phase {
    /// The greeting is being printed.
    Greeting,
    /// The CPU is being switched to unreal mode.
    Switching,
    /// The address of the staging buffer is being printed.
    Reporting,
    /// A read is under way.
    Reading,
    /// The buffer is being flushed to make room for the next read.
    Flushing,
    /// The buffer is being flushed for the last time.
    Draining,
    /// The CPU is halted.
    Halted,
}

/// The second stage as a plain value.
pub struct SecondStageModel {
    /// Drive that the firmware booted from.
    pub drive_number: u16,
    /// Address of the staging buffer.
    pub buffer_addr: u32,
    /// Address that the kernel is loaded to.
    pub kernel_dst: u32,
    /// Capacity of the staging buffer.
    pub capacity: nat,
    /// The raw partition table.
    pub table: Seq<u8>,
    /// Where the stage stands.
    pub phase: Phase,
    /// Sectors not yet read, the read under way included.
    pub sectors_left: u32,
    /// Sector that the read under way starts at.
    pub current_lba: u64,
    /// Address that the next flush copies to.
    pub destination: u32,
    /// Storage of the staging buffer.
    pub storage: Seq<u8>,
    /// Cursor of the staging buffer.
    pub used: nat,
    /// Diagnostic byte, once halted.
    pub code: u8,
}

/// The fatal message of this stage: the preamble, the diagnostic byte as a
/// character, and the byte in hexadecimal between square brackets.
pub open spec fn fatal_message(failbit: u8) -> Seq<u8> {
    ERR_MSG.spec_bytes().push(failbit).push(0x5Bu8) + hex_text(failbit as nat) + seq![0x5Du8]
}

/// The action that reports `failbit` and halts.
pub open spec fn fatal(failbit: u8) -> ActionView {
    ActionView::Halt { code: failbit, message: fatal_message(failbit) }
}

/// The partition that holds the kernel: entry 2 of the table.
pub open spec fn kernel_partition(s: SecondStageModel) -> PartitionTableEntry {
    entry_at(s.table, 16)
}

/// The most sectors that one read of this stage asks for: what the firmware
/// reads at once, or what the buffer holds if that is less.
pub open spec fn max_sectors(capacity: nat) -> nat {
    if capacity / 512 < MAX_SECTORS_PER_READ {
        capacity / 512
    } else {
        MAX_SECTORS_PER_READ as nat
    }
}

/// The load can be carried out: the buffer holds a sector and ends within
/// the memory that firmware reads reach, and the kernel ends within the
/// 32-bit address space.
pub open spec fn load_fits(s: SecondStageModel) -> bool {
    &&& s.capacity >= 512
    &&& s.buffer_addr + s.capacity <= ADDRESS_LIMIT
    &&& s.kernel_dst + kernel_partition(s).sector_count * 512 <= 0xFFFF_FFFF
}

/// The staged bytes: read, but not yet flushed.
pub open spec fn staged(s: SecondStageModel) -> Seq<u8> {
    s.storage.subrange(0, s.used as int)
}

/// The position in the load agrees with the number of sectors read so far:
/// what was read is either flushed or staged.
pub open spec fn on_course(s: SecondStageModel) -> bool {
    let entry = kernel_partition(s);
    let done = entry.sector_count - s.sectors_left;
    &&& load_fits(s)
    &&& entry.bootable
    &&& s.sectors_left <= entry.sector_count
    &&& s.current_lba == entry.lba_start + done
    &&& s.destination + s.used == s.kernel_dst + done * 512
}

/// What holds of the stage at every point. The cursor of the buffer never
/// passes its capacity.
pub open spec fn consistent(s: SecondStageModel) -> bool {
    &&& s.table.len() == 64
    &&& s.storage.len() == s.capacity
    &&& s.used <= s.capacity
    &&& (s.phase == Phase::Greeting || s.phase == Phase::Switching || s.phase == Phase::Reporting)
        ==> s.used == 0 && s.destination == s.kernel_dst
    &&& s.phase == Phase::Reading ==> on_course(s) && s.sectors_left > 0 && next_chunk(
        s.sectors_left as nat,
        max_sectors(s.capacity),
    ) * 512 <= s.capacity - s.used
    &&& s.phase == Phase::Flushing ==> on_course(s) && s.sectors_left > 0
    &&& s.phase == Phase::Draining ==> on_course(s) && s.sectors_left == 0
    &&& (s.phase == Phase::Halted && s.code == LOADED) ==> on_course(s) && s.sectors_left == 0
        && s.used == 0
}

/// The stage as `_start` leaves it.
pub open spec fn booted(
    drive_number: u16,
    buffer_addr: u32,
    kernel_dst: u32,
    capacity: nat,
    table: Seq<u8>,
) -> SecondStageModel {
    SecondStageModel {
        drive_number,
        buffer_addr,
        kernel_dst,
        capacity,
        table,
        phase: Phase::Greeting,
        sectors_left: 0,
        current_lba: 0,
        destination: kernel_dst,
        storage: zeros(capacity),
        used: 0,
        code: 0,
    }
}

/// Halts with `failbit`.
pub open spec fn halt(s: SecondStageModel, failbit: u8) -> (SecondStageModel, ActionView) {
    (SecondStageModel { phase: Phase::Halted, code: failbit, ..s }, fatal(failbit))
}

/// The flush of everything staged.
pub open spec fn flush(s: SecondStageModel) -> ActionView {
    ActionView::Flush { destination: s.destination, data: staged(s) }
}

/// The stage once the flush is carried out: the destination has moved past
/// what was flushed, and the buffer is cleared.
pub open spec fn flushed(s: SecondStageModel) -> SecondStageModel {
    SecondStageModel {
        destination: (s.destination + s.used) as u32,
        storage: zeros(s.capacity),
        used: 0,
        ..s
    }
}

/// The stage once `data` has arrived at the cursor and the cursor has moved
/// past it.
pub open spec fn received(s: SecondStageModel, data: Seq<u8>) -> SecondStageModel {
    let sectors = next_chunk(s.sectors_left as nat, max_sectors(s.capacity));
    SecondStageModel {
        sectors_left: (s.sectors_left - sectors) as u32,
        current_lba: (s.current_lba + sectors) as u64,
        storage: s.storage.subrange(0, s.used as int) + data + s.storage.subrange(
            (s.used + data.len()) as int,
            s.capacity as int,
        ),
        used: s.used + data.len(),
        ..s
    }
}

/// Asks for the next read if it fits the buffer, flushes if it does not, and
/// flushes for the last time when no sector is left.
pub open spec fn proceed(s: SecondStageModel) -> (SecondStageModel, ActionView) {
    let sectors = next_chunk(s.sectors_left as nat, max_sectors(s.capacity));
    if s.sectors_left == 0 {
        (SecondStageModel { phase: Phase::Draining, ..s }, flush(s))
    } else if sectors * 512 > s.capacity - s.used {
        (SecondStageModel { phase: Phase::Flushing, ..s }, flush(s))
    } else {
        (
            SecondStageModel { phase: Phase::Reading, ..s },
            ActionView::Read {
                packet: packet_for(sectors, (s.buffer_addr + s.used) as nat, s.current_lba as nat),
                drive: (s.drive_number % 0x100) as u8,
            },
        )
    }
}

/// Starts the load. A kernel partition that is not bootable is reported as
/// such; a load that cannot be carried out is a fault.
pub open spec fn begin_load(s: SecondStageModel) -> (SecondStageModel, ActionView) {
    let entry = kernel_partition(s);
    if !entry.bootable {
        halt(s, NOT_BOOTABLE)
    } else if !load_fits(s) {
        halt(s, FAULT)
    } else {
        proceed(
            SecondStageModel {
                sectors_left: entry.sector_count,
                current_lba: entry.lba_start as u64,
                destination: s.kernel_dst,
                ..s
            },
        )
    }
}

/// The read under way delivered `data` without a failure and in full.
pub open spec fn accepts(s: SecondStageModel, event: EventView) -> bool {
    &&& s.phase == Phase::Reading
    &&& event matches EventView::ReadDone { carry, data }
    &&& !carry
    &&& data.len() == next_chunk(s.sectors_left as nat, max_sectors(s.capacity)) * 512
}

/// The next state and action, given the state and what the platform
/// reports. A read that fails, or delivers more or less than was asked for,
/// halts the stage. A report that does not answer the last action is a
/// fault. Once halted, the stage stays as it is and repeats the halt.
pub open spec fn step(s: SecondStageModel, event: EventView) -> (SecondStageModel, ActionView) {
    match s.phase {
        Phase::Greeting => match event {
            EventView::Done => (
                SecondStageModel { phase: Phase::Switching, ..s },
                ActionView::Cpu(unreal_mode_steps()),
            ),
            _ => halt(s, FAULT),
        },
        Phase::Switching => match event {
            EventView::Done => (
                SecondStageModel { phase: Phase::Reporting, ..s },
                ActionView::Print(hex_text(s.buffer_addr as nat)),
            ),
            _ => halt(s, FAULT),
        },
        Phase::Reporting => match event {
            EventView::Done => begin_load(s),
            _ => halt(s, FAULT),
        },
        Phase::Reading => match event {
            EventView::ReadDone { carry, data } => if accepts(s, event) {
                proceed(received(s, data))
            } else {
                halt(s, DISK_FAILURE)
            },
            _ => halt(s, FAULT),
        },
        Phase::Flushing => match event {
            EventView::Done => proceed(flushed(s)),
            _ => halt(s, FAULT),
        },
        Phase::Draining => match event {
            EventView::Done => halt(flushed(s), LOADED),
            _ => halt(s, FAULT),
        },
        Phase::Halted => (s, fatal(s.code)),
    }
}

/// The state after `events`, and the actions taken on the way.
pub open spec fn run(s: SecondStageModel, events: Seq<EventView>) -> (
    SecondStageModel,
    Seq<ActionView>,
)
    decreases events.len(),
{
    if events.len() == 0 {
        (s, Seq::empty())
    } else {
        let (next, action) = step(s, events[0]);
        let (last, actions) = run(next, events.skip(1));
        (last, seq![action] + actions)
    }
}

/// The bytes that the stage takes in over `events`: what each read that it
/// accepts delivers, in order.
pub open spec fn data_accepted(s: SecondStageModel, events: Seq<EventView>) -> Seq<u8>
    decreases events.len(),
{
    if events.len() == 0 {
        Seq::empty()
    } else {
        let rest = data_accepted(step(s, events[0]).0, events.skip(1));
        if accepts(s, events[0]) {
            events[0]->ReadDone_data + rest
        } else {
            rest
        }
    }
}

/// The reads that the stage has yet to ask for. Their addresses are left
/// open: they depend on how full the buffer is when each is asked for.
pub open spec fn reads_to_come(s: SecondStageModel) -> Seq<PacketFields> {
    let cap = max_sectors(s.capacity);
    match s.phase {
        Phase::Greeting | Phase::Switching | Phase::Reporting => {
            let entry = kernel_partition(s);
            remaining_reads(entry.sector_count as nat, cap, entry.lba_start as nat, 0)
        },
        Phase::Reading => {
            let n = next_chunk(s.sectors_left as nat, cap);
            remaining_reads((s.sectors_left - n) as nat, cap, (s.current_lba + n) as nat, 0)
        },
        Phase::Flushing => remaining_reads(s.sectors_left as nat, cap, s.current_lba as nat, 0),
        _ => Seq::empty(),
    }
}

/// The staged bytes that no flush has been asked for yet.
pub open spec fn unflushed(s: SecondStageModel) -> Seq<u8> {
    match s.phase {
        Phase::Flushing | Phase::Draining => Seq::empty(),
        _ => staged(s),
    }
}

/// Where the next flush to be asked for copies to.
pub open spec fn next_flush_at(s: SecondStageModel) -> int {
    match s.phase {
        Phase::Flushing | Phase::Draining => s.destination + s.used,
        _ => s.destination as int,
    }
}

/// Every packet of `packets` stores within the staging buffer.
pub open spec fn all_land_in(packets: Seq<PacketFields>, start: nat, capacity: nat) -> bool {
    forall|k: int| 0 <= k < packets.len() ==> lands_in(#[trigger] packets[k], start, capacity)
}

/// The stage has ended with the kernel loaded.
pub open spec fn loaded(s: SecondStageModel) -> bool {
    s.phase == Phase::Halted && s.code == LOADED
}

/// A step keeps what holds of the stage, and never changes the drive, the
/// addresses, the capacity or the table.
pub proof fn lemma_step_keeps_consistent(s: SecondStageModel, event: EventView)
    requires
        consistent(s),
    ensures
        consistent(step(s, event).0),
        step(s, event).0.drive_number == s.drive_number,
        step(s, event).0.buffer_addr == s.buffer_addr,
        step(s, event).0.kernel_dst == s.kernel_dst,
        step(s, event).0.capacity == s.capacity,
        step(s, event).0.table == s.table,
{
}

/// No read overruns the staging buffer: whatever the stage is told, the
/// cursor stays within the capacity, and a read is only asked for when what
/// it delivers fits behind the cursor. Where it would not fit, the stage
/// asks for a flush instead.
pub proof fn lemma_reads_fit_the_buffer(s: SecondStageModel, event: EventView)
    requires
        consistent(s),
    ensures
        ({
            let (next, action) = step(s, event);
            &&& next.used <= next.capacity
            &&& action matches ActionView::Read { packet, drive } ==> {
                &&& next.used + packet.sector_count * 512 <= next.capacity
                &&& lands_in(packet, next.buffer_addr as nat, next.capacity)
                &&& linear_address(packet) == next.buffer_addr + next.used
            }
        }),
{
    let (next, action) = step(s, event);
    lemma_step_keeps_consistent(s, event);
    if action is Read {
        lemma_packet_address(
            next_chunk(next.sectors_left as nat, max_sectors(next.capacity)),
            (next.buffer_addr + next.used) as nat,
            next.current_lba as nat,
        );
    }
}

/// A halt is final: whatever is reported afterwards, the stage stays halted
/// with the same diagnostic byte, repeats the halt, asks for no read and no
/// flush, and takes in no data.
pub proof fn lemma_halt_is_final(s: SecondStageModel, events: Seq<EventView>)
    requires
        s.phase == Phase::Halted,
    ensures
        run(s, events).0 == s,
        run(s, events).1.len() == events.len(),
        forall|i: int| 0 <= i < events.len() ==> run(s, events).1[i] == fatal(s.code),
        reads_of(run(s, events).1) == Seq::<PacketFields>::empty(),
        data_flushed(run(s, events).1) == Seq::<u8>::empty(),
        data_accepted(s, events) == Seq::<u8>::empty(),
        forall|start: int| placed_from(run(s, events).1, start),
    decreases events.len(),
{
    if events.len() > 0 {
        lemma_halt_is_final(s, events.skip(1));
        lemma_reads_of_cons(fatal(s.code), run(s, events.skip(1)).1);
        assert forall|start: int| placed_from(run(s, events).1, start) by {
            lemma_flushes_of_cons(fatal(s.code), run(s, events.skip(1)).1, start);
        }
        lemma_flushes_of_cons(fatal(s.code), run(s, events.skip(1)).1, 0);
    }
}

/// What a read delivers is staged behind what was staged before.
proof fn lemma_received_staged(s: SecondStageModel, data: Seq<u8>)
    requires
        s.storage.len() == s.capacity,
        s.used + data.len() <= s.capacity,
    ensures
        staged(received(s, data)) == staged(s) + data,
        received(s, data).storage.len() == s.capacity,
{
    assert(staged(received(s, data)) =~= staged(s) + data);
}

/// Whatever is reported, a run that ends with the kernel loaded has asked
/// for exactly the sectors that were still to come, every read into the
/// staging buffer, and has flushed, without a gap, what was staged and what
/// the reads delivered, in order.
pub proof fn lemma_run_load(s: SecondStageModel, events: Seq<EventView>)
    requires
        consistent(s),
    ensures
        consistent(run(s, events).0),
        run(s, events).0.drive_number == s.drive_number,
        run(s, events).0.buffer_addr == s.buffer_addr,
        run(s, events).0.kernel_dst == s.kernel_dst,
        run(s, events).0.capacity == s.capacity,
        run(s, events).0.table == s.table,
        loaded(run(s, events).0) ==> {
            &&& same_extents(reads_of(run(s, events).1), reads_to_come(s))
            &&& all_land_in(reads_of(run(s, events).1), s.buffer_addr as nat, s.capacity)
            &&& data_flushed(run(s, events).1) == unflushed(s) + data_accepted(s, events)
            &&& placed_from(run(s, events).1, next_flush_at(s))
            &&& next_flush_at(s) + data_flushed(run(s, events).1).len() == run(s, events).0.destination
        },
    decreases events.len(),
{
    if events.len() == 0 {
        if loaded(s) {
            assert(unflushed(s) + data_accepted(s, events) =~= Seq::<u8>::empty());
        }
    } else {
        let event = events[0];
        let (next, action) = step(s, event);
        let rest = events.skip(1);
        let (last, tail) = run(next, rest);
        lemma_step_keeps_consistent(s, event);
        lemma_run_load(next, rest);
        lemma_reads_of_cons(action, tail);
        lemma_flushes_of_cons(action, tail, next_flush_at(s));
        if next.phase == Phase::Halted {
            lemma_halt_is_final(next, rest);
            if loaded(last) {
                assert(unflushed(s) + data_accepted(s, events) =~= Seq::<u8>::empty());
            }
        } else if loaded(last) {
            match s.phase {
                Phase::Greeting | Phase::Switching => {
                    assert(unflushed(s) =~= unflushed(next));
                },
                Phase::Reporting => {
                    let entry = kernel_partition(s);
                    let start = SecondStageModel {
                        sectors_left: entry.sector_count,
                        current_lba: entry.lba_start as u64,
                        destination: s.kernel_dst,
                        ..s
                    };
                    lemma_proceed(start);
                    assert(unflushed(s) =~= staged(start));
                    lemma_extents_joined(action, reads_of(tail), reads_to_come(s), reads_to_come(next));
                },
                Phase::Reading => {
                    let data = event->ReadDone_data;
                    lemma_received_staged(s, data);
                    lemma_proceed(received(s, data));
                    assert((staged(s) + data) + (Seq::<u8>::empty() + data_accepted(next, rest))
                        =~= staged(s) + (data + data_accepted(next, rest)));
                    assert((staged(s) + data) + data_accepted(next, rest) =~= staged(s) + (data
                        + data_accepted(next, rest)));
                    lemma_extents_joined(action, reads_of(tail), reads_to_come(s), reads_to_come(next));
                },
                Phase::Flushing => {
                    lemma_proceed(flushed(s));
                    assert(staged(flushed(s)) =~= Seq::<u8>::empty());
                    lemma_extents_joined(action, reads_of(tail), reads_to_come(s), reads_to_come(next));
                },
                _ => {},
            }
        }
    }
}

/// The reads of an action and of what follows it ask for the expected
/// sectors, if the action asks for the first of them and what follows for
/// the rest, or the action is no read and what follows asks for all.
proof fn lemma_extents_joined(
    action: ActionView,
    tail: Seq<PacketFields>,
    expected: Seq<PacketFields>,
    after: Seq<PacketFields>,
)
    requires
        same_extents(tail, after),
        action matches ActionView::Read { packet, drive } ==> {
            &&& expected.len() > 0
            &&& expected[0].sector_count == packet.sector_count
            &&& expected[0].lba_start == packet.lba_start
            &&& same_extents(expected.skip(1), after)
        },
        !(action is Read) ==> same_extents(expected, after),
    ensures
        action matches ActionView::Read { packet, drive } ==> same_extents(
            seq![packet] + tail,
            expected,
        ),
        !(action is Read) ==> same_extents(tail, expected),
{
    match action {
        ActionView::Read { packet, drive } => {
            lemma_same_extents_via(tail, expected.skip(1), after);
            lemma_same_extents_cons(packet, tail, expected);
        },
        _ => {
            lemma_same_extents_via(tail, expected, after);
        },
    }
}

/// What `proceed` asks for, in terms of what is still to come.
proof fn lemma_proceed(s: SecondStageModel)
    requires
        on_course(s),
        s.storage.len() == s.capacity,
        s.used <= s.capacity,
        s.table.len() == 64,
    ensures
        ({
            let (next, action) = proceed(s);
            let cap = max_sectors(s.capacity);
            let expected = remaining_reads(s.sectors_left as nat, cap, s.current_lba as nat, 0);
            &&& consistent(next)
            &&& next.phase != Phase::Halted
            &&& action matches ActionView::Read { packet, drive } ==> {
                &&& lands_in(packet, s.buffer_addr as nat, s.capacity)
                &&& expected.len() > 0
                &&& expected[0].sector_count == packet.sector_count
                &&& expected[0].lba_start == packet.lba_start
                &&& same_extents(expected.skip(1), reads_to_come(next))
                &&& unflushed(next) == staged(s)
                &&& next_flush_at(next) == s.destination
            }
            &&& action matches ActionView::Flush { destination, data } ==> {
                &&& same_extents(expected, reads_to_come(next))
                &&& data == staged(s)
                &&& destination == s.destination
                &&& unflushed(next) == Seq::<u8>::empty()
                &&& next_flush_at(next) == s.destination + s.used
            }
            &&& action is Read || action is Flush
        }),
{
    let cap = max_sectors(s.capacity);
    let (next, action) = proceed(s);
    let n = next_chunk(s.sectors_left as nat, cap);
    assert(cap >= 1);
    assert(cap * 512 <= s.capacity);
    if s.sectors_left == 0 {
    } else if n * 512 > s.capacity - s.used {
    } else {
        let expected = remaining_reads(s.sectors_left as nat, cap, s.current_lba as nat, 0);
        let tail = remaining_reads(
            (s.sectors_left - n) as nat,
            cap,
            (s.current_lba + n) as nat,
            (0 + n * 512) as nat,
        );
        assert(expected.skip(1) =~= tail);
        lemma_extents_ignore_address(
            (s.sectors_left - n) as nat,
            cap,
            (s.current_lba + n) as nat,
            (0 + n * 512) as nat,
            0,
        );
        lemma_packet_address(n, (s.buffer_addr + s.used) as nat, s.current_lba as nat);
    }
}

/// What a platform reports when no read fails: the answer to the action
/// that the stage is waiting on. A read delivers as many bytes as it was
/// asked for.
pub open spec fn good_report(s: SecondStageModel) -> EventView {
    match s.phase {
        Phase::Reading => EventView::ReadDone {
            carry: false,
            data: zeros(next_chunk(s.sectors_left as nat, max_sectors(s.capacity)) * 512),
        },
        _ => EventView::Done,
    }
}

/// The first `n` reports of such a platform.
pub open spec fn good_reports(s: SecondStageModel, n: nat) -> Seq<EventView>
    decreases n,
{
    if n == 0 {
        Seq::empty()
    } else {
        seq![good_report(s)] + good_reports(step(s, good_report(s)).0, (n - 1) as nat)
    }
}

/// One more good report in front of a run.
proof fn lemma_run_good_reports(s: SecondStageModel, n: nat)
    ensures
        run(s, good_reports(s, n + 1)).0 == run(
            step(s, good_report(s)).0,
            good_reports(step(s, good_report(s)).0, n),
        ).0,
{
    let next = step(s, good_report(s)).0;
    assert(good_reports(s, n + 1).skip(1) =~= good_reports(next, n));
}

/// Steps that a load under way still takes, at most.
spec fn steps_left(s: SecondStageModel) -> nat {
    match s.phase {
        Phase::Reading => 2 * s.sectors_left as nat + 2,
        Phase::Flushing => 2 * s.sectors_left as nat + 3,
        Phase::Draining => 1,
        _ => 0,
    }
}

/// A load under way ends with the kernel loaded if no read fails.
proof fn lemma_reads_complete(s: SecondStageModel)
    requires
        consistent(s),
        s.phase == Phase::Reading || s.phase == Phase::Flushing || s.phase == Phase::Draining
            || loaded(s),
    ensures
        exists|n: nat| loaded((#[trigger] run(s, good_reports(s, n))).0),
    decreases steps_left(s),
{
    if loaded(s) {
        assert(loaded(run(s, good_reports(s, 0)).0));
    } else {
        let next = step(s, good_report(s)).0;
        lemma_step_keeps_consistent(s, good_report(s));
        if s.phase == Phase::Flushing {
            lemma_proceed(flushed(s));
        }
        lemma_reads_complete(next);
        let n = choose|n: nat| loaded((#[trigger] run(next, good_reports(next, n))).0);
        lemma_run_good_reports(s, n);
        assert(loaded(run(s, good_reports(s, n + 1)).0));
    }
}

/// Every load that can be carried out completes: if the kernel partition
/// is bootable and the load fits, and no read fails, the stage ends with
/// the kernel loaded.
pub proof fn lemma_load_completes(
    drive_number: u16,
    buffer_addr: u32,
    kernel_dst: u32,
    capacity: nat,
    table: Seq<u8>,
)
    requires
        table.len() == 64,
        entry_at(table, 16).bootable,
        load_fits(booted(drive_number, buffer_addr, kernel_dst, capacity, table)),
    ensures
        exists|n: nat|
            loaded(
                (#[trigger] run(
                    booted(drive_number, buffer_addr, kernel_dst, capacity, table),
                    good_reports(booted(drive_number, buffer_addr, kernel_dst, capacity, table), n),
                )).0,
            ),
{
    let s0 = booted(drive_number, buffer_addr, kernel_dst, capacity, table);
    let s1 = step(s0, good_report(s0)).0;
    let s2 = step(s1, good_report(s1)).0;
    let s3 = step(s2, good_report(s2)).0;
    assert(s0.storage.len() == capacity);
    lemma_step_keeps_consistent(s0, good_report(s0));
    lemma_step_keeps_consistent(s1, good_report(s1));
    lemma_step_keeps_consistent(s2, good_report(s2));
    lemma_reads_complete(s3);
    let n = choose|n: nat| loaded((#[trigger] run(s3, good_reports(s3, n))).0);
    lemma_run_good_reports(s2, n);
    lemma_run_good_reports(s1, n + 1);
    lemma_run_good_reports(s0, n + 2);
    assert(loaded(run(s0, good_reports(s0, n + 3)).0));
}

/// Every read goes to the drive that the firmware booted from, and the run
/// answers every report with one action.
pub proof fn lemma_reads_use_the_boot_drive(s: SecondStageModel, events: Seq<EventView>, i: int)
    requires
        0 <= i < events.len(),
    ensures
        run(s, events).1.len() == events.len(),
        run(s, events).0.drive_number == s.drive_number,
        run(s, events).1[i] matches ActionView::Read { packet, drive } ==> drive == s.drive_number
            % 0x100,
    decreases events.len(),
{
    let next = step(s, events[0]).0;
    lemma_run_length(next, events.skip(1));
    if i > 0 {
        lemma_reads_use_the_boot_drive(next, events.skip(1), i - 1);
    }
}

/// A run answers every report with one action and keeps the drive number.
proof fn lemma_run_length(s: SecondStageModel, events: Seq<EventView>)
    ensures
        run(s, events).1.len() == events.len(),
        run(s, events).0.drive_number == s.drive_number,
    decreases events.len(),
{
    if events.len() > 0 {
        lemma_run_length(step(s, events[0]).0, events.skip(1));
    }
}

/// A load that ends with the kernel loaded has read the whole partition and
/// flushed it to the destination, byte for byte.
///
/// The reads are one for every `cap` sectors of the partition, rounded up,
/// where `cap` is 127 or the number of sectors that the buffer holds, if
/// that is less. Read `k` starts `cap * k` sectors into the partition, asks
/// for `cap` sectors or for what is left, and stores within the staging
/// buffer. The flushes copy exactly what the reads delivered, in the same
/// order, to consecutive memory from the kernel's address on: 512 bytes
/// for each sector of the partition.
pub proof fn lemma_complete_load(
    drive_number: u16,
    buffer_addr: u32,
    kernel_dst: u32,
    capacity: nat,
    table: Seq<u8>,
    events: Seq<EventView>,
)
    requires
        table.len() == 64,
        loaded(run(booted(drive_number, buffer_addr, kernel_dst, capacity, table), events).0),
    ensures
        ({
            let s = booted(drive_number, buffer_addr, kernel_dst, capacity, table);
            let entry = entry_at(table, 16);
            let total = entry.sector_count as nat;
            let cap = max_sectors(capacity);
            let (last, actions) = run(s, events);
            let reads = reads_of(actions);
            &&& entry.bootable
            &&& 1 <= cap <= 127
            &&& cap * 512 <= capacity
            &&& reads.len() == chunk_count(total, cap)
            &&& forall|k: int|
                0 <= k < reads.len() ==> {
                    &&& (#[trigger] reads[k]).sector_count == chunk_len(total, cap, k as nat)
                    &&& 1 <= reads[k].sector_count <= cap
                    &&& reads[k].lba_start == entry.lba_start + k * cap
                    &&& lands_in(reads[k], buffer_addr as nat, capacity)
                }
            &&& sectors_requested(reads) == total
            &&& data_flushed(actions) == data_accepted(s, events)
            &&& data_flushed(actions).len() == total * 512
            &&& placed_from(actions, kernel_dst as int)
            &&& last.destination == kernel_dst + total * 512
        }),
{
    let s = booted(drive_number, buffer_addr, kernel_dst, capacity, table);
    let entry = entry_at(table, 16);
    let total = entry.sector_count as nat;
    let lba = entry.lba_start as nat;
    let cap = max_sectors(capacity);
    let (last, actions) = run(s, events);
    let reads = reads_of(actions);
    assert(s.storage.len() == capacity);
    lemma_run_load(s, events);
    assert(unflushed(s) + data_accepted(s, events) =~= data_accepted(s, events));
    let plan = read_plan(total, cap, lba, 0);
    lemma_remaining_reads_is_plan(total, cap, lba, 0);
    lemma_plan_covers_total(total, cap, lba, 0);
    lemma_same_extents_same_total(reads, plan);
    assert forall|k: int| 0 <= k < reads.len() implies {
        &&& (#[trigger] reads[k]).sector_count == chunk_len(total, cap, k as nat)
        &&& 1 <= reads[k].sector_count <= cap
        &&& reads[k].lba_start == entry.lba_start + k * cap
        &&& lands_in(reads[k], buffer_addr as nat, capacity)
    } by {
        lemma_plan_chunk_sizes(total, cap, lba, 0, k);
        let p = reads[k];
        assert(p.sector_count == plan[k].sector_count);
        assert(k * cap >= 0) by (nonlinear_arith)
            requires
                k >= 0,
                cap >= 0,
        ;
    }
}

/// The second stage, with a staging buffer of `N` bytes.
pub struct SecondStage<const N: usize> {
    drive_number: u16,
    buffer_addr: u32,
    kernel_dst: u32,
    table: PartitionTable,
    phase: Phase,
    sectors_left: u32,
    current_lba: u64,
    destination: u32,
    buffer: DiskBuffer<N>,
    code: u8,
}

impl<const N: usize> View for SecondStage<N> {
    type V = SecondStageModel;

    closed spec fn view(&self) -> SecondStageModel {
        SecondStageModel {
            drive_number: self.drive_number,
            buffer_addr: self.buffer_addr,
            kernel_dst: self.kernel_dst,
            capacity: N as nat,
            table: self.table@,
            phase: self.phase,
            sectors_left: self.sectors_left,
            current_lba: self.current_lba,
            destination: self.destination,
            storage: self.buffer.storage(),
            used: self.buffer.used(),
            code: self.code,
        }
    }
}

/// The action that reports `failbit` and halts: the message is the
/// preamble, `failbit` as a character, and `failbit` in hexadecimal between
/// square brackets.
pub fn err_fatal(failbit: u8) -> (action: Action)
    ensures
        action@ == fatal(failbit),
{
    let mut message: Vec<u8> = Vec::new();
    print(&mut message, ERR_MSG);
    print_char(&mut message, failbit);
    print_char(&mut message, 0x5B);
    print_hex(&mut message, failbit as u32);
    print_char(&mut message, 0x5D);
    assert(message@ =~= fatal_message(failbit));
    Action::Halt { code: failbit, message }
}

/// Enters the second stage on the drive that the firmware booted from, with
/// the partition table that the first stage passed on. The staging buffer
/// lies at `buffer_addr` and the kernel goes to `kernel_dst`. The first
/// action prints the greeting.
pub fn _start<const N: usize>(
    drive_number: u16,
    partition_table_ptr: &[u8; 64],
    buffer_addr: u32,
    kernel_dst: u32,
) -> (started: (SecondStage<N>, Action))
    ensures
        started.0@ == booted(drive_number, buffer_addr, kernel_dst, N as nat, partition_table_ptr@),
        started.1@ == ActionView::Print(REAL_MODE_MSG.spec_bytes()),
        consistent(started.0@),
{
    let mut greeting: Vec<u8> = Vec::new();
    print(&mut greeting, REAL_MODE_MSG);
    assert(greeting@ =~= REAL_MODE_MSG.spec_bytes());
    let table = PartitionTable::from_ptr(partition_table_ptr);
    let buffer: DiskBuffer<N> = DiskBuffer::new();
    let len: usize = buffer.len();
    (
        SecondStage {
            drive_number,
            buffer_addr,
            kernel_dst,
            table,
            phase: Phase::Greeting,
            sectors_left: 0,
            current_lba: 0,
            destination: kernel_dst,
            buffer,
            code: 0,
        },
        Action::Print(greeting),
    )
}

/// The most sectors that one read asks for with a buffer of `capacity`
/// bytes.
pub fn sectors_per_read(capacity: usize) -> (sectors: u16)
    ensures
        sectors == max_sectors(capacity as nat),
{
    if capacity / 512 < MAX_SECTORS_PER_READ as usize {
        (capacity / 512) as u16
    } else {
        MAX_SECTORS_PER_READ
    }
}

impl<const N: usize> SecondStage<N> {
    #[verifier::type_invariant]
    spec fn well_formed(self) -> bool {
        consistent(self@)
    }

    /// Where the stage stands.
    pub fn phase(&self) -> (phase: Phase)
        ensures
            phase == self@.phase,
    {
        self.phase
    }

    /// Sectors not yet read.
    pub fn sectors_left(&self) -> (sectors: u32)
        ensures
            sectors == self@.sectors_left,
    {
        self.sectors_left
    }

    /// Sector that the next read starts at.
    pub fn current_lba(&self) -> (lba: u64)
        ensures
            lba == self@.current_lba,
    {
        self.current_lba
    }

    /// Address that the next flush copies to. When the stage has ended with
    /// the kernel loaded, this is the kernel's address plus 512 bytes for
    /// each sector of the partition.
    pub fn kernel_dst(&self) -> (addr: u32)
        ensures
            addr == self@.destination,
            self@.phase == Phase::Halted && self@.code == LOADED ==> addr == self@.kernel_dst
                + kernel_partition(self@).sector_count * 512,
    {
        proof {
            use_type_invariant(self);
        }
        self.destination
    }

    /// The staging buffer.
    pub fn buffer(&self) -> (buffer: &DiskBuffer<N>)
        ensures
            buffer.storage() == self@.storage,
            buffer.used() == self@.used,
    {
        &self.buffer
    }

    /// Diagnostic byte of the halt, if the stage has halted.
    pub fn halt_code(&self) -> (code: Option<u8>)
        ensures
            code == if self@.phase == Phase::Halted {
                Some(self@.code)
            } else {
                None
            },
    {
        match self.phase {
            Phase::Halted => Some(self.code),
            _ => None,
        }
    }
    fn halt(self, failbit: u8) -> (next: (Self, Action))
        requires
            failbit != LOADED,
        ensures
            (next.0@, next.1@) == halt(self@, failbit),
            consistent(next.0@),
    {
        proof {
            use_type_invariant(&self);
        }
        (SecondStage { phase: Phase::Halted, code: failbit, ..self }, err_fatal(failbit))
    }

    fn flush_action(buffer: &DiskBuffer<N>, destination: u32) -> (action: Action)
        ensures
            action@ == (ActionView::Flush { destination, data: buffer@ }),
    {
        let len: usize = buffer.len();
        let mut data: Vec<u8> = vec![0u8; len];
        buffer.copy_to_ptr(data.as_mut_slice());
        assert(data@ =~= buffer@);
        Action::Flush { destination, data }
    }

    fn proceed(
        drive_number: u16,
        buffer_addr: u32,
        kernel_dst: u32,
        table: PartitionTable,
        sectors_left: u32,
        current_lba: u64,
        destination: u32,
        buffer: DiskBuffer<N>,
        code: u8,
    ) -> (next: (Self, Action))
        requires
            table@.len() == 64,
            on_course(
                SecondStageModel {
                    drive_number,
                    buffer_addr,
                    kernel_dst,
                    capacity: N as nat,
                    table: table@,
                    phase: Phase::Reading,
                    sectors_left,
                    current_lba,
                    destination,
                    storage: buffer.storage(),
                    used: buffer.used(),
                    code,
                },
            ),
        ensures
            (next.0@, next.1@) == proceed(
                SecondStageModel {
                    drive_number,
                    buffer_addr,
                    kernel_dst,
                    capacity: N as nat,
                    table: table@,
                    phase: Phase::Reading,
                    sectors_left,
                    current_lba,
                    destination,
                    storage: buffer.storage(),
                    used: buffer.used(),
                    code,
                },
            ),
            consistent(next.0@),
    {
        let used: usize = buffer.len();
        let sectors: u16 = sectors_to_read(sectors_left, sectors_per_read(N));
        let bytes: usize = sectors as usize * 512;
        if sectors_left == 0 {
            let action = Self::flush_action(&buffer, destination);
            (
                SecondStage {
                    drive_number,
                    buffer_addr,
                    kernel_dst,
                    table,
                    phase: Phase::Draining,
                    sectors_left,
                    current_lba,
                    destination,
                    buffer,
                    code,
                },
                action,
            )
        } else if bytes > buffer.space_left() {
            let action = Self::flush_action(&buffer, destination);
            (
                SecondStage {
                    drive_number,
                    buffer_addr,
                    kernel_dst,
                    table,
                    phase: Phase::Flushing,
                    sectors_left,
                    current_lba,
                    destination,
                    buffer,
                    code,
                },
                action,
            )
        } else {
            let packet = packet_at(sectors, buffer_addr + used as u32, current_lba);
            assert(drive_number & 0xff == drive_number % 0x100) by (bit_vector);
            let drive: u8 = (drive_number & 0xff) as u8;
            (
                SecondStage {
                    drive_number,
                    buffer_addr,
                    kernel_dst,
                    table,
                    phase: Phase::Reading,
                    sectors_left,
                    current_lba,
                    destination,
                    buffer,
                    code,
                },
                packet.load(drive),
            )
        }
    }

    /// Takes what the platform reports and yields the next action.
    pub fn step(self, event: Event) -> (next: (Self, Action))
        ensures
            (next.0@, next.1@) == step(self@, event@),
            consistent(next.0@),
    {
        proof {
            use_type_invariant(&self);
            self.table.lemma_len();
        }
        match self.phase {
            Phase::Greeting => match event {
                Event::Done => (
                    SecondStage { phase: Phase::Switching, ..self },
                    Action::Cpu(enter_unreal_mode()),
                ),
                _ => self.halt(FAULT),
            },
            Phase::Switching => match event {
                Event::Done => {
                    let mut text: Vec<u8> = Vec::new();
                    print_hex(&mut text, self.buffer_addr);
                    assert(text@ =~= hex_text(self.buffer_addr as nat));
                    (SecondStage { phase: Phase::Reporting, ..self }, Action::Print(text))
                },
                _ => self.halt(FAULT),
            },
            Phase::Reporting => match event {
                Event::Done => {
                    let entry = match self.table.load_entry(2) {
                        Ok(entry) => entry,
                        Err(_) => {
                            return self.halt(FAULT);
                        },
                    };
                    if !entry.bootable {
                        return self.halt(NOT_BOOTABLE);
                    }
                    if N < 512 || N > ADDRESS_LIMIT as usize || self.buffer_addr > ADDRESS_LIMIT
                        || self.buffer_addr as usize + N > ADDRESS_LIMIT as usize
                        || self.kernel_dst as u64 + entry.sector_count as u64 * 512 > 0xFFFF_FFFF {
                        return self.halt(FAULT);
                    }
                    Self::proceed(
                        self.drive_number,
                        self.buffer_addr,
                        self.kernel_dst,
                        self.table,
                        entry.sector_count,
                        entry.lba_start as u64,
                        self.kernel_dst,
                        self.buffer,
                        self.code,
                    )
                },
                _ => self.halt(FAULT),
            },
            Phase::Reading => match event {
                Event::ReadDone { carry, data } => {
                    let sectors: u16 = sectors_to_read(self.sectors_left, sectors_per_read(N));
                    if read_result(carry, DISK_FAILURE).is_err() || data.len() != sectors as usize
                        * 512 {
                        return self.halt(DISK_FAILURE);
                    }
                    let mut buffer = self.buffer;
                    buffer.store(data.as_slice());
                    buffer.advance(data.len());
                    Self::proceed(
                        self.drive_number,
                        self.buffer_addr,
                        self.kernel_dst,
                        self.table,
                        self.sectors_left - sectors as u32,
                        self.current_lba + sectors as u64,
                        self.destination,
                        buffer,
                        self.code,
                    )
                },
                _ => self.halt(FAULT),
            },
            Phase::Flushing => match event {
                Event::Done => {
                    let mut buffer = self.buffer;
                    let len: usize = buffer.len();
                    buffer.clear();
                    Self::proceed(
                        self.drive_number,
                        self.buffer_addr,
                        self.kernel_dst,
                        self.table,
                        self.sectors_left,
                        self.current_lba,
                        self.destination + len as u32,
                        buffer,
                        self.code,
                    )
                },
                _ => self.halt(FAULT),
            },
            Phase::Draining => match event {
                Event::Done => {
                    let mut buffer = self.buffer;
                    let len: usize = buffer.len();
                    buffer.clear();
                    (
                        SecondStage {
                            drive_number: self.drive_number,
                            buffer_addr: self.buffer_addr,
                            kernel_dst: self.kernel_dst,
                            table: self.table,
                            phase: Phase::Halted,
                            sectors_left: self.sectors_left,
                            current_lba: self.current_lba,
                            destination: self.destination + len as u32,
                            buffer,
                            code: LOADED,
                        },
                        err_fatal(LOADED),
                    )
                },
                _ => self.halt(FAULT),
            },
            Phase::Halted => {
                let code: u8 = self.code;
                (self, err_fatal(code))
            },
        }
    }
}

} // verus!
