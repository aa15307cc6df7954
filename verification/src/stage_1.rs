//! The first stage: greet, make sure the firmware can read by LBA, load the
//! second stage from partition 1 to its link address, and hand over.
//!
//! The stage is a state machine. `first_stage` starts it and yields the
//! first action; `FirstStage::step` takes what the platform reports and
//! yields the next action. Every failure ends in a halt with a diagnostic
//! byte; nothing is retried.

use crate::firmware::{
    check_lba_extension_support, lemma_reads_of_cons, read_result, reads_of, Action, ActionView,
    Event, EventView, FAULT,
};
use crate::dap::{PacketFields, MAX_SECTORS_PER_READ};
use crate::firmware::sectors_requested;
use crate::loader::{
    ADDRESS_LIMIT, chunk_count, chunk_len, lemma_plan_chunk_sizes, lemma_plan_read, lemma_plan_covers_total, lemma_remaining_reads_is_plan,
    next_chunk, packet_at, packet_for, read_plan, remaining_reads, sectors_to_read,
};
use crate::partition::{entry_at, PartitionTable, PartitionTableEntry};
use crate::screen::{print, print_char};
use vstd::prelude::*;
use vstd::string::StringSliceAdditionalSpecFns;

verus! {

/// Greeting of the first stage.
pub const BOOT_MSG: &'static str = "Booted into first stage...";

/// Preamble of every fatal message.
pub const ERR_MSG: &'static str = "Fatal error: ";

/// Diagnostic byte: the firmware has no LBA extensions.
pub const NO_LBA: u8 = 0x4C;

/// Diagnostic byte: a disk read of this stage failed.
pub const DISK_FAILURE: u8 = 0x44;

/// Where the first stage stands.
#[derive(Clone, Copy, Debug, PartialEq, Eq, Structural)]
pub enum Phase {
    /// The greeting is being printed.
    Greeting,
    /// The extension check is under way.
    Probing,
    /// A read is under way.
    Reading,
    /// Control went to the second stage.
    HandedOff,
    /// The CPU is halted.
    Halted,
}

/// The first stage as a plain value.
pub struct FirstStageModel {
    /// Drive that the firmware booted from.
    pub drive_number: u16,
    /// Address that the second stage is linked for.
    pub destination: u16,
    /// The raw partition table.
    pub table: Seq<u8>,
    /// Where the stage stands.
    pub phase: Phase,
    /// Sectors not yet read, the read under way included.
    pub sectors_left: u32,
    /// Sector that the read under way starts at.
    pub current_lba: u64,
    /// Address that the read under way stores to.
    pub memory_addr: u32,
    /// Diagnostic byte, once halted.
    pub code: u8,
}

/// The fatal message of this stage: the preamble, then the diagnostic byte
/// as a character.
pub open spec fn fatal_message(failbit: u8) -> Seq<u8> {
    ERR_MSG.spec_bytes().push(failbit)
}

/// The action that reports `failbit` and halts.
pub open spec fn fatal(failbit: u8) -> ActionView {
    ActionView::Halt { code: failbit, message: fatal_message(failbit) }
}

/// The partition that holds the second stage: entry 1 of the table.
pub open spec fn second_stage_partition(s: FirstStageModel) -> PartitionTableEntry {
    entry_at(s.table, 0)
}

/// The whole partition ends within the memory that firmware reads reach when
/// loaded at the destination.
pub open spec fn load_fits(s: FirstStageModel) -> bool {
    s.destination + second_stage_partition(s).sector_count * 512 <= ADDRESS_LIMIT
}

/// The position in the load agrees with the number of sectors read so far.
pub open spec fn on_course(s: FirstStageModel) -> bool {
    let entry = second_stage_partition(s);
    let done = entry.sector_count - s.sectors_left;
    &&& load_fits(s)
    &&& s.sectors_left <= entry.sector_count
    &&& s.current_lba == entry.lba_start + done
    &&& s.memory_addr == s.destination + done * 512
}

/// What holds of the stage at every point.
pub open spec fn consistent(s: FirstStageModel) -> bool {
    &&& s.table.len() == 64
    &&& s.phase == Phase::Reading ==> on_course(s) && s.sectors_left > 0
    &&& s.phase == Phase::HandedOff ==> on_course(s) && s.sectors_left == 0
}

/// The stage as `first_stage` leaves it.
pub open spec fn booted(drive_number: u16, destination: u16, table: Seq<u8>) -> FirstStageModel {
    FirstStageModel {
        drive_number,
        destination,
        table,
        phase: Phase::Greeting,
        sectors_left: 0,
        current_lba: 0,
        memory_addr: 0,
        code: 0,
    }
}

/// Halts with `failbit`.
pub open spec fn halt(s: FirstStageModel, failbit: u8) -> (FirstStageModel, ActionView) {
    (FirstStageModel { phase: Phase::Halted, code: failbit, ..s }, fatal(failbit))
}

/// Asks for the next read, or hands over when no sector is left.
pub open spec fn proceed(s: FirstStageModel) -> (FirstStageModel, ActionView) {
    if s.sectors_left == 0 {
        (
            FirstStageModel { phase: Phase::HandedOff, ..s },
            ActionView::Handoff { drive_number: s.drive_number },
        )
    } else {
        (
            FirstStageModel { phase: Phase::Reading, ..s },
            ActionView::Read {
                packet: packet_for(
                    next_chunk(s.sectors_left as nat, MAX_SECTORS_PER_READ as nat),
                    s.memory_addr as nat,
                    s.current_lba as nat,
                ),
                drive: (s.drive_number % 0x100) as u8,
            },
        )
    }
}

/// Starts the load: a partition that does not fit is a fault.
pub open spec fn begin_load(s: FirstStageModel) -> (FirstStageModel, ActionView) {
    let entry = second_stage_partition(s);
    if load_fits(s) {
        proceed(
            FirstStageModel {
                sectors_left: entry.sector_count,
                current_lba: entry.lba_start as u64,
                memory_addr: s.destination as u32,
                ..s
            },
        )
    } else {
        halt(s, FAULT)
    }
}

/// Moves on past the read that just finished.
pub open spec fn after_read(s: FirstStageModel) -> (FirstStageModel, ActionView) {
    let n = next_chunk(s.sectors_left as nat, MAX_SECTORS_PER_READ as nat);
    proceed(
        FirstStageModel {
            sectors_left: (s.sectors_left - n) as u32,
            current_lba: (s.current_lba + n) as u64,
            memory_addr: (s.memory_addr + n * 512) as u32,
            ..s
        },
    )
}

/// The next state and action, given the state and what the platform
/// reports. A report that does not answer the last action is a fault. Once
/// halted or handed over, the stage stays as it is and repeats its last
/// action.
pub open spec fn step(s: FirstStageModel, event: EventView) -> (FirstStageModel, ActionView) {
    match s.phase {
        Phase::Greeting => match event {
            EventView::Done => (
                FirstStageModel { phase: Phase::Probing, ..s },
                ActionView::CheckLbaExtension,
            ),
            _ => halt(s, FAULT),
        },
        Phase::Probing => match event {
            EventView::LbaChecked { carry } => if carry {
                halt(s, NO_LBA)
            } else {
                begin_load(s)
            },
            _ => halt(s, FAULT),
        },
        Phase::Reading => match event {
            EventView::ReadDone { carry, data } => if carry {
                halt(s, DISK_FAILURE)
            } else {
                after_read(s)
            },
            _ => halt(s, FAULT),
        },
        Phase::HandedOff => (s, ActionView::Handoff { drive_number: s.drive_number }),
        Phase::Halted => (s, fatal(s.code)),
    }
}

/// The state after `events`, and the actions taken on the way.
pub open spec fn run(s: FirstStageModel, events: Seq<EventView>) -> (
    FirstStageModel,
    Seq<ActionView>,
)
    decreases events.len(),
{
    if events.len() == 0 {
        (s, Seq::empty())
    } else {
        let (next, action) = step(s, events[0]);
        let (last, actions) = run(next, events.skip(1));
        (last, seq![action] + actions)
    }
}

/// The reads that the stage has yet to ask for.
pub open spec fn reads_to_come(s: FirstStageModel) -> Seq<PacketFields> {
    match s.phase {
        Phase::Greeting | Phase::Probing => {
            let entry = second_stage_partition(s);
            remaining_reads(
                entry.sector_count as nat,
                MAX_SECTORS_PER_READ as nat,
                entry.lba_start as nat,
                s.destination as nat,
            )
        },
        Phase::Reading => {
            let n = next_chunk(s.sectors_left as nat, MAX_SECTORS_PER_READ as nat);
            remaining_reads(
                (s.sectors_left - n) as nat,
                MAX_SECTORS_PER_READ as nat,
                (s.current_lba + n) as nat,
                (s.memory_addr + n * 512) as nat,
            )
        },
        _ => Seq::empty(),
    }
}

/// A step keeps what holds of the stage, and never changes the drive, the
/// destination or the table.
pub proof fn lemma_step_keeps_consistent(s: FirstStageModel, event: EventView)
    requires
        consistent(s),
    ensures
        consistent(step(s, event).0),
        step(s, event).0.drive_number == s.drive_number,
        step(s, event).0.destination == s.destination,
        step(s, event).0.table == s.table,
{
}

/// A halt is final: whatever is reported afterwards, the stage stays halted
/// with the same diagnostic byte, repeats the halt, and asks for no read.
pub proof fn lemma_halt_is_final(s: FirstStageModel, events: Seq<EventView>)
    requires
        s.phase == Phase::Halted,
    ensures
        run(s, events).0 == s,
        run(s, events).1.len() == events.len(),
        forall|i: int| 0 <= i < events.len() ==> run(s, events).1[i] == fatal(s.code),
        reads_of(run(s, events).1) == Seq::<PacketFields>::empty(),
    decreases events.len(),
{
    if events.len() > 0 {
        lemma_halt_is_final(s, events.skip(1));
        lemma_reads_of_cons(fatal(s.code), run(s, events.skip(1)).1);
    }
}

/// The handoff is final: afterwards the stage asks for no read and never
/// halts.
pub proof fn lemma_handoff_is_final(s: FirstStageModel, events: Seq<EventView>)
    requires
        s.phase == Phase::HandedOff,
    ensures
        run(s, events).0 == s,
        reads_of(run(s, events).1) == Seq::<PacketFields>::empty(),
    decreases events.len(),
{
    if events.len() > 0 {
        lemma_handoff_is_final(s, events.skip(1));
        lemma_reads_of_cons(
            ActionView::Handoff { drive_number: s.drive_number },
            run(s, events.skip(1)).1,
        );
    }
}

/// Whatever is reported, a run that ends in the handoff has asked for
/// exactly the reads that were still to come, in order.
pub proof fn lemma_run_reads(s: FirstStageModel, events: Seq<EventView>)
    requires
        consistent(s),
    ensures
        consistent(run(s, events).0),
        run(s, events).0.drive_number == s.drive_number,
        run(s, events).0.destination == s.destination,
        run(s, events).0.table == s.table,
        run(s, events).0.phase == Phase::HandedOff ==> reads_of(run(s, events).1) == reads_to_come(
            s,
        ),
    decreases events.len(),
{
    if events.len() == 0 {
    } else {
        let (next, action) = step(s, events[0]);
        let rest = events.skip(1);
        lemma_step_keeps_consistent(s, events[0]);
        lemma_run_reads(next, rest);
        lemma_reads_of_cons(action, run(next, rest).1);
        match s.phase {
            Phase::Halted => {
                lemma_halt_is_final(s, events);
            },
            Phase::HandedOff => {
                lemma_handoff_is_final(s, events);
            },
            _ => {
                if next.phase == Phase::Halted {
                    lemma_halt_is_final(next, rest);
                } else if next.phase == Phase::HandedOff {
                    lemma_handoff_is_final(next, rest);
                    assert(reads_to_come(s) =~= Seq::<PacketFields>::empty());
                } else if next.phase == Phase::Reading {
                    assert(reads_to_come(s) =~= seq![action->Read_packet] + reads_to_come(next));
                }
            },
        }
    }
}

/// A load that reaches the handoff has asked for the reads of the plan and
/// no others: one read for every 127 sectors of the partition, rounded up,
/// none for more than 127 sectors, all sectors of the partition between
/// them, read `k` starting `127 * k` sectors into the partition and stored
/// `127 * 512 * k` bytes past the destination. At the handoff no sector is
/// left and the memory address stands 512 bytes per sector past the
/// destination.
pub proof fn lemma_complete_load(
    drive_number: u16,
    destination: u16,
    table: Seq<u8>,
    events: Seq<EventView>,
)
    requires
        table.len() == 64,
        run(booted(drive_number, destination, table), events).0.phase == Phase::HandedOff,
    ensures
        ({
            let entry = entry_at(table, 0);
            let (last, actions) = run(booted(drive_number, destination, table), events);
            let plan = read_plan(
                entry.sector_count as nat,
                MAX_SECTORS_PER_READ as nat,
                entry.lba_start as nat,
                destination as nat,
            );
            &&& reads_of(actions) == plan
            &&& plan.len() == chunk_count(entry.sector_count as nat, MAX_SECTORS_PER_READ as nat)
            &&& forall|k: int|
                0 <= k < plan.len() ==> {
                    &&& 1 <= (#[trigger] plan[k]).sector_count <= 127
                    &&& plan[k].sector_count == chunk_len(entry.sector_count as nat, 127, k as nat)
                    &&& plan[k].lba_start == entry.lba_start + 127 * k
                    &&& plan[k].offset == (destination + 65024 * k) % 16
                    &&& plan[k].segment == (destination + 65024 * k) / 16
                }
            &&& sectors_requested(plan) == entry.sector_count
            &&& last.sectors_left == 0
            &&& last.memory_addr == destination + entry.sector_count * 512
            &&& last.current_lba == entry.lba_start + entry.sector_count
        }),
{
    let s = booted(drive_number, destination, table);
    let entry = entry_at(table, 0);
    lemma_run_reads(s, events);
    lemma_remaining_reads_is_plan(
        entry.sector_count as nat,
        MAX_SECTORS_PER_READ as nat,
        entry.lba_start as nat,
        destination as nat,
    );
    lemma_plan_covers_total(
        entry.sector_count as nat,
        MAX_SECTORS_PER_READ as nat,
        entry.lba_start as nat,
        destination as nat,
    );
    let plan = read_plan(
        entry.sector_count as nat,
        MAX_SECTORS_PER_READ as nat,
        entry.lba_start as nat,
        destination as nat,
    );
    assert forall|k: int| 0 <= k < plan.len() implies {
        &&& 1 <= (#[trigger] plan[k]).sector_count <= 127
        &&& plan[k].sector_count == chunk_len(entry.sector_count as nat, 127, k as nat)
        &&& plan[k].lba_start == entry.lba_start + 127 * k
        &&& plan[k].offset == (destination + 65024 * k) % 16
        &&& plan[k].segment == (destination + 65024 * k) / 16
    } by {
        lemma_plan_chunk_sizes(
            entry.sector_count as nat,
            MAX_SECTORS_PER_READ as nat,
            entry.lba_start as nat,
            destination as nat,
            k,
        );
        lemma_plan_read(
            entry.sector_count as nat,
            MAX_SECTORS_PER_READ as nat,
            entry.lba_start as nat,
            destination as nat,
            k,
        );
    }
}

/// What a platform reports when the firmware supports LBA and no read
/// fails: the answer to the action that the stage is waiting on.
pub open spec fn good_report(s: FirstStageModel) -> EventView {
    match s.phase {
        Phase::Probing => EventView::LbaChecked { carry: false },
        Phase::Reading => EventView::ReadDone { carry: false, data: Seq::empty() },
        _ => EventView::Done,
    }
}

/// The first `n` reports of such a platform.
pub open spec fn good_reports(s: FirstStageModel, n: nat) -> Seq<EventView>
    decreases n,
{
    if n == 0 {
        Seq::empty()
    } else {
        seq![good_report(s)] + good_reports(step(s, good_report(s)).0, (n - 1) as nat)
    }
}

/// One more good report in front of a run.
proof fn lemma_run_good_reports(s: FirstStageModel, n: nat)
    ensures
        run(s, good_reports(s, n + 1)).0 == run(
            step(s, good_report(s)).0,
            good_reports(step(s, good_report(s)).0, n),
        ).0,
{
    let next = step(s, good_report(s)).0;
    assert(good_reports(s, n + 1).skip(1) =~= good_reports(next, n));
}

/// A load under way reaches the handoff if no read fails.
proof fn lemma_reads_complete(s: FirstStageModel)
    requires
        consistent(s),
        s.phase == Phase::Reading || s.phase == Phase::HandedOff,
    ensures
        exists|n: nat| (#[trigger] run(s, good_reports(s, n))).0.phase == Phase::HandedOff,
    decreases s.sectors_left,
{
    if s.phase == Phase::HandedOff {
        assert(run(s, good_reports(s, 0)).0.phase == Phase::HandedOff);
    } else {
        let next = step(s, good_report(s)).0;
        lemma_step_keeps_consistent(s, good_report(s));
        lemma_reads_complete(next);
        let n = choose|n: nat| (#[trigger] run(next, good_reports(next, n))).0.phase
            == Phase::HandedOff;
        lemma_run_good_reports(s, n);
        assert(run(s, good_reports(s, n + 1)).0.phase == Phase::HandedOff);
    }
}

/// Every load that fits completes: with a firmware that supports LBA and
/// fails no read, the stage reaches the handoff.
pub proof fn lemma_load_completes(drive_number: u16, destination: u16, table: Seq<u8>)
    requires
        table.len() == 64,
        load_fits(booted(drive_number, destination, table)),
    ensures
        exists|n: nat|
            (#[trigger] run(
                booted(drive_number, destination, table),
                good_reports(booted(drive_number, destination, table), n),
            )).0.phase == Phase::HandedOff,
{
    let s0 = booted(drive_number, destination, table);
    let s1 = step(s0, good_report(s0)).0;
    let s2 = step(s1, good_report(s1)).0;
    lemma_step_keeps_consistent(s0, good_report(s0));
    lemma_step_keeps_consistent(s1, good_report(s1));
    lemma_reads_complete(s2);
    let n = choose|n: nat| (#[trigger] run(s2, good_reports(s2, n))).0.phase == Phase::HandedOff;
    lemma_run_good_reports(s1, n);
    lemma_run_good_reports(s0, n + 1);
    assert(run(s0, good_reports(s0, n + 2)).0.phase == Phase::HandedOff);
}

/// Every read goes to the drive that the firmware booted from, and the run
/// answers every report with one action.
pub proof fn lemma_reads_use_the_boot_drive(s: FirstStageModel, events: Seq<EventView>, i: int)
    requires
        0 <= i < events.len(),
    ensures
        run(s, events).1.len() == events.len(),
        run(s, events).0.drive_number == s.drive_number,
        run(s, events).1[i] matches ActionView::Read { packet, drive } ==> drive == s.drive_number
            % 0x100,
    decreases events.len(),
{
    let next = step(s, events[0]).0;
    lemma_run_length(next, events.skip(1));
    if i > 0 {
        lemma_reads_use_the_boot_drive(next, events.skip(1), i - 1);
    }
}

/// A run answers every report with one action and keeps the drive number.
proof fn lemma_run_length(s: FirstStageModel, events: Seq<EventView>)
    ensures
        run(s, events).1.len() == events.len(),
        run(s, events).0.drive_number == s.drive_number,
    decreases events.len(),
{
    if events.len() > 0 {
        lemma_run_length(step(s, events[0]).0, events.skip(1));
    }
}

/// Without LBA extensions the stage halts at once with `L`: the report of
/// the extension check is answered by the halt, and whatever is reported
/// afterwards, no read is ever asked for.
pub proof fn lemma_no_lba_no_read(s: FirstStageModel, events: Seq<EventView>)
    requires
        s.phase == Phase::Probing,
        events.len() > 0,
        events[0] == (EventView::LbaChecked { carry: true }),
    ensures
        run(s, events).0.phase == Phase::Halted,
        run(s, events).0.code == NO_LBA,
        forall|i: int| 0 <= i < events.len() ==> run(s, events).1[i] == fatal(NO_LBA),
        reads_of(run(s, events).1) == Seq::<PacketFields>::empty(),
{
    let (next, action) = step(s, events[0]);
    lemma_halt_is_final(next, events.skip(1));
    lemma_reads_of_cons(action, run(next, events.skip(1)).1);
}

/// A failed read halts the stage at once with `D`.
pub proof fn lemma_failed_read_halts(s: FirstStageModel, data: Seq<u8>)
    requires
        s.phase == Phase::Reading,
    ensures
        step(s, EventView::ReadDone { carry: true, data }) == halt(s, DISK_FAILURE),
{
}

/// The first stage.
pub struct FirstStage {
    drive_number: u16,
    destination: u16,
    table: PartitionTable,
    phase: Phase,
    sectors_left: u32,
    current_lba: u64,
    memory_addr: u32,
    code: u8,
}

impl View for FirstStage {
    type V = FirstStageModel;

    closed spec fn view(&self) -> FirstStageModel {
        FirstStageModel {
            drive_number: self.drive_number,
            destination: self.destination,
            table: self.table@,
            phase: self.phase,
            sectors_left: self.sectors_left,
            current_lba: self.current_lba,
            memory_addr: self.memory_addr,
            code: self.code,
        }
    }
}

/// The action that reports `failbit` and halts: the message is the
/// preamble, then `failbit` as a character.
pub fn err_fatal(failbit: u8) -> (action: Action)
    ensures
        action@ == fatal(failbit),
{
    let mut message: Vec<u8> = Vec::new();
    print(&mut message, ERR_MSG);
    print_char(&mut message, failbit);
    assert(message@ =~= fatal_message(failbit));
    Action::Halt { code: failbit, message }
}

/// Enters the first stage on the drive that the firmware booted from. The
/// second stage will be loaded to `destination`; `table` is the partition
/// table of the boot sector. The first action prints the greeting.
pub fn first_stage(drive_number: u16, destination: u16, table: PartitionTable) -> (started: (
    FirstStage,
    Action,
))
    ensures
        started.0@ == booted(drive_number, destination, table@),
        started.1@ == ActionView::Print(BOOT_MSG.spec_bytes()),
        consistent(started.0@),
{
    let mut greeting: Vec<u8> = Vec::new();
    print(&mut greeting, BOOT_MSG);
    assert(greeting@ =~= BOOT_MSG.spec_bytes());
    proof {
        table.lemma_len();
    }
    (
        FirstStage {
            drive_number,
            destination,
            table,
            phase: Phase::Greeting,
            sectors_left: 0,
            current_lba: 0,
            memory_addr: 0,
            code: 0,
        },
        Action::Print(greeting),
    )
}

impl FirstStage {
    #[verifier::type_invariant]
    spec fn well_formed(self) -> bool {
        consistent(self@)
    }

    /// Where the stage stands.
    pub fn phase(&self) -> (phase: Phase)
        ensures
            phase == self@.phase,
    {
        self.phase
    }

    /// Sectors not yet read.
    pub fn sectors_left(&self) -> (sectors: u32)
        ensures
            sectors == self@.sectors_left,
    {
        self.sectors_left
    }

    /// Sector that the next read starts at.
    pub fn current_lba(&self) -> (lba: u64)
        ensures
            lba == self@.current_lba,
    {
        self.current_lba
    }

    /// Address that the next read stores to. After the handoff this is the
    /// destination plus 512 bytes for each sector of the partition.
    pub fn memory_addr(&self) -> (addr: u32)
        ensures
            addr == self@.memory_addr,
            self@.phase == Phase::HandedOff ==> addr == self@.destination + second_stage_partition(
                self@,
            ).sector_count * 512,
    {
        proof {
            use_type_invariant(self);
        }
        self.memory_addr
    }

    /// Diagnostic byte of the halt, if the stage has halted.
    pub fn halt_code(&self) -> (code: Option<u8>)
        ensures
            code == if self@.phase == Phase::Halted {
                Some(self@.code)
            } else {
                None
            },
    {
        match self.phase {
            Phase::Halted => Some(self.code),
            _ => None,
        }
    }

    fn halt(self, failbit: u8) -> (next: (Self, Action))
        ensures
            (next.0@, next.1@) == halt(self@, failbit),
            consistent(next.0@),
    {
        proof {
            use_type_invariant(&self);
        }
        (
            FirstStage {
                drive_number: self.drive_number,
                destination: self.destination,
                table: self.table,
                phase: Phase::Halted,
                sectors_left: self.sectors_left,
                current_lba: self.current_lba,
                memory_addr: self.memory_addr,
                code: failbit,
            },
            err_fatal(failbit),
        )
    }

    fn proceed(
        drive_number: u16,
        destination: u16,
        table: PartitionTable,
        sectors_left: u32,
        current_lba: u64,
        memory_addr: u32,
        code: u8,
    ) -> (next: (Self, Action))
        requires
            consistent(
                FirstStageModel {
                    drive_number,
                    destination,
                    table: table@,
                    phase: if sectors_left == 0 {
                        Phase::HandedOff
                    } else {
                        Phase::Reading
                    },
                    sectors_left,
                    current_lba,
                    memory_addr,
                    code,
                },
            ),
        ensures
            (next.0@, next.1@) == proceed(
                FirstStageModel {
                    drive_number,
                    destination,
                    table: table@,
                    phase: Phase::Reading,
                    sectors_left,
                    current_lba,
                    memory_addr,
                    code,
                },
            ),
            consistent(next.0@),
    {
        if sectors_left == 0 {
            (
                FirstStage {
                    drive_number,
                    destination,
                    table,
                    phase: Phase::HandedOff,
                    sectors_left,
                    current_lba,
                    memory_addr,
                    code,
                },
                Action::Handoff { drive_number },
            )
        } else {
            let sectors: u16 = sectors_to_read(sectors_left, MAX_SECTORS_PER_READ);
            let packet = packet_at(sectors, memory_addr, current_lba);
            assert(drive_number & 0xff == drive_number % 0x100) by (bit_vector);
            let drive: u8 = (drive_number & 0xff) as u8;
            (
                FirstStage {
                    drive_number,
                    destination,
                    table,
                    phase: Phase::Reading,
                    sectors_left,
                    current_lba,
                    memory_addr,
                    code,
                },
                packet.load(drive),
            )
        }
    }

    /// Takes what the platform reports and yields the next action.
    pub fn step(self, event: Event) -> (next: (Self, Action))
        ensures
            (next.0@, next.1@) == step(self@, event@),
            consistent(next.0@),
    {
        proof {
            use_type_invariant(&self);
        }
        match self.phase {
            Phase::Greeting => match event {
                Event::Done => (
                    FirstStage {
                        drive_number: self.drive_number,
                        destination: self.destination,
                        table: self.table,
                        phase: Phase::Probing,
                        sectors_left: self.sectors_left,
                        current_lba: self.current_lba,
                        memory_addr: self.memory_addr,
                        code: self.code,
                    },
                    Action::CheckLbaExtension,
                ),
                _ => self.halt(FAULT),
            },
            Phase::Probing => match event {
                Event::LbaChecked { carry } => {
                    if !check_lba_extension_support(carry) {
                        return self.halt(NO_LBA);
                    }
                    let entry = match self.table.load_entry(1) {
                        Ok(entry) => entry,
                        Err(_) => {
                            return self.halt(FAULT);
                        },
                    };
                    let end: u64 = self.destination as u64 + entry.sector_count as u64 * 512;
                    if end > ADDRESS_LIMIT as u64 {
                        return self.halt(FAULT);
                    }
                    Self::proceed(
                        self.drive_number,
                        self.destination,
                        self.table,
                        entry.sector_count,
                        entry.lba_start as u64,
                        self.destination as u32,
                        self.code,
                    )
                },
                _ => self.halt(FAULT),
            },
            Phase::Reading => match event {
                Event::ReadDone { carry, data } => {
                    if read_result(carry, DISK_FAILURE).is_err() {
                        return self.halt(DISK_FAILURE);
                    }
                    let sectors: u16 = sectors_to_read(self.sectors_left, MAX_SECTORS_PER_READ);
                    Self::proceed(
                        self.drive_number,
                        self.destination,
                        self.table,
                        self.sectors_left - sectors as u32,
                        self.current_lba + sectors as u64,
                        self.memory_addr + sectors as u32 * 512,
                        self.code,
                    )
                },
                _ => self.halt(FAULT),
            },
            Phase::HandedOff => {
                let drive_number: u16 = self.drive_number;
                (self, Action::Handoff { drive_number })
            },
            Phase::Halted => {
                let code: u8 = self.code;
                (self, err_fatal(code))
            },
        }
    }
}

} // verus!
