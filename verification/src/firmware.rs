//! The boundary between the loaders and the machine.
//!
//! A loader never calls the firmware. It hands out an `Action`, the platform
//! carries it out, and what the firmware answered comes back as an `Event`.

use crate::dap::{DiskAddressPacket, PacketFields};
use crate::protected_mode::CpuOp;
use vstd::prelude::*;

verus! {

/// Diagnostic byte of an unexpected fault.
pub const FAULT: u8 = 0x50;

/// A firmware disk read that failed, with the diagnostic byte of the
/// component that asked for it.
#[derive(Clone, Copy, Debug, PartialEq, Eq, Structural)]
pub struct DiskError {
    pub code: u8,
}

/// Whether the firmware supports LBA extensions, given the carry flag that
/// the extension check left: the flag is clear exactly when it does.
pub fn check_lba_extension_support(carry: bool) -> (supported: bool)
    ensures
        supported == !carry,
{
    !carry
}

/// What a finished extended read amounts to, given the carry flag that it
/// left: the flag is set exactly when the read failed, and the error then
/// carries `failbit`.
pub fn read_result(carry: bool, failbit: u8) -> (result: Result<(), DiskError>)
    ensures
        result == if carry {
            Err::<(), DiskError>(DiskError { code: failbit })
        } else {
            Ok::<(), DiskError>(())
        },
{
    if carry {
        Err(DiskError { code: failbit })
    } else {
        Ok(())
    }
}

/// What the platform reports back after an action.
#[derive(Clone, Debug, PartialEq, Eq)]
pub enum Event {
    /// The action was carried out and has nothing to report.
    Done,
    /// The extension check ran and left this carry flag.
    LbaChecked { carry: bool },
    /// An extended read ran, left this carry flag and delivered these bytes.
    ReadDone { carry: bool, data: Vec<u8> },
}

/// An `Event` as a plain value.
pub enum EventView {
    Done,
    LbaChecked { carry: bool },
    ReadDone { carry: bool, data: Seq<u8> },
}

impl View for Event {
    type V = EventView;

    open spec fn view(&self) -> EventView {
        match *self {
            Event::Done => EventView::Done,
            Event::LbaChecked { carry } => EventView::LbaChecked { carry },
            Event::ReadDone { carry, data } => EventView::ReadDone { carry, data: data@ },
        }
    }
}

/// What a loader asks the platform to do next.
#[derive(Clone, Debug, PartialEq, Eq)]
pub enum Action {
    /// Print these bytes on the teletype, in order.
    Print(Vec<u8>),
    /// Ask the firmware whether the first hard disk supports LBA extensions.
    CheckLbaExtension,
    /// Issue the extended read that `packet` describes on this drive.
    Read { packet: DiskAddressPacket, drive: u8 },
    /// Execute these CPU operations, in order.
    Cpu(Vec<CpuOp>),
    /// Copy `data` to `destination`.
    Flush { destination: u32, data: Vec<u8> },
    /// Transfer control to the next stage, passing this drive number and the
    /// partition table. Control does not come back.
    Handoff { drive_number: u16 },
    /// Print `message`, then halt the CPU for good.
    Halt { code: u8, message: Vec<u8> },
}

/// An `Action` as a plain value.
pub enum ActionView {
    Print(Seq<u8>),
    CheckLbaExtension,
    Read { packet: PacketFields, drive: u8 },
    Cpu(Seq<CpuOp>),
    Flush { destination: u32, data: Seq<u8> },
    Handoff { drive_number: u16 },
    Halt { code: u8, message: Seq<u8> },
}

impl View for Action {
    type V = ActionView;

    open spec fn view(&self) -> ActionView {
        match *self {
            Action::Print(bytes) => ActionView::Print(bytes@),
            Action::CheckLbaExtension => ActionView::CheckLbaExtension,
            Action::Read { packet, drive } => ActionView::Read { packet: packet@, drive },
            Action::Cpu(ops) => ActionView::Cpu(ops@),
            Action::Flush { destination, data } => ActionView::Flush { destination, data: data@ },
            Action::Handoff { drive_number } => ActionView::Handoff { drive_number },
            Action::Halt { code, message } => ActionView::Halt { code, message: message@ },
        }
    }
}

/// The packets of the reads among `actions`, in order.
pub open spec fn reads_of(actions: Seq<ActionView>) -> Seq<PacketFields>
    decreases actions.len(),
{
    if actions.len() == 0 {
        Seq::empty()
    } else {
        let rest = reads_of(actions.skip(1));
        match actions[0] {
            ActionView::Read { packet, drive } => seq![packet] + rest,
            _ => rest,
        }
    }
}

/// The bytes that the flushes among `actions` copy, in order.
pub open spec fn data_flushed(actions: Seq<ActionView>) -> Seq<u8>
    decreases actions.len(),
{
    if actions.len() == 0 {
        Seq::empty()
    } else {
        let rest = data_flushed(actions.skip(1));
        match actions[0] {
            ActionView::Flush { destination, data } => data + rest,
            _ => rest,
        }
    }
}

/// The flushes among `actions` fill memory from `start` on without a gap:
/// each copies to where the one before it ended.
pub open spec fn placed_from(actions: Seq<ActionView>, start: int) -> bool
    decreases actions.len(),
{
    if actions.len() == 0 {
        true
    } else {
        match actions[0] {
            ActionView::Flush { destination, data } => destination == start && placed_from(
                actions.skip(1),
                start + data.len(),
            ),
            _ => placed_from(actions.skip(1), start),
        }
    }
}

/// The reads among an action followed by more actions.
pub proof fn lemma_reads_of_cons(action: ActionView, actions: Seq<ActionView>)
    ensures
        reads_of(seq![action] + actions) == match action {
            ActionView::Read { packet, drive } => seq![packet] + reads_of(actions),
            _ => reads_of(actions),
        },
{
    assert((seq![action] + actions).skip(1) =~= actions);
}

/// The flushes among an action followed by more actions.
pub proof fn lemma_flushes_of_cons(action: ActionView, actions: Seq<ActionView>, start: int)
    ensures
        data_flushed(seq![action] + actions) == match action {
            ActionView::Flush { destination, data } => data + data_flushed(actions),
            _ => data_flushed(actions),
        },
        placed_from(seq![action] + actions, start) == match action {
            ActionView::Flush { destination, data } => destination == start && placed_from(
                actions,
                start + data.len(),
            ),
            _ => placed_from(actions, start),
        },
{
    assert((seq![action] + actions).skip(1) =~= actions);
}

/// The number of sectors that `packets` ask for, all together.
pub open spec fn sectors_requested(packets: Seq<PacketFields>) -> nat
    decreases packets.len(),
{
    if packets.len() == 0 {
        0
    } else {
        packets[0].sector_count as nat + sectors_requested(packets.skip(1))
    }
}

} // verus!
