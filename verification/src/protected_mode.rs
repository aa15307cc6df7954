//! The mode transition controller: which CPU operations take the machine
//! from real mode to unreal mode, or on into protected mode, and in what
//! order.
//!
//! The operations are values; the platform executes them one by one. A small
//! model of the CPU says what each operation needs and does, and the
//! sequences are proved safe against it.

use crate::gdt::{CODE_SEG, DATA_SEG};
use vstd::prelude::*;

verus! {

/// Stack pointer for code that runs after the jump into protected mode.
pub const PROTECTED_MODE_STACK: u32 = 0x90000;

/// A data-segment register.
#[derive(Clone, Copy, Debug, PartialEq, Eq, Structural)]
pub enum SegmentRegister {
    Ds,
    Es,
    Ss,
}

/// One step of a mode transition.
#[derive(Clone, Copy, Debug, PartialEq, Eq, Structural)]
pub enum CpuOp {
    /// Enable the 21st address line.
    EnableA20,
    /// Mask interrupts.
    DisableInterrupts,
    /// Unmask interrupts.
    EnableInterrupts,
    /// Push the data and stack segment selectors.
    SaveSegments,
    /// Pop the stack and data segment selectors.
    RestoreSegments,
    /// Load the descriptor table through its table descriptor.
    LoadGdt,
    /// Set the protected-mode bit of the mode-control register.
    SetProtectedModeBit,
    /// Clear the protected-mode bit of the mode-control register.
    UnsetProtectedModeBit,
    /// Load a segment register with a selector of the table.
    LoadSegment { register: SegmentRegister, selector: u16 },
    /// Far jump to the next instruction through a code selector.
    FarJump { selector: u16 },
    /// Set the stack and frame pointers.
    SetStack { pointer: u32 },
    /// Call the code at an address; it does not return.
    Call { target: u32 },
}

/// The mode-control register with the protected-mode bit set and every
/// other bit as in `cr0`.
pub fn set_protected_mode_bit(cr0: u32) -> (value: u32)
    ensures
        value % 2 == 1,
        value / 2 == cr0 / 2,
{
    assert((cr0 | 1) % 2 == 1 && (cr0 | 1) / 2 == cr0 / 2) by (bit_vector);
    cr0 | 1
}

/// The mode-control register with the protected-mode bit clear and every
/// other bit as in `cr0`.
pub fn unset_protected_mode_bit(cr0: u32) -> (value: u32)
    ensures
        value % 2 == 0,
        value / 2 == cr0 / 2,
{
    assert((cr0 & 0xffff_fffe) % 2 == 0 && (cr0 & 0xffff_fffe) / 2 == cr0 / 2) by (bit_vector);
    cr0 & 0xffff_fffe
}

/// The steps from real mode into unreal mode.
pub open spec fn unreal_mode_steps() -> Seq<CpuOp> {
    seq![
        CpuOp::EnableA20,
        CpuOp::DisableInterrupts,
        CpuOp::SaveSegments,
        CpuOp::LoadGdt,
        CpuOp::SetProtectedModeBit,
        CpuOp::LoadSegment { register: SegmentRegister::Ds, selector: DATA_SEG as u16 },
        CpuOp::LoadSegment { register: SegmentRegister::Ss, selector: DATA_SEG as u16 },
        CpuOp::UnsetProtectedModeBit,
        CpuOp::RestoreSegments,
        CpuOp::EnableInterrupts,
    ]
}

/// The steps from unreal mode into protected mode and on to the code at
/// `dst`. The A20 line is enabled and the table loaded beforehand.
pub open spec fn protected_mode_steps(dst: u32) -> Seq<CpuOp> {
    seq![
        CpuOp::DisableInterrupts,
        CpuOp::SetProtectedModeBit,
        CpuOp::FarJump { selector: CODE_SEG as u16 },
        CpuOp::LoadSegment { register: SegmentRegister::Ds, selector: DATA_SEG as u16 },
        CpuOp::LoadSegment { register: SegmentRegister::Es, selector: DATA_SEG as u16 },
        CpuOp::LoadSegment { register: SegmentRegister::Ss, selector: DATA_SEG as u16 },
        CpuOp::SetStack { pointer: PROTECTED_MODE_STACK },
        CpuOp::Call { target: dst },
    ]
}

/// Enters unreal mode: real-mode execution with flat data and stack
/// segments. Interrupts are masked from the second step to the last.
pub fn enter_unreal_mode() -> (steps: Vec<CpuOp>)
    ensures
        steps@ == unreal_mode_steps(),
{
    let mut steps: Vec<CpuOp> = Vec::new();
    steps.push(CpuOp::EnableA20);
    steps.push(CpuOp::DisableInterrupts);
    steps.push(CpuOp::SaveSegments);
    steps.push(CpuOp::LoadGdt);
    steps.push(CpuOp::SetProtectedModeBit);
    steps.push(CpuOp::LoadSegment { register: SegmentRegister::Ds, selector: DATA_SEG as u16 });
    steps.push(CpuOp::LoadSegment { register: SegmentRegister::Ss, selector: DATA_SEG as u16 });
    steps.push(CpuOp::UnsetProtectedModeBit);
    steps.push(CpuOp::RestoreSegments);
    steps.push(CpuOp::EnableInterrupts);
    assert(steps@ =~= unreal_mode_steps());
    steps
}

/// Switches to protected mode and calls the code at `dst`.
pub fn enter_pm_and_jmp(dst: u32) -> (steps: Vec<CpuOp>)
    ensures
        steps@ == protected_mode_steps(dst),
{
    let mut steps: Vec<CpuOp> = Vec::new();
    steps.push(CpuOp::DisableInterrupts);
    steps.push(CpuOp::SetProtectedModeBit);
    steps.push(CpuOp::FarJump { selector: CODE_SEG as u16 });
    steps.push(CpuOp::LoadSegment { register: SegmentRegister::Ds, selector: DATA_SEG as u16 });
    steps.push(CpuOp::LoadSegment { register: SegmentRegister::Es, selector: DATA_SEG as u16 });
    steps.push(CpuOp::LoadSegment { register: SegmentRegister::Ss, selector: DATA_SEG as u16 });
    steps.push(CpuOp::SetStack { pointer: PROTECTED_MODE_STACK });
    steps.push(CpuOp::Call { target: dst });
    assert(steps@ =~= protected_mode_steps(dst));
    steps
}

/// The mode the CPU is in.
pub enum CpuMode {
    /// Real-mode execution, 64 KiB segments.
    RealMode,
    /// Real-mode execution, flat data and stack segments.
    UnrealMode,
    /// The protected-mode bit is set.
    ProtectedMode,
}

/// What the transitions read and change of the CPU.
pub struct Cpu {
    /// The A20 line is enabled.
    pub a20: bool,
    /// Interrupts are unmasked.
    pub interrupts: bool,
    /// The protected-mode bit is set.
    pub protected: bool,
    /// A descriptor table is loaded.
    pub table_loaded: bool,
    /// The data segment holds the flat limit.
    pub flat_ds: bool,
    /// The stack segment holds the flat limit.
    pub flat_ss: bool,
    /// The code segment was loaded from the table.
    pub flat_cs: bool,
    /// The real-mode selectors are saved on the stack.
    pub segments_saved: bool,
    /// Address that control was handed to, if any.
    pub called: Option<u32>,
}

impl Cpu {
    /// The CPU as the firmware hands it over: real mode, interrupts on.
    pub open spec fn at_boot() -> Cpu {
        Cpu {
            a20: false,
            interrupts: true,
            protected: false,
            table_loaded: false,
            flat_ds: false,
            flat_ss: false,
            flat_cs: false,
            segments_saved: false,
            called: None,
        }
    }

    /// The mode the CPU is in.
    pub open spec fn mode(self) -> CpuMode {
        if self.protected {
            CpuMode::ProtectedMode
        } else if self.flat_ds && self.flat_ss {
            CpuMode::UnrealMode
        } else {
            CpuMode::RealMode
        }
    }

    /// The state after `op`, or `None` where `op` would fault: an interrupt
    /// may not arrive while the protected-mode bit is set, since no
    /// interrupt table exists; a selector can only be loaded from a loaded
    /// table; the far jump and what follows it need protected mode.
    pub open spec fn apply(self, op: CpuOp) -> Option<Cpu> {
        if self.called is Some {
            None
        } else {
            match op {
                CpuOp::EnableA20 => Some(Cpu { a20: true, ..self }),
                CpuOp::DisableInterrupts => Some(Cpu { interrupts: false, ..self }),
                CpuOp::EnableInterrupts => if self.protected {
                    None
                } else {
                    Some(Cpu { interrupts: true, ..self })
                },
                CpuOp::SaveSegments => if self.segments_saved {
                    None
                } else {
                    Some(Cpu { segments_saved: true, ..self })
                },
                CpuOp::RestoreSegments => if !self.segments_saved || self.protected {
                    None
                } else {
                    Some(Cpu { segments_saved: false, ..self })
                },
                CpuOp::LoadGdt => Some(Cpu { table_loaded: true, ..self }),
                CpuOp::SetProtectedModeBit => if self.interrupts || !self.table_loaded {
                    None
                } else {
                    Some(Cpu { protected: true, ..self })
                },
                CpuOp::UnsetProtectedModeBit => if self.flat_cs {
                    None
                } else {
                    Some(Cpu { protected: false, ..self })
                },
                CpuOp::LoadSegment { register, selector } => if !self.protected
                    || !self.table_loaded || selector != DATA_SEG {
                    None
                } else {
                    match register {
                        SegmentRegister::Ds => Some(Cpu { flat_ds: true, ..self }),
                        SegmentRegister::Es => Some(self),
                        SegmentRegister::Ss => Some(Cpu { flat_ss: true, ..self }),
                    }
                },
                CpuOp::FarJump { selector } => if !self.protected || !self.table_loaded
                    || selector != CODE_SEG {
                    None
                } else {
                    Some(Cpu { flat_cs: true, ..self })
                },
                CpuOp::SetStack { pointer } => if !self.flat_cs || !self.flat_ss {
                    None
                } else {
                    Some(self)
                },
                CpuOp::Call { target } => if !self.flat_cs || !self.flat_ds || !self.flat_ss
                    || !self.a20 {
                    None
                } else {
                    Some(Cpu { called: Some(target), ..self })
                },
            }
        }
    }

    /// The state after all of `ops` in order, or `None` if one faults.
    pub open spec fn run(self, ops: Seq<CpuOp>) -> Option<Cpu>
        decreases ops.len(),
    {
        if ops.len() == 0 {
            Some(self)
        } else {
            match self.apply(ops[0]) {
                Some(next) => next.run(ops.skip(1)),
                None => None,
            }
        }
    }
}

/// Running a sequence and then one more operation is running the longer
/// sequence.
pub proof fn lemma_run_push(cpu: Cpu, ops: Seq<CpuOp>, op: CpuOp)
    ensures
        cpu.run(ops.push(op)) == match cpu.run(ops) {
            Some(mid) => mid.apply(op),
            None => None,
        },
    decreases ops.len(),
{
    if ops.len() == 0 {
        assert(ops.push(op).skip(1) =~= Seq::<CpuOp>::empty());
        match cpu.apply(op) {
            Some(next) => {
                assert(next.run(Seq::<CpuOp>::empty()) == Some(next));
            },
            None => {},
        }
    } else {
        assert(ops.push(op).skip(1) =~= ops.skip(1).push(op));
        match cpu.apply(ops[0]) {
            Some(next) => {
                lemma_run_push(next, ops.skip(1), op);
            },
            None => {},
        }
    }
}

/// One more step of a run: if the first `k` operations lead to `mid` and
/// operation `k` leads from `mid` to `next`, the first `k + 1` lead to
/// `next`.
pub proof fn lemma_run_step(cpu: Cpu, ops: Seq<CpuOp>, k: int, mid: Cpu, next: Cpu)
    requires
        0 <= k < ops.len(),
        cpu.run(ops.take(k)) == Some(mid),
        mid.apply(ops[k]) == Some(next),
    ensures
        cpu.run(ops.take(k + 1)) == Some(next),
{
    assert(ops.take(k + 1) =~= ops.take(k).push(ops[k]));
    lemma_run_push(cpu, ops.take(k), ops[k]);
}

/// From any real-mode state with interrupts on and nothing saved, the
/// unreal-mode steps run without a fault and end in unreal mode: the A20
/// line is enabled, the table is loaded, interrupts are on again, and
/// nothing else has changed. Between the second step and the last,
/// interrupts stay masked.
pub proof fn lemma_unreal_mode_transition(cpu: Cpu)
    requires
        !cpu.protected,
        !cpu.segments_saved,
        !cpu.flat_cs,
        cpu.called is None,
    ensures
        cpu.run(unreal_mode_steps()) == Some(
            Cpu { a20: true, interrupts: true, table_loaded: true, flat_ds: true, flat_ss: true, ..cpu },
        ),
        cpu.run(unreal_mode_steps()).unwrap().mode() == CpuMode::UnrealMode,
        forall|k: int|
            2 <= k < unreal_mode_steps().len() ==> {
                let mid = #[trigger] cpu.run(unreal_mode_steps().take(k));
                mid is Some && !mid.unwrap().interrupts
            },
{
    let steps = unreal_mode_steps();
    let c0 = cpu;
    assert(steps.take(0) =~= Seq::<CpuOp>::empty());
    assert(c0.run(steps.take(0)) == Some(c0));
    let c1 = Cpu { a20: true, ..c0 };
    let c2 = Cpu { interrupts: false, ..c1 };
    let c3 = Cpu { segments_saved: true, ..c2 };
    let c4 = Cpu { table_loaded: true, ..c3 };
    let c5 = Cpu { protected: true, ..c4 };
    let c6 = Cpu { flat_ds: true, ..c5 };
    let c7 = Cpu { flat_ss: true, ..c6 };
    let c8 = Cpu { protected: false, ..c7 };
    let c9 = Cpu { segments_saved: false, ..c8 };
    let c10 = Cpu { interrupts: true, ..c9 };
    lemma_run_step(cpu, steps, 0, cpu, c1);
    lemma_run_step(cpu, steps, 1, c1, c2);
    lemma_run_step(cpu, steps, 2, c2, c3);
    lemma_run_step(cpu, steps, 3, c3, c4);
    lemma_run_step(cpu, steps, 4, c4, c5);
    lemma_run_step(cpu, steps, 5, c5, c6);
    lemma_run_step(cpu, steps, 6, c6, c7);
    lemma_run_step(cpu, steps, 7, c7, c8);
    lemma_run_step(cpu, steps, 8, c8, c9);
    lemma_run_step(cpu, steps, 9, c9, c10);
    assert(steps.take(10) =~= steps);
}

/// From unreal mode with interrupts on, the protected-mode steps run without
/// a fault and hand control to `dst` in protected mode with interrupts
/// masked.
pub proof fn lemma_protected_mode_transition(cpu: Cpu, dst: u32)
    requires
        cpu.mode() == CpuMode::UnrealMode,
        cpu.a20,
        cpu.table_loaded,
        cpu.called is None,
    ensures
        cpu.run(protected_mode_steps(dst)) == Some(
            Cpu { interrupts: false, protected: true, flat_cs: true, called: Some(dst), ..cpu },
        ),
{
    let steps = protected_mode_steps(dst);
    assert(steps.take(0) =~= Seq::<CpuOp>::empty());
    assert(cpu.run(steps.take(0)) == Some(cpu));
    let c1 = Cpu { interrupts: false, ..cpu };
    let c2 = Cpu { protected: true, ..c1 };
    let c3 = Cpu { flat_cs: true, ..c2 };
    let c8 = Cpu { called: Some(dst), ..c3 };
    lemma_run_step(cpu, steps, 0, cpu, c1);
    lemma_run_step(cpu, steps, 1, c1, c2);
    lemma_run_step(cpu, steps, 2, c2, c3);
    lemma_run_step(cpu, steps, 3, c3, c3);
    lemma_run_step(cpu, steps, 4, c3, c3);
    lemma_run_step(cpu, steps, 5, c3, c3);
    lemma_run_step(cpu, steps, 6, c3, c3);
    lemma_run_step(cpu, steps, 7, c3, c8);
    assert(steps.take(8) =~= steps);
}

} // verus!
