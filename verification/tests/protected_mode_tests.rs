use bootloader::protected_mode::{
    enter_pm_and_jmp, enter_unreal_mode, set_protected_mode_bit, unset_protected_mode_bit, CpuOp,
    SegmentRegister, PROTECTED_MODE_STACK,
};

#[test]
fn set_bit_sets_only_bit_zero() {
    assert_eq!(set_protected_mode_bit(0), 1);
    assert_eq!(set_protected_mode_bit(1), 1);
    assert_eq!(set_protected_mode_bit(0x6000_0010), 0x6000_0011);
    assert_eq!(set_protected_mode_bit(0xFFFF_FFFE), 0xFFFF_FFFF);
    assert_eq!(set_protected_mode_bit(u32::MAX), u32::MAX);
}

#[test]
fn unset_bit_clears_only_bit_zero() {
    assert_eq!(unset_protected_mode_bit(1), 0);
    assert_eq!(unset_protected_mode_bit(0), 0);
    assert_eq!(unset_protected_mode_bit(0x6000_0011), 0x6000_0010);
    assert_eq!(unset_protected_mode_bit(u32::MAX), 0xFFFF_FFFE);
    assert_eq!(unset_protected_mode_bit(0x8000_0001), 0x8000_0000);
}

#[test]
fn set_then_unset_restores_a_real_mode_value() {
    for cr0 in [0u32, 0x10, 0x6000_0010, 0xFFFF_FFFE] {
        assert_eq!(unset_protected_mode_bit(set_protected_mode_bit(cr0)), cr0);
    }
}

#[test]
fn unreal_mode_steps_in_order() {
    assert_eq!(
        enter_unreal_mode(),
        vec![
            CpuOp::EnableA20,
            CpuOp::DisableInterrupts,
            CpuOp::SaveSegments,
            CpuOp::LoadGdt,
            CpuOp::SetProtectedModeBit,
            CpuOp::LoadSegment { register: SegmentRegister::Ds, selector: 16 },
            CpuOp::LoadSegment { register: SegmentRegister::Ss, selector: 16 },
            CpuOp::UnsetProtectedModeBit,
            CpuOp::RestoreSegments,
            CpuOp::EnableInterrupts,
        ]
    );
}

#[test]
fn unreal_mode_masks_interrupts_around_the_mode_bit() {
    let steps = enter_unreal_mode();
    let position = |op: CpuOp| steps.iter().position(|s| *s == op).unwrap();
    assert!(position(CpuOp::EnableA20) < position(CpuOp::DisableInterrupts));
    assert!(position(CpuOp::DisableInterrupts) < position(CpuOp::LoadGdt));
    assert!(position(CpuOp::LoadGdt) < position(CpuOp::SetProtectedModeBit));
    assert!(position(CpuOp::SetProtectedModeBit) < position(CpuOp::UnsetProtectedModeBit));
    assert!(position(CpuOp::UnsetProtectedModeBit) < position(CpuOp::EnableInterrupts));
    assert_eq!(position(CpuOp::EnableInterrupts), steps.len() - 1);
    assert!(!steps.iter().any(|s| matches!(s, CpuOp::FarJump { .. })));
}

#[test]
fn protected_mode_steps_in_order() {
    assert_eq!(PROTECTED_MODE_STACK, 0x90000);
    assert_eq!(
        enter_pm_and_jmp(0x100000),
        vec![
            CpuOp::DisableInterrupts,
            CpuOp::SetProtectedModeBit,
            CpuOp::FarJump { selector: 8 },
            CpuOp::LoadSegment { register: SegmentRegister::Ds, selector: 16 },
            CpuOp::LoadSegment { register: SegmentRegister::Es, selector: 16 },
            CpuOp::LoadSegment { register: SegmentRegister::Ss, selector: 16 },
            CpuOp::SetStack { pointer: 0x90000 },
            CpuOp::Call { target: 0x100000 },
        ]
    );
}

#[test]
fn protected_mode_calls_the_given_address() {
    let steps = enter_pm_and_jmp(0xDEAD_BEEF);
    assert_eq!(steps.last(), Some(&CpuOp::Call { target: 0xDEAD_BEEF }));
    assert_eq!(steps.len(), 8);
}
