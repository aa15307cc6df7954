use bootloader::dap::DiskAddressPacket;
use bootloader::firmware::{Action, Event};
use bootloader::partition::PartitionTable;
use bootloader::stage_1::{err_fatal, first_stage, FirstStage, Phase};

fn table_with(bootable: bool, lba_start: u32, sector_count: u32) -> PartitionTable {
    let mut raw = [0u8; 64];
    raw[0] = if bootable { 0x80 } else { 0x00 };
    raw[8..12].copy_from_slice(&lba_start.to_le_bytes());
    raw[12..16].copy_from_slice(&sector_count.to_le_bytes());
    // Entry 2 must play no part in the first stage.
    raw[16] = 0x80;
    raw[24] = 0x77;
    raw[28] = 0x55;
    PartitionTable::from_ptr(&raw)
}

fn read_ok() -> Event {
    Event::ReadDone { carry: false, data: Vec::new() }
}

fn halt(code: u8) -> Action {
    let mut message = b"Fatal error: ".to_vec();
    message.push(code);
    Action::Halt { code, message }
}

/// Runs the stage to its end with a firmware that supports LBA and never
/// fails, and returns every action taken.
fn run_to_end(stage: FirstStage, first: Action) -> (FirstStage, Vec<Action>) {
    let mut stage = stage;
    let mut actions = vec![first];
    loop {
        let event = match actions.last().unwrap() {
            Action::Print(_) => Event::Done,
            Action::CheckLbaExtension => Event::LbaChecked { carry: false },
            Action::Read { .. } => read_ok(),
            _ => return (stage, actions),
        };
        let (next, action) = stage.step(event);
        stage = next;
        actions.push(action);
    }
}

#[test]
fn stage_1_first_action_is_the_greeting() {
    let (stage, action) = first_stage(0x80, 0x7E00, table_with(true, 1, 20));
    assert_eq!(action, Action::Print(b"Booted into first stage...".to_vec()));
    assert_eq!(stage.phase(), Phase::Greeting);
    assert_eq!(stage.halt_code(), None);
}

#[test]
fn stage_1_loads_twenty_sectors_in_one_read() {
    let (stage, action) = first_stage(0x80, 0x7E00, table_with(true, 1, 20));
    let (stage, actions) = run_to_end(stage, action);
    assert_eq!(
        actions,
        vec![
            Action::Print(b"Booted into first stage...".to_vec()),
            Action::CheckLbaExtension,
            Action::Read { packet: DiskAddressPacket::new(20, 0x0, 0x07E0, 1), drive: 0x80 },
            Action::Handoff { drive_number: 0x80 },
        ]
    );
    assert_eq!(stage.phase(), Phase::HandedOff);
    assert_eq!(stage.memory_addr(), 0x7E00 + 10240);
    assert_eq!(stage.sectors_left(), 0);
    assert_eq!(stage.current_lba(), 21);
}

#[test]
fn stage_1_no_lba_extension_halts_with_l_before_any_read() {
    let (stage, _) = first_stage(0x80, 0x7E00, table_with(true, 1, 20));
    let (stage, action) = stage.step(Event::Done);
    assert_eq!(action, Action::CheckLbaExtension);
    let (stage, action) = stage.step(Event::LbaChecked { carry: true });
    assert_eq!(action, halt(b'L'));
    assert_eq!(stage.phase(), Phase::Halted);
    assert_eq!(stage.halt_code(), Some(b'L'));
    let mut stage = stage;
    for event in [Event::Done, read_ok(), Event::LbaChecked { carry: false }] {
        let (next, action) = stage.step(event);
        assert_eq!(action, halt(b'L'));
        assert_eq!(next.halt_code(), Some(b'L'));
        stage = next;
    }
}

#[test]
fn stage_1_failed_read_halts_with_d() {
    let (stage, _) = first_stage(0x80, 0x7E00, table_with(true, 1, 20));
    let (stage, _) = stage.step(Event::Done);
    let (stage, action) = stage.step(Event::LbaChecked { carry: false });
    assert!(matches!(action, Action::Read { .. }));
    assert_eq!(stage.phase(), Phase::Reading);
    let (stage, action) = stage.step(Event::ReadDone { carry: true, data: Vec::new() });
    assert_eq!(action, halt(b'D'));
    assert_eq!(stage.halt_code(), Some(b'D'));
    assert_eq!(stage.sectors_left(), 20);
}

#[test]
fn stage_1_empty_partition_hands_over_without_a_read() {
    let (stage, action) = first_stage(0x81, 0x7E00, table_with(true, 5, 0));
    let (stage, actions) = run_to_end(stage, action);
    assert_eq!(actions.len(), 3);
    assert_eq!(actions[2], Action::Handoff { drive_number: 0x81 });
    assert_eq!(stage.memory_addr(), 0x7E00);
    assert_eq!(stage.current_lba(), 5);
}

#[test]
fn stage_1_first_stage_does_not_ask_for_a_bootable_partition() {
    let (stage, action) = first_stage(0x80, 0x7E00, table_with(false, 1, 2));
    let (stage, actions) = run_to_end(stage, action);
    assert_eq!(stage.phase(), Phase::HandedOff);
    assert_eq!(
        actions[2],
        Action::Read { packet: DiskAddressPacket::new(2, 0, 0x07E0, 1), drive: 0x80 }
    );
}

#[test]
fn stage_1_loads_128_sectors_in_two_reads() {
    let (stage, action) = first_stage(0x80, 0x7E00, table_with(true, 1, 128));
    let (stage, actions) = run_to_end(stage, action);
    assert_eq!(
        actions,
        vec![
            Action::Print(b"Booted into first stage...".to_vec()),
            Action::CheckLbaExtension,
            Action::Read { packet: DiskAddressPacket::new(127, 0x0, 0x07E0, 1), drive: 0x80 },
            Action::Read { packet: DiskAddressPacket::new(1, 0x0, 0x17C0, 128), drive: 0x80 },
            Action::Handoff { drive_number: 0x80 },
        ]
    );
    assert_eq!(stage.phase(), Phase::HandedOff);
    assert_eq!(stage.memory_addr(), 0x17E00);
    assert_eq!(stage.sectors_left(), 0);
    assert_eq!(stage.current_lba(), 129);
}

#[test]
fn stage_1_read_count_is_the_rounded_up_quotient() {
    for (sectors, reads) in [(0u32, 0usize), (1, 1), (126, 1), (127, 1), (128, 2), (254, 2), (255, 3), (1000, 8)] {
        let (stage, action) = first_stage(0x80, 0x7E03, table_with(true, 40, sectors));
        let (stage, actions) = run_to_end(stage, action);
        let packets: Vec<DiskAddressPacket> = actions
            .iter()
            .filter_map(|a| match a {
                Action::Read { packet, drive } => {
                    assert_eq!(*drive, 0x80);
                    Some(*packet)
                }
                _ => None,
            })
            .collect();
        assert_eq!(packets.len(), reads);
        assert_eq!(packets.len() as u32, (sectors + 126) / 127);
        assert!(packets.iter().all(|p| 1 <= p.sector_count() && p.sector_count() <= 127));
        assert_eq!(packets.iter().map(|p| p.sector_count() as u32).sum::<u32>(), sectors);
        for (k, packet) in packets.iter().enumerate() {
            let address = 0x7E03 + 65024 * k as u32;
            assert_eq!(packet.lba_start(), 40 + 127 * k as u64);
            assert_eq!(packet.sector_count() as u32, (sectors - 127 * k as u32).min(127));
            assert_eq!(packet.offset() as u32, address & 0xF);
            assert_eq!(packet.segment() as u32, address >> 4);
        }
        assert_eq!(actions.last(), Some(&Action::Handoff { drive_number: 0x80 }));
        assert_eq!(stage.memory_addr(), 0x7E03 + sectors * 512);
        assert_eq!(stage.current_lba(), 40 + sectors as u64);
    }
}

#[test]
fn stage_1_largest_load_that_fits() {
    // 0x7E00 + 1985 * 512 = 0x100000: the load ends where the reach of the
    // firmware reads ends.
    let (stage, action) = first_stage(0x80, 0x7E00, table_with(true, 1, 1985));
    let (stage, actions) = run_to_end(stage, action);
    assert_eq!(stage.phase(), Phase::HandedOff);
    assert_eq!(stage.memory_addr(), 0x10_0000);
    assert_eq!(actions.len(), 2 + 16 + 1);
    assert_eq!(
        actions[17],
        Action::Read {
            packet: DiskAddressPacket::new(80, 0x0, 0xF600, 1 + 15 * 127),
            drive: 0x80
        }
    );
    let (stage, action) = first_stage(0x80, 0xFFFF, table_with(true, 9, 1920));
    let (stage, actions) = run_to_end(stage, action);
    assert_eq!(
        actions[2],
        Action::Read { packet: DiskAddressPacket::new(127, 0xF, 0x0FFF, 9), drive: 0x80 }
    );
    assert_eq!(stage.memory_addr(), 0xFFFF + 1920 * 512);
    assert_eq!(stage.current_lba(), 1929);
}

#[test]
fn stage_1_load_past_the_reach_of_the_firmware_is_a_fault() {
    let (stage, _) = first_stage(0x80, 0x7E00, table_with(true, 1, 1986));
    let (stage, _) = stage.step(Event::Done);
    let (stage, action) = stage.step(Event::LbaChecked { carry: false });
    assert_eq!(action, halt(b'P'));
    assert_eq!(stage.halt_code(), Some(b'P'));
    assert_eq!(stage.phase(), Phase::Halted);
    let (stage, _) = first_stage(0x80, 0x0001, table_with(true, 1, 2048));
    let (stage, _) = stage.step(Event::Done);
    let (_, action) = stage.step(Event::LbaChecked { carry: false });
    assert_eq!(action, halt(b'P'));
    let (stage, action) = first_stage(0x80, 0x0000, table_with(true, 1, 2048));
    let (stage, _) = run_to_end(stage, action);
    assert_eq!(stage.memory_addr(), 0x10_0000);
    let (stage, _) = first_stage(0x80, 0, table_with(true, 1, u32::MAX));
    let (stage, _) = stage.step(Event::Done);
    let (_, action) = stage.step(Event::LbaChecked { carry: false });
    assert_eq!(action, halt(b'P'));
}

#[test]
fn stage_1_drive_number_is_cut_to_a_byte_for_the_read() {
    let (stage, action) = first_stage(0x1234, 0x7E00, table_with(true, 1, 1));
    let (_, actions) = run_to_end(stage, action);
    assert_eq!(
        actions[2],
        Action::Read { packet: DiskAddressPacket::new(1, 0, 0x07E0, 1), drive: 0x34 }
    );
    assert_eq!(actions[3], Action::Handoff { drive_number: 0x1234 });
}

#[test]
fn stage_1_unexpected_report_is_a_fault() {
    let (stage, _) = first_stage(0x80, 0x7E00, table_with(true, 1, 20));
    let (stage, action) = stage.step(Event::LbaChecked { carry: false });
    assert_eq!(action, halt(b'P'));
    assert_eq!(stage.halt_code(), Some(b'P'));

    let (stage, _) = first_stage(0x80, 0x7E00, table_with(true, 1, 20));
    let (stage, _) = stage.step(Event::Done);
    let (_, action) = stage.step(Event::Done);
    assert_eq!(action, halt(b'P'));

    let (stage, _) = first_stage(0x80, 0x7E00, table_with(true, 1, 20));
    let (stage, _) = stage.step(Event::Done);
    let (stage, _) = stage.step(Event::LbaChecked { carry: false });
    let (_, action) = stage.step(Event::Done);
    assert_eq!(action, halt(b'P'));
}

#[test]
fn stage_1_handoff_is_final() {
    let (stage, action) = first_stage(0x80, 0x7E00, table_with(true, 1, 20));
    let (stage, _) = run_to_end(stage, action);
    let (stage, action) = stage.step(read_ok());
    assert_eq!(action, Action::Handoff { drive_number: 0x80 });
    let (stage, action) = stage.step(Event::LbaChecked { carry: true });
    assert_eq!(action, Action::Handoff { drive_number: 0x80 });
    assert_eq!(stage.phase(), Phase::HandedOff);
    assert_eq!(stage.memory_addr(), 0x7E00 + 10240);
}

#[test]
fn stage_1_fatal_message_is_preamble_and_code() {
    assert_eq!(err_fatal(b'L'), Action::Halt { code: b'L', message: b"Fatal error: L".to_vec() });
    assert_eq!(err_fatal(b'P'), Action::Halt { code: b'P', message: b"Fatal error: P".to_vec() });
    assert_eq!(
        err_fatal(0),
        Action::Halt { code: 0, message: b"Fatal error: \0".to_vec() }
    );
}
