use bootloader::image::{
    fat_image_size, gpt_disk_size, parent_directories, partition_layout, protective_mbr_size,
    sector_padding, sectors_for, ImagePartition,
};
use bootloader::partition::PartitionTableEntry;

#[test]
fn sectors_for_rounds_up() {
    assert_eq!(sectors_for(1), Some(1));
    assert_eq!(sectors_for(511), Some(1));
    assert_eq!(sectors_for(512), Some(1));
    assert_eq!(sectors_for(513), Some(2));
    assert_eq!(sectors_for(1024), Some(2));
    assert_eq!(sectors_for(10240), Some(20));
    assert_eq!(sectors_for(10241), Some(21));
}

#[test]
fn sectors_for_rejects_an_empty_file() {
    assert_eq!(sectors_for(0), None);
}

#[test]
fn sectors_for_at_the_edge_of_32_bits() {
    assert_eq!(sectors_for(0xFFFF_FFFF * 512), Some(0xFFFF_FFFF));
    assert_eq!(sectors_for(0xFFFF_FFFF * 512 + 1), None);
    assert_eq!(sectors_for(0x1_0000_0000), Some(0x80_0000));
    assert_eq!(sectors_for(0x1_0000_0001), Some(0x80_0001));
    assert_eq!(sectors_for(u64::MAX), None);
}

#[test]
fn layout_puts_the_kernel_behind_the_second_stage() {
    let (second_stage, kernel) = partition_layout(10240, 5000).unwrap();
    assert_eq!(
        second_stage,
        ImagePartition { boot: 0x80, starting_lba: 1, sectors: 20, sys: 0x02 }
    );
    assert_eq!(kernel, ImagePartition { boot: 0x80, starting_lba: 21, sectors: 10, sys: 0x83 });
}

#[test]
fn layout_needs_both_files() {
    assert_eq!(partition_layout(0, 5000), None);
    assert_eq!(partition_layout(5000, 0), None);
    assert!(partition_layout(1, 1).is_some());
}

#[test]
fn layout_rejects_what_does_not_fit() {
    assert_eq!(partition_layout(0xFFFF_FFFF * 512, 1), None);
    let (second_stage, kernel) = partition_layout(0xFFFF_FFFE * 512, 0xFFFF_FFFF * 512).unwrap();
    assert_eq!(second_stage.sectors, 0xFFFF_FFFE);
    assert_eq!(kernel.starting_lba, 0xFFFF_FFFF);
    assert_eq!(kernel.sectors, 0xFFFF_FFFF);
    assert_eq!(partition_layout(1, 0xFFFF_FFFF * 512 + 1), None);
}

#[test]
fn layout_decodes_from_a_table_with_the_same_numbers() {
    let (second_stage, kernel) = partition_layout(33 * 512 + 1, 9 * 512).unwrap();
    let mut raw = [0u8; 64];
    for (slot, partition) in [second_stage, kernel].iter().enumerate() {
        let base = slot * 16;
        raw[base] = partition.boot;
        raw[base + 4] = partition.sys;
        raw[base + 8..base + 12].copy_from_slice(&partition.starting_lba.to_le_bytes());
        raw[base + 12..base + 16].copy_from_slice(&partition.sectors.to_le_bytes());
    }
    assert_eq!(
        PartitionTableEntry::from_raw(&raw, 1),
        Ok(PartitionTableEntry { bootable: true, lba_start: 1, sector_count: 34 })
    );
    assert_eq!(
        PartitionTableEntry::from_raw(&raw, 2),
        Ok(PartitionTableEntry { bootable: true, lba_start: 35, sector_count: 9 })
    );
}

#[test]
fn fat_image_is_padded_to_megabytes_plus_one() {
    const MB: u64 = 1024 * 1024;
    assert_eq!(fat_image_size(&vec![]), Some(MB));
    assert_eq!(fat_image_size(&vec![0]), Some(MB));
    assert_eq!(fat_image_size(&vec![1]), Some(2 * MB));
    assert_eq!(fat_image_size(&vec![MB]), Some(2 * MB));
    assert_eq!(fat_image_size(&vec![MB - 4095]), Some(2 * MB));
    assert_eq!(fat_image_size(&vec![MB + 1]), Some(3 * MB));
    assert_eq!(fat_image_size(&vec![MB, 1]), Some(3 * MB));
    assert_eq!(fat_image_size(&vec![300_000, 400_000, 500_000]), Some(3 * MB));
}

#[test]
fn fat_image_size_that_does_not_fit() {
    const MB: u64 = 1024 * 1024;
    assert_eq!(fat_image_size(&vec![u64::MAX]), None);
    assert_eq!(fat_image_size(&vec![u64::MAX, 0]), None);
    assert_eq!(fat_image_size(&vec![u64::MAX / 2, u64::MAX / 2, 2]), None);
    assert_eq!(fat_image_size(&vec![u64::MAX - MB + 1]), None);
    assert_eq!(fat_image_size(&vec![u64::MAX - 2 * MB + 1]), Some(u64::MAX - MB + 1));
    assert_eq!(fat_image_size(&vec![u64::MAX - 2 * MB + 2]), None);
}

#[test]
fn gpt_disk_adds_room_for_the_entries() {
    assert_eq!(gpt_disk_size(0), Some(65536));
    assert_eq!(gpt_disk_size(2 * 1024 * 1024), Some(2 * 1024 * 1024 + 65536));
    assert_eq!(gpt_disk_size(u64::MAX - 65536), Some(u64::MAX));
    assert_eq!(gpt_disk_size(u64::MAX - 65535), None);
}

#[test]
fn protective_mbr_counts_sectors_less_one() {
    assert_eq!(protective_mbr_size(512), 0);
    assert_eq!(protective_mbr_size(1023), 0);
    assert_eq!(protective_mbr_size(1024), 1);
    assert_eq!(protective_mbr_size(2 * 1024 * 1024 + 65536), 4223);
    assert_eq!(protective_mbr_size(0x1_0000_0000 * 512), 0xFFFF_FFFF);
    assert_eq!(protective_mbr_size(0x1_0000_0001 * 512), 0xFFFF_FFFF);
    assert_eq!(protective_mbr_size(0xFFFF_FFFF * 512), 0xFFFF_FFFE);
    assert_eq!(protective_mbr_size(u64::MAX), 0xFFFF_FFFF);
}

#[test]
fn sector_padding_reaches_the_next_boundary() {
    assert_eq!(sector_padding(0), 0);
    assert_eq!(sector_padding(1), 511);
    assert_eq!(sector_padding(511), 1);
    assert_eq!(sector_padding(512), 0);
    assert_eq!(sector_padding(513), 511);
    assert_eq!(sector_padding(10240), 0);
    assert_eq!(sector_padding(10241), 511);
    assert_eq!(sector_padding(u64::MAX), 1);
    assert_eq!(sector_padding(u64::MAX - 511), 0);
    assert_eq!(sector_padding(u64::MAX - 512), 1);
}

#[test]
fn kernel_partition_starts_at_the_kernel() {
    for (second_stage_len, kernel_len) in [(1u64, 1u64), (512, 512), (10241, 77), (33 * 512 + 5, 9 * 512)] {
        let (second_stage, kernel) = partition_layout(second_stage_len, kernel_len).unwrap();
        let kernel_offset = 512 + second_stage_len + sector_padding(second_stage_len);
        assert_eq!(second_stage.starting_lba as u64 * 512, 512);
        assert_eq!(kernel.starting_lba as u64 * 512, kernel_offset);
        assert!(kernel_offset + kernel_len <= (kernel.starting_lba + kernel.sectors) as u64 * 512);
    }
}

fn names(parts: &[Option<&str>]) -> Vec<Option<String>> {
    parts.iter().map(|p| p.map(|s| s.to_string())).collect()
}

#[test]
fn parent_directories_are_all_names_but_the_last() {
    assert_eq!(
        parent_directories(&names(&[Some("efi"), Some("boot"), Some("bootx64.efi")])),
        Ok(vec!["efi".to_string(), "boot".to_string()])
    );
    assert_eq!(parent_directories(&names(&[Some("kernel.bin")])), Ok(vec![]));
    assert_eq!(parent_directories(&names(&[])), Ok(vec![]));
}

#[test]
fn parent_directories_do_not_look_at_the_last_component() {
    assert_eq!(parent_directories(&names(&[None])), Ok(vec![]));
    assert_eq!(
        parent_directories(&names(&[Some("efi"), None])),
        Ok(vec!["efi".to_string()])
    );
}

#[test]
fn parent_directories_reject_the_first_component_that_is_no_name() {
    assert_eq!(parent_directories(&names(&[None, Some("boot"), Some("f")])), Err(0));
    assert_eq!(parent_directories(&names(&[Some("efi"), None, Some("f")])), Err(1));
    assert_eq!(parent_directories(&names(&[Some("a"), None, None, Some("f")])), Err(1));
    assert_eq!(parent_directories(&names(&[Some("a"), Some("b"), None, None])), Err(2));
}
