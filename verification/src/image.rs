//! Sizes and positions for building boot media: the two partitions of the
//! BIOS disk image, the FAT image of the UEFI variant, and the GPT disk
//! around it.
//!
//! Only numbers are computed here. Reading the input files and writing the
//! image is the builder's business.

use vstd::prelude::*;

verus! {

/// Bytes in a sector.
pub const SECTOR_SIZE: u64 = 512;

/// Status byte of a bootable partition.
pub const BOOT_ACTIVE: u8 = 0x80;

/// Partition type of the second stage.
pub const SECOND_STAGE_SYS: u8 = 0x02;

/// Partition type of the kernel.
pub const KERNEL_SYS: u8 = 0x83;

/// Bytes in a FAT cluster of the image.
pub const CLUSTER_SIZE: u64 = 4096;

/// Bytes in a megabyte.
pub const MB: u64 = 0x10_0000;

/// Sectors reserved in a GPT disk for the partition entries.
pub const GPT_RESERVED_SECTORS: u64 = 128;

/// Size that a protective MBR states for a disk too large to state.
pub const PROTECTIVE_MBR_MAX: u32 = 0xFFFF_FFFF;

/// A partition of the disk image, as the image builder enters it in the
/// partition table.
#[derive(Clone, Copy, Debug, PartialEq, Eq, Structural)]
pub struct ImagePartition {
    pub boot: u8,
    pub starting_lba: u32,
    pub sectors: u32,
    pub sys: u8,
}

/// `x` rounded up to a multiple of `unit`.
pub open spec fn round_up(x: nat, unit: nat) -> nat {
    (((x + unit - 1) / (unit as int)) * unit) as nat
}

/// Sectors that `len` bytes take: `len / 512`, rounded up.
pub open spec fn sectors_spanned(len: nat) -> nat {
    (len + 511) / 512
}

/// The partitions for a second stage of `second_stage_len` bytes and a
/// kernel of `kernel_len` bytes: the second stage from sector 1 on, the
/// kernel right behind it.
pub open spec fn layout(second_stage_len: nat, kernel_len: nat) -> (ImagePartition, ImagePartition) {
    (
        ImagePartition {
            boot: BOOT_ACTIVE,
            starting_lba: 1,
            sectors: sectors_spanned(second_stage_len) as u32,
            sys: SECOND_STAGE_SYS,
        },
        ImagePartition {
            boot: BOOT_ACTIVE,
            starting_lba: (1 + sectors_spanned(second_stage_len)) as u32,
            sectors: sectors_spanned(kernel_len) as u32,
            sys: KERNEL_SYS,
        },
    )
}

/// Both files hold something, and every number of the layout fits 32 bits.
pub open spec fn layout_exists(second_stage_len: nat, kernel_len: nat) -> bool {
    &&& second_stage_len > 0
    &&& kernel_len > 0
    &&& 1 + sectors_spanned(second_stage_len) <= u32::MAX
    &&& sectors_spanned(kernel_len) <= u32::MAX
}

/// Sectors that a file of `len` bytes takes. `None` for an empty file and
/// for one whose sector count does not fit 32 bits.
pub fn sectors_for(len: u64) -> (sectors: Option<u32>)
    ensures
        sectors == if len > 0 && sectors_spanned(len as nat) <= u32::MAX {
            Some(sectors_spanned(len as nat) as u32)
        } else {
            None
        },
{
    if len == 0 {
        return None;
    }
    let sectors: u64 = (len - 1) / SECTOR_SIZE + 1;
    if sectors > 0xFFFF_FFFF {
        None
    } else {
        Some(sectors as u32)
    }
}

/// The partitions for a second stage of `second_stage_len` bytes and a
/// kernel of `kernel_len` bytes.
pub fn partition_layout(second_stage_len: u64, kernel_len: u64) -> (partitions: Option<
    (ImagePartition, ImagePartition),
>)
    ensures
        partitions == if layout_exists(second_stage_len as nat, kernel_len as nat) {
            Some(layout(second_stage_len as nat, kernel_len as nat))
        } else {
            None
        },
{
    let second_stage_sectors: u32 = match sectors_for(second_stage_len) {
        Some(sectors) => sectors,
        None => {
            return None;
        },
    };
    let kernel_sectors: u32 = match sectors_for(kernel_len) {
        Some(sectors) => sectors,
        None => {
            return None;
        },
    };
    if second_stage_sectors == 0xFFFF_FFFF {
        return None;
    }
    Some(
        (
            ImagePartition {
                boot: BOOT_ACTIVE,
                starting_lba: 1,
                sectors: second_stage_sectors,
                sys: SECOND_STAGE_SYS,
            },
            ImagePartition {
                boot: BOOT_ACTIVE,
                starting_lba: 1 + second_stage_sectors,
                sectors: kernel_sectors,
                sys: KERNEL_SYS,
            },
        ),
    )
}

/// The partitions of a layout are bootable, lie one right behind the other
/// from sector 1 on, and each is just large enough for its file: the file
/// fits, and would not fit one sector less.
pub proof fn lemma_layout_is_contiguous(second_stage_len: nat, kernel_len: nat)
    requires
        layout_exists(second_stage_len, kernel_len),
    ensures
        ({
            let (second_stage, kernel) = layout(second_stage_len, kernel_len);
            &&& second_stage.boot == 0x80 && kernel.boot == 0x80
            &&& second_stage.starting_lba == 1
            &&& kernel.starting_lba == second_stage.starting_lba + second_stage.sectors
            &&& (second_stage.sectors - 1) * 512 < second_stage_len <= second_stage.sectors * 512
            &&& (kernel.sectors - 1) * 512 < kernel_len <= kernel.sectors * 512
        }),
{
}

/// Bytes between the end of a file of `len` bytes and the next sector
/// boundary.
pub open spec fn padding_for(len: nat) -> nat {
    (sectors_spanned(len) * 512 - len) as nat
}

/// Zero bytes to write behind a file of `len` bytes so that what follows
/// starts on a sector boundary.
pub fn sector_padding(len: u64) -> (padding: u64)
    ensures
        padding == padding_for(len as nat),
        padding < SECTOR_SIZE,
        (len + padding) % 512 == 0,
{
    let rest: u64 = len % SECTOR_SIZE;
    if rest == 0 {
        0
    } else {
        SECTOR_SIZE - rest
    }
}

/// Where the kernel's first byte lies in the disk image: behind the boot
/// sector, the second stage and its padding.
pub open spec fn kernel_offset(second_stage_len: nat) -> nat {
    512 + second_stage_len + padding_for(second_stage_len)
}

/// With the padding behind the second stage, each partition starts at the
/// first byte of its file: the second stage right behind the boot sector,
/// the kernel at the first sector of the kernel partition.
pub proof fn lemma_partitions_hold_their_files(second_stage_len: nat, kernel_len: nat)
    requires
        layout_exists(second_stage_len, kernel_len),
    ensures
        ({
            let (second_stage, kernel) = layout(second_stage_len, kernel_len);
            &&& second_stage.starting_lba * 512 == 512
            &&& kernel.starting_lba * 512 == kernel_offset(second_stage_len)
            &&& kernel_offset(second_stage_len) + kernel_len <= (kernel.starting_lba
                + kernel.sectors) * 512
        }),
{
}

/// How many of `count` path components name parent directories: all but
/// the last, which names the file.
pub open spec fn parent_count(count: nat) -> nat {
    if count == 0 {
        0
    } else {
        (count - 1) as nat
    }
}

/// The directories to create for a file whose path has these components,
/// where `None` stands for a component that is no plain name: the names of
/// all components but the last, in order. If one of those is no plain
/// name, the index of the first such is the error.
pub fn parent_directories(components: &Vec<Option<String>>) -> (dirs: Result<Vec<String>, usize>)
    ensures
        match dirs {
            Ok(names) => {
                &&& names@.len() == parent_count(components@.len())
                &&& forall|i: int|
                    0 <= i < names@.len() ==> components@[i] == Some(#[trigger] names@[i])
            },
            Err(index) => {
                &&& index < parent_count(components@.len())
                &&& components@[index as int] is None
                &&& forall|i: int| 0 <= i < index ==> (#[trigger] components@[i]) is Some
            },
        },
{
    let mut names: Vec<String> = Vec::new();
    if components.len() == 0 {
        return Ok(names);
    }
    let parents: usize = components.len() - 1;
    let mut i: usize = 0;
    while i < parents
        invariant
            i <= parents,
            parents == parent_count(components@.len()),
            parents < components@.len(),
            names@.len() == i,
            forall|j: int| 0 <= j < i ==> components@[j] == Some(#[trigger] names@[j]),
            forall|j: int| 0 <= j < i ==> (#[trigger] components@[j]) is Some,
        decreases parents - i,
    {
        let component: &Option<String> = &components[i];
        match component {
            Some(name) => {
                let copy: String = name.clone();
                names.push(copy);
            },
            None => {
                return Err(i);
            },
        }
        i += 1;
    }
    Ok(names)
}

/// Size of the FAT image for files of these sizes: their total, rounded up
/// to whole clusters, then to whole megabytes, and one megabyte more.
pub open spec fn fat_size_for(total: nat) -> nat {
    round_up(round_up(total, CLUSTER_SIZE as nat), MB as nat) + MB as nat
}

/// The sum of `sizes`.
pub open spec fn total_size(sizes: Seq<u64>) -> nat
    decreases sizes.len(),
{
    if sizes.len() == 0 {
        0
    } else {
        (total_size(sizes.drop_last()) + sizes.last()) as nat
    }
}

/// Size of the FAT image that holds files of the given sizes. `None` if the
/// size does not fit 64 bits.
pub fn fat_image_size(file_sizes: &Vec<u64>) -> (size: Option<u64>)
    ensures
        size == if fat_size_for(total_size(file_sizes@)) <= u64::MAX {
            Some(fat_size_for(total_size(file_sizes@)) as u64)
        } else {
            None
        },
{
    let mut total: u64 = 0;
    let mut i: usize = 0;
    while i < file_sizes.len()
        invariant
            i <= file_sizes@.len(),
            total == total_size(file_sizes@.take(i as int)),
        decreases file_sizes@.len() - i,
    {
        proof {
            assert(file_sizes@.take(i + 1).drop_last() =~= file_sizes@.take(i as int));
            lemma_total_size_grows(file_sizes@, i as int + 1);
            lemma_fat_size_grows(total_size(file_sizes@.take(i + 1)), total_size(file_sizes@));
        }
        total = match total.checked_add(file_sizes[i]) {
            Some(sum) => sum,
            None => {
                return None;
            },
        };
        i += 1;
    }
    assert(file_sizes@.take(i as int) =~= file_sizes@);
    proof {
        lemma_round_up(total as nat, CLUSTER_SIZE as nat);
        lemma_round_up(round_up(total as nat, CLUSTER_SIZE as nat), MB as nat);
    }
    if total > u64::MAX - (CLUSTER_SIZE - 1) {
        return None;
    }
    let data_region_size: u64 = (total + (CLUSTER_SIZE - 1)) / CLUSTER_SIZE * CLUSTER_SIZE;
    if data_region_size > u64::MAX - (MB - 1) {
        return None;
    }
    let rounded: u64 = (data_region_size + (MB - 1)) / MB * MB;
    if rounded > u64::MAX - MB {
        return None;
    }
    Some(rounded + MB)
}

/// Rounding up gives the least multiple of the unit that is not below the
/// number.
pub proof fn lemma_round_up(x: nat, unit: nat)
    requires
        unit > 0,
    ensures
        round_up(x, unit) % unit == 0,
        x <= round_up(x, unit) < x + unit,
{
    let u = unit as int;
    let q = (x + unit - 1) / u;
    assert((x + unit - 1) == u * q + (x + unit - 1) % u && 0 <= (x + unit - 1) % u < u)
        by (nonlinear_arith)
        requires
            u > 0,
            q == (x + unit - 1) / u,
    ;
    assert(q * u == u * q) by (nonlinear_arith);
    assert((q * u) % u == 0) by (nonlinear_arith)
        requires
            u > 0,
    ;
    assert(q >= 0) by (nonlinear_arith)
        requires
            x + unit - 1 >= 0,
            u > 0,
            q == (x + unit - 1) / u,
    ;
    assert(q * u >= 0) by (nonlinear_arith)
        requires
            q >= 0,
            u > 0,
    ;
}

proof fn lemma_total_size_grows(sizes: Seq<u64>, n: int)
    requires
        0 <= n <= sizes.len(),
    ensures
        total_size(sizes.take(n)) <= total_size(sizes),
    decreases sizes.len() - n,
{
    if n < sizes.len() {
        lemma_total_size_grows(sizes, n + 1);
        assert(sizes.take(n + 1).drop_last() =~= sizes.take(n));
    } else {
        assert(sizes.take(n) =~= sizes);
    }
}

proof fn lemma_fat_size_grows(a: nat, b: nat)
    requires
        a <= b,
    ensures
        a <= fat_size_for(a) <= fat_size_for(b),
{
    lemma_round_up_grows(a, b, CLUSTER_SIZE as nat);
    lemma_round_up_grows(
        round_up(a, CLUSTER_SIZE as nat),
        round_up(b, CLUSTER_SIZE as nat),
        MB as nat,
    );
    lemma_round_up(a, CLUSTER_SIZE as nat);
    lemma_round_up(round_up(a, CLUSTER_SIZE as nat), MB as nat);
}

proof fn lemma_round_up_grows(a: nat, b: nat, unit: nat)
    requires
        a <= b,
        unit > 0,
    ensures
        round_up(a, unit) <= round_up(b, unit),
{
    let u = unit as int;
    let qa = (a + unit - 1) / u;
    let qb = (b + unit - 1) / u;
    assert(qa <= qb) by (nonlinear_arith)
        requires
            a + unit - 1 <= b + unit - 1,
            u > 0,
            qa == (a + unit - 1) / u,
            qb == (b + unit - 1) / u,
    ;
    assert(qa * u <= qb * u) by (nonlinear_arith)
        requires
            qa <= qb,
            u > 0,
    ;
    assert(qa * u >= 0 && qb * u >= 0) by {
        lemma_round_up(a, unit);
        lemma_round_up(b, unit);
        assert(qa >= 0 && qb >= 0) by (nonlinear_arith)
            requires
                a + unit - 1 >= 0,
                b + unit - 1 >= 0,
                u > 0,
                qa == (a + unit - 1) / u,
                qb == (b + unit - 1) / u,
        ;
        assert(qa * u >= 0 && qb * u >= 0) by (nonlinear_arith)
            requires
                qa >= 0,
                qb >= 0,
                u > 0,
        ;
    }
}

/// Size of the GPT disk around a FAT image of `fat_size` bytes: the image
/// and room for the partition entries. `None` if it does not fit 64 bits.
pub fn gpt_disk_size(fat_size: u64) -> (size: Option<u64>)
    ensures
        size == if fat_size + GPT_RESERVED_SECTORS * SECTOR_SIZE <= u64::MAX {
            Some((fat_size + GPT_RESERVED_SECTORS * SECTOR_SIZE) as u64)
        } else {
            None
        },
{
    fat_size.checked_add(GPT_RESERVED_SECTORS * SECTOR_SIZE)
}

/// Size that the protective MBR states for a disk of `disk_size` bytes, of
/// which there must be a sector at least: the number of sectors less one,
/// or `0xFFFFFFFF` if that does not fit 32 bits.
pub fn protective_mbr_size(disk_size: u64) -> (size: u32)
    requires
        disk_size >= SECTOR_SIZE,
    ensures
        size == if disk_size / 512 - 1 <= u32::MAX {
            (disk_size / 512 - 1) as u32
        } else {
            PROTECTIVE_MBR_MAX
        },
{
    let lb_size: u64 = disk_size / SECTOR_SIZE - 1;
    if lb_size > 0xFFFF_FFFF {
        PROTECTIVE_MBR_MAX
    } else {
        lb_size as u32
    }
}

} // verus!
