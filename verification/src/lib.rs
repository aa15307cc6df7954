//! Verified core of a legacy-BIOS two-stage boot chain: partition-table
//! decoding, disk address packets, the staging buffer, segment descriptors,
//! the mode-transition sequence and the decision logic of both loaders.
//!
//! Nothing in this crate touches hardware. Firmware calls are described as
//! values (requests, CPU operations, bytes for the teletype) that a thin
//! platform layer carries out; what the firmware answered comes back in as
//! plain values.
//!
//! - `partition`, `dap`, `gdt`: the hardware records, byte for byte.
//! - `buffer`: the staging buffer.
//! - `screen`: text for the teletype.
//! - `protected_mode`: the steps of the mode transitions, and a model of
//!   the CPU that they are proved against.
//! - `firmware`: actions and events, the boundary to the platform.
//! - `loader`: how a partition is cut into reads.
//! - `stage_1`, `stage_2`: the two loaders as state machines, with the laws
//!   of their runs.
//! - `framebuffer`, `kitten`: the test pattern of the UEFI variant.
//! - `image`: sizes and positions for building boot media.

pub mod buffer;
pub mod dap;
pub mod endian;
pub mod firmware;
pub mod framebuffer;
pub mod gdt;
pub mod image;
pub mod kitten;
pub mod loader;
pub mod partition;
pub mod protected_mode;
pub mod screen;
pub mod stage_1;
pub mod stage_2;
