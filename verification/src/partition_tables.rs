//! Partition tables of a disk image.
use vstd::prelude::*;

pub mod mbr;

verus! {

/// Bytes of boot code in front of the partition table of a boot record.
pub const BOOTSTRAPER_LENGTH: usize = 446;

/// MBR partition type of the protective entry of a GPT disk.
pub const GPT_PARTITION_TYPE: u8 = 0xee;

/// GPT partition type GUID of an NTFS ("Microsoft basic data") partition.
pub const NTFS_GPT_PARTITION_TYPE: &'static str = "EBD0A0A2-B9E5-4433-87C0-68B6B72699C7";

/// MBR partition type of an NTFS partition.
pub const NTFS_MBR_PARTITION_TYPE: u8 = 0x07;

} // verus!
