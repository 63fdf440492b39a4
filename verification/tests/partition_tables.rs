use ntfs_parser::mapped_disk::{MappedDisk, MappedDiskError};
use ntfs_parser::partition_tables::mbr::{
    lookup_partition_type, parse_boot_records, parse_partition_tables, MbrPartitionTableEntry,
};
use ntfs_parser::partition_tables::{GPT_PARTITION_TYPE, NTFS_MBR_PARTITION_TYPE};

fn put_entry(image: &mut [u8], sector: usize, slot: usize, bootable: u8, kind: u8, lba: u32, n: u32) {
    let o = sector * 512 + 446 + slot * 16;
    image[o] = bootable;
    image[o + 1] = 1;
    image[o + 2] = 2;
    image[o + 3] = 3;
    image[o + 4] = kind;
    image[o + 5] = 4;
    image[o + 6] = 0xC5;
    image[o + 7] = 6;
    image[o + 8..o + 12].copy_from_slice(&lba.to_le_bytes());
    image[o + 12..o + 16].copy_from_slice(&n.to_le_bytes());
}

fn entry(bootable: u8, partition_type: u8, starting_lba: u32, num_sectors: u32) -> MbrPartitionTableEntry {
    MbrPartitionTableEntry {
        bootable,
        starting_chs: [0; 3],
        partition_type,
        ending_chs: [0; 3],
        starting_lba,
        num_sectors,
    }
}

fn sample_image() -> Vec<u8> {
    let mut image = vec![0u8; 512 * 8];
    put_entry(&mut image, 0, 0, 0x80, 0x07, 2048, 100);
    put_entry(&mut image, 0, 1, 0x00, 0x05, 2, 60);
    put_entry(&mut image, 2, 0, 0x00, 0x83, 1, 50);
    image
}

#[test]
fn mbr_entries_with_extended_partition() {
    let image = sample_image();
    let mut disk = MappedDisk::new(&image);
    let entries = parse_partition_tables(&mut disk, 0).unwrap();
    assert_eq!(entries.len(), 3);
    assert_eq!(entries[0].partition_type(), 0x07);
    assert_eq!(entries[0].starting_lba(), 2048);
    assert_eq!(entries[0].num_sectors(), 100);
    assert!(entries[0].is_bootable());
    assert!(entries[1].is_extended_partition());
    assert_eq!(entries[1].starting_lba(), 2);
    assert_eq!(entries[2].partition_type(), 0x83);
    assert_eq!(entries[2].starting_lba(), 3);
    assert!(!entries[2].is_bootable());
    for entry in &entries {
        assert!(!entry.is_empty());
        assert!(entry.is_valid_bootable_value());
    }
}

#[test]
fn ebr_pointer_entries_leave_out_the_pointer() {
    let image = sample_image();
    let mut disk = MappedDisk::new(&image);
    let entries = parse_boot_records(&mut disk, 0, true).unwrap();
    assert_eq!(entries.len(), 2);
    assert_eq!(entries[0].partition_type(), 0x07);
    assert_eq!(entries[1].partition_type(), 0x83);
}

#[test]
fn invalid_boot_indicator_ends_the_table() {
    let mut image = vec![0u8; 512 * 2];
    put_entry(&mut image, 0, 0, 0x00, 0x07, 63, 10);
    put_entry(&mut image, 0, 1, 0x12, 0x07, 100, 10);
    put_entry(&mut image, 0, 2, 0x80, 0x07, 200, 10);
    let mut disk = MappedDisk::new(&image);
    let entries = parse_partition_tables(&mut disk, 0).unwrap();
    assert_eq!(entries.len(), 1);
    assert_eq!(entries[0].starting_lba(), 63);
}

#[test]
fn extended_partition_cycle_is_malformed() {
    let mut image = vec![0u8; 512 * 4];
    put_entry(&mut image, 0, 0, 0x00, 0x05, 1, 10);
    put_entry(&mut image, 1, 0, 0x00, 0x05, 0, 10);
    let mut disk = MappedDisk::new(&image);
    let result = parse_partition_tables(&mut disk, 0);
    assert!(matches!(result, Err(MappedDiskError::Malformed(_))));
}

#[test]
fn extended_partition_past_the_end_is_out_of_bounds() {
    let mut image = vec![0u8; 512];
    put_entry(&mut image, 0, 0, 0x00, 0x0F, 40, 10);
    let mut disk = MappedDisk::new(&image);
    let result = parse_partition_tables(&mut disk, 0);
    assert!(matches!(result, Err(MappedDiskError::OutOfBounds(_))));
}

#[test]
fn empty_image_is_out_of_bounds() {
    let image = vec![0u8; 100];
    let mut disk = MappedDisk::new(&image);
    assert!(matches!(
        parse_partition_tables(&mut disk, 0),
        Err(MappedDiskError::OutOfBounds(_))
    ));
}

#[test]
fn chs_fields() {
    assert_eq!(MbrPartitionTableEntry::chs_head([7, 0xC5, 6]), 7);
    assert_eq!(MbrPartitionTableEntry::chs_sector([7, 0xC5, 6]), 5);
    assert_eq!(MbrPartitionTableEntry::chs_cylinder([7, 0xC5, 6]), 3 * 256 + 6);
}

#[test]
fn relative_entry_adds_the_parent_start() {
    let mut child = entry(0, 0x83, 5, 9);
    let parent = entry(0, 0x05, 100, 9);
    child.is_relative_to(&parent);
    assert_eq!(child.starting_lba(), 105);
}

#[test]
fn partition_type_names() {
    assert_eq!(lookup_partition_type(0x07), "HPFS/NTFS/exFAT");
    assert_eq!(lookup_partition_type(0xee), "GPT");
    assert_eq!(lookup_partition_type(0x83), "Linux");
    assert_eq!(lookup_partition_type(0x0d), "Unknown Partition Type");
    assert_eq!(GPT_PARTITION_TYPE, 0xee);
    assert_eq!(NTFS_MBR_PARTITION_TYPE, 0x07);
    let e = entry(0x80, 0x0b, 1, 2);
    assert_eq!(e.partition_type_str(), "W95 FAT32");
}

#[test]
fn slots_after_an_extended_entry_are_read_from_the_same_table() {
    let mut image = vec![0u8; 512 * 8];
    put_entry(&mut image, 0, 0, 0x00, 0x05, 2, 60);
    put_entry(&mut image, 0, 1, 0x80, 0x07, 2048, 100);
    put_entry(&mut image, 2, 0, 0x00, 0x83, 1, 50);
    let mut disk = MappedDisk::new(&image);
    let entries = parse_partition_tables(&mut disk, 0).unwrap();
    assert_eq!(entries.len(), 3);
    assert!(entries[0].is_extended_partition());
    assert_eq!(entries[1].partition_type(), 0x83);
    assert_eq!(entries[1].starting_lba(), 3);
    assert_eq!(entries[2].partition_type(), 0x07);
    assert_eq!(entries[2].starting_lba(), 2048);
}
