use ntfs_parser::gui::{PartitionTableEntry, ViewState};
use ntfs_parser::partition_tables::mbr::MbrPartitionTableEntry;

fn entry(bootable: u8, starting_lba: u32, num_sectors: u32) -> MbrPartitionTableEntry {
    MbrPartitionTableEntry {
        bootable,
        starting_chs: [0; 3],
        partition_type: 0x07,
        ending_chs: [0; 3],
        starting_lba,
        num_sectors,
    }
}

#[test]
fn partition_table_entry_row() {
    let e = PartitionTableEntry::from(entry(0x80, 2048, 2048));
    assert_eq!(e.starting_lba(), 2048);
    assert_eq!(e.ending_lba(), 4095);
    assert_eq!(e.number_of_sectors(), 2048);
    assert_eq!(e.partition_type_str(), "HPFS/NTFS/exFAT");
    assert_eq!(
        e.to_row(),
        vec!["true", "2048", "4095", "2048", "1.00 MiB", "HPFS/NTFS/exFAT"]
            .into_iter()
            .map(String::from)
            .collect::<Vec<_>>()
    );
    let small = PartitionTableEntry::from(entry(0, 1, 1));
    assert_eq!(small.to_row()[0], "false");
    assert_eq!(small.to_row()[4], "512 B");
}

#[test]
fn partition_table_headers() {
    let e = PartitionTableEntry::from(entry(0, 1, 1));
    assert_eq!(
        e.headers(),
        vec!["Device", "Bootable", "Starting LBA", "Ending LBA", "Total Sectors", "Size", "Partition Type"]
    );
    let state = ViewState::Partition { index: 3 };
    assert!(matches!(state, ViewState::Partition { index: 3 }));
    assert!(matches!(ViewState::PartitionTable, ViewState::PartitionTable));
}

#[test]
fn only_ntfs_partitions_give_a_starting_lba() {
    let ntfs = PartitionTableEntry::from(entry(0x80, 2048, 100));
    assert_eq!(ntfs.ntfs_starting_lba(), Some(2048));
    let mut linux = entry(0, 4096, 100);
    linux.partition_type = 0x83;
    assert_eq!(PartitionTableEntry::from(linux).ntfs_starting_lba(), None);
}

#[test]
fn mbr_table_becomes_view_entries_in_order() {
    let entries = PartitionTableEntry::from_mbr_table(vec![entry(0x80, 63, 10), entry(0, 200, 5)]);
    assert_eq!(entries.len(), 2);
    assert_eq!(entries[0].starting_lba(), 63);
    assert_eq!(entries[1].starting_lba(), 200);
    assert_eq!(entries[1].number_of_sectors(), 5);
}
