use ntfs_parser::bytestream::StreamError;
use ntfs_parser::mbr::{
    format_partition_table_rows, lookup_partition_type, parse_mbr, MbrPartitionTableEntry,
    MbrPartitionTableEntryNode, GPT_PARTITION_TYPE,
};

fn put_entry(image: &mut [u8], sector: usize, slot: usize, bootable: u8, kind: u8, lba: u32, n: u32) {
    let o = sector * 512 + 446 + slot * 16;
    image[o] = bootable;
    image[o + 1] = 1;
    image[o + 2] = 2;
    image[o + 3] = 3;
    image[o + 4] = kind;
    image[o + 5] = 4;
    image[o + 6] = 0xC5;
    image[o + 7] = 6;
    image[o + 8..o + 12].copy_from_slice(&lba.to_le_bytes());
    image[o + 12..o + 16].copy_from_slice(&n.to_le_bytes());
}

fn sample_image() -> Vec<u8> {
    let mut image = vec![0u8; 512 * 8];
    put_entry(&mut image, 0, 0, 0x80, 0x07, 2048, 100);
    put_entry(&mut image, 0, 1, 0x00, 0x05, 2, 60);
    put_entry(&mut image, 2, 0, 0x00, 0x83, 1, 50);
    image
}

fn row(cells: &[&str]) -> Vec<String> {
    cells.iter().map(|c| c.to_string()).collect()
}

#[test]
fn mbr_tree_with_extended_partition() {
    let image = sample_image();
    let root = parse_mbr(&image).unwrap();
    assert!(root.partition_table_entry.is_none());
    assert_eq!(root.starting_lba(), 0);
    assert!(!root.is_gpt());
    let children = root.children.as_ref().unwrap();
    assert_eq!(children.len(), 2);
    assert_eq!(children[0].starting_lba(), 2048);
    assert!(children[0].children.is_none());
    assert!(children[1].is_extended_partition());
    let logical = children[1].children.as_ref().unwrap();
    assert_eq!(logical.len(), 1);
    assert_eq!(logical[0].image_offset_sectors, 2);
    assert_eq!(logical[0].starting_lba(), 1);
}

#[test]
fn partition_listing_rows() {
    let image = sample_image();
    let root = parse_mbr(&image).unwrap();
    let rows = format_partition_table_rows(root, true);
    assert_eq!(
        rows,
        vec![
            row(&["Yes", "2048", "2147", "100", "0x07 :: HPFS/NTFS/exFAT"]),
            row(&["No", "2", "61", "60", "0x05 :: Extended"]),
            row(&["No", "3", "52", "50", "0x83 :: Linux"]),
        ]
    );
}

#[test]
fn table_row_with_chs() {
    let entry = MbrPartitionTableEntry {
        bootable: 0x80,
        starting_chs: [1, 2, 3],
        partition_type: 0x07,
        ending_chs: [4, 0xC5, 6],
        lba_start: 2048,
        num_sectors: 100,
    };
    assert_eq!(
        entry.table_row(0, true),
        row(&["Yes", "2048", "(3, 1, 2)", "2147", "(774, 4, 5)", "100", "0x07 :: HPFS/NTFS/exFAT"])
    );
    assert_eq!(entry.parse_starting_chs(), (3, 1, 2));
    assert_eq!(entry.parse_ending_chs(), (774, 4, 5));
    assert!(!entry.is_empty());
    assert_eq!(entry.num_sectors(), 100);
    let node = MbrPartitionTableEntryNode::new(entry, 5);
    assert_eq!(
        node.create_row(false),
        row(&["Yes", "2053", "2152", "100", "0x07 :: HPFS/NTFS/exFAT"])
    );
}

#[test]
fn gpt_protective_entry() {
    let mut image = vec![0u8; 1024];
    put_entry(&mut image, 0, 0, 0x00, GPT_PARTITION_TYPE, 1, 1000);
    let root = parse_mbr(&image).unwrap();
    assert!(root.is_gpt());
    assert_eq!(lookup_partition_type(GPT_PARTITION_TYPE), "GPT");
}

#[test]
fn add_child_appends() {
    let mut root = MbrPartitionTableEntryNode::default();
    let entry = MbrPartitionTableEntry {
        bootable: 0,
        starting_chs: [0; 3],
        partition_type: 0x83,
        ending_chs: [0; 3],
        lba_start: 9,
        num_sectors: 1,
    };
    root.add_child(MbrPartitionTableEntryNode::new(entry, 0));
    root.add_child(MbrPartitionTableEntryNode::new(entry, 1));
    assert_eq!(root.children.as_ref().unwrap().len(), 2);
    assert_eq!(root.children.as_ref().unwrap()[1].image_offset_sectors, 1);
}

#[test]
fn ebr_cycle_is_invalid() {
    let mut image = vec![0u8; 512 * 4];
    put_entry(&mut image, 0, 0, 0x00, 0x05, 1, 10);
    put_entry(&mut image, 1, 0, 0x00, 0x05, 0, 10);
    assert!(matches!(parse_mbr(&image), Err(StreamError::InvalidData)));
}

#[test]
fn short_image_fails() {
    assert!(matches!(parse_mbr(&[0u8; 100]), Err(StreamError::UnexpectedEof)));
    let mut image = vec![0u8; 512];
    put_entry(&mut image, 0, 0, 0x00, 0x05, 3, 10);
    assert!(matches!(parse_mbr(&image), Err(StreamError::UnexpectedEof)));
}

#[test]
fn invalid_boot_indicators_end_the_table() {
    for bootable in [0x01u8, 0x7F] {
        let mut image = vec![0u8; 512 * 4];
        put_entry(&mut image, 0, 0, 0x80, 0x07, 2048, 100);
        put_entry(&mut image, 0, 1, bootable, 0x07, 4096, 100);
        put_entry(&mut image, 0, 2, 0x00, 0x07, 8192, 100);
        let root = parse_mbr(&image).unwrap();
        assert_eq!(root.children.as_ref().unwrap().len(), 1);
    }
}

#[test]
fn boot_indicators_above_0x80_are_kept() {
    let mut image = vec![0u8; 512 * 4];
    put_entry(&mut image, 0, 0, 0x80, 0x07, 2048, 100);
    put_entry(&mut image, 0, 1, 0x81, 0x07, 4096, 100);
    put_entry(&mut image, 0, 2, 0xFF, 0x07, 8192, 100);
    let root = parse_mbr(&image).unwrap();
    assert_eq!(root.children.as_ref().unwrap().len(), 3);
}

#[test]
fn mbr_slots_after_an_extended_entry_are_read_from_the_mbr() {
    let mut image = vec![0u8; 512 * 8];
    put_entry(&mut image, 0, 0, 0x00, 0x05, 2, 60);
    put_entry(&mut image, 0, 1, 0x80, 0x07, 2048, 100);
    put_entry(&mut image, 2, 0, 0x00, 0x83, 1, 50);
    let root = parse_mbr(&image).unwrap();
    let children = root.children.as_ref().unwrap();
    assert_eq!(children.len(), 2);
    assert!(children[0].is_extended_partition());
    assert_eq!(children[0].children.as_ref().unwrap().len(), 1);
    assert_eq!(children[1].starting_lba(), 2048);
}
