use ntfs_parser::binary_struct::BinaryParse;
use ntfs_parser::guid::Guid;
use ntfs_parser::mapped_disk::{BufferedMappedDisk, MappedDisk, MappedDiskError};
use ntfs_parser::ntfs::addressing::{Bytes, Lba, Vcn};
use ntfs_parser::ntfs::mft::{
    parse_attribute, parse_attribute_header, parse_dataruns, parse_file_attributes, parse_mft,
    patch_update_sequence, sign_extend, Attribute, AttributeHeader, DataRun, NtfsReader,
    ParsingContext, SecurityIdentifier,
};
use ntfs_parser::ntfs::pbr::{parse_pbr, validate_pbr, NtfsError};
use ntfs_parser::partition_tables::NTFS_GPT_PARTITION_TYPE;

fn boot_sector(oem: &[u8; 8], mft_size: i8) -> Vec<u8> {
    let mut s = vec![0u8; 512];
    s[3..11].copy_from_slice(oem);
    s[11..13].copy_from_slice(&512u16.to_le_bytes());
    s[13] = 1;
    s[40..48].copy_from_slice(&16u64.to_le_bytes());
    s[48..56].copy_from_slice(&2u64.to_le_bytes());
    s[56..64].copy_from_slice(&8u64.to_le_bytes());
    s[64] = mft_size as u8;
    s
}

fn standard_information_record() -> Vec<u8> {
    let mut r = vec![0u8; 1024];
    r[0..4].copy_from_slice(b"FILE");
    r[4..6].copy_from_slice(&48u16.to_le_bytes());
    r[6..8].copy_from_slice(&3u16.to_le_bytes());
    r[20..22].copy_from_slice(&56u16.to_le_bytes());
    r[48..50].copy_from_slice(&1u16.to_le_bytes());
    r[50..54].copy_from_slice(&[0xAA, 0xBB, 0xCC, 0xDD]);
    r[510..512].copy_from_slice(&1u16.to_le_bytes());
    r[1022..1024].copy_from_slice(&1u16.to_le_bytes());
    let a = 56;
    r[a..a + 4].copy_from_slice(&0x10u32.to_le_bytes());
    r[a + 4..a + 8].copy_from_slice(&72u32.to_le_bytes());
    r[a + 16..a + 20].copy_from_slice(&48u32.to_le_bytes());
    r[a + 20..a + 22].copy_from_slice(&24u16.to_le_bytes());
    let v = a + 24;
    r[v..v + 8].copy_from_slice(&111u64.to_le_bytes());
    r[v + 8..v + 16].copy_from_slice(&222u64.to_le_bytes());
    r[v + 32..v + 36].copy_from_slice(&0x20u32.to_le_bytes());
    r[a + 72..a + 76].copy_from_slice(&u32::MAX.to_le_bytes());
    r
}

fn volume() -> Vec<u8> {
    let mut image = boot_sector(b"NTFS    ", -10);
    image.resize(8192, 0);
    image[1024..2048].copy_from_slice(&standard_information_record());
    image
}

#[test]
fn boot_record_fields() {
    let image = volume();
    let mut disk = MappedDisk::new(&image);
    let pbr = parse_pbr(&mut disk, 0).unwrap();
    assert_eq!(pbr.oem_id, "NTFS    ");
    assert_eq!(pbr.sector_size(), 512);
    assert_eq!(pbr.sectors_per_cluster(), 1);
    assert_eq!(pbr.mft_size(), 1024);
    assert_eq!(pbr.number_of_sectors_in_volume(), 16);
    assert_eq!(validate_pbr(&pbr, 10), Ok(12));
}

#[test]
fn boot_record_of_another_file_system() {
    let image = boot_sector(b"MSDOS5.0", 2);
    let mut disk = MappedDisk::new(&image);
    let pbr = parse_pbr(&mut disk, 0).unwrap();
    assert_eq!(validate_pbr(&pbr, 0), Err(NtfsError::InvalidOEMId));
    assert_eq!(pbr.mft_size(), 2 * 512);
    let mut short = MappedDisk::new(&image[..60]);
    assert!(parse_pbr(&mut short, 0).is_err());
}

#[test]
fn mft_records_in_use() {
    let image = volume();
    let mut disk = MappedDisk::new(&image);
    let pbr = parse_pbr(&mut disk, 0).unwrap();
    let mut reader = NtfsReader::new(&disk, &pbr, 0);
    assert_eq!(reader.byte_offset_from_lba(3), 1536);
    assert_eq!(reader.byte_offset_from_lcn(3), 1536);
    let entries = parse_mft(&mut reader, &pbr).unwrap();
    assert_eq!(entries.len(), 1);
    assert_eq!(entries[0].record_number, 0);
    assert_eq!(entries[0].file_record.signature, "FILE");
    assert_eq!(entries[0].attributes.len(), 1);
    match &entries[0].attributes[0] {
        Attribute::StandardInfomation(si) => {
            assert_eq!(si.date_time_file_creation, 111);
            assert_eq!(si.date_time_file_modification, 222);
            assert_eq!(si.file_permissions.bits, 0x20);
        }
        other => panic!("unexpected attribute {:?}", other),
    }
}

#[test]
fn mft_of_another_file_system_is_malformed() {
    let mut image = volume();
    image[3..11].copy_from_slice(b"FAT32   ");
    let mut disk = MappedDisk::new(&image);
    let pbr = parse_pbr(&mut disk, 0).unwrap();
    let mut reader = NtfsReader::new(&disk, &pbr, 0);
    assert!(matches!(parse_mft(&mut reader, &pbr), Err(MappedDiskError::Malformed(_))));
}

#[test]
fn update_sequence_fixup() {
    let image = volume();
    let disk = MappedDisk::new(&image);
    let mut buffered = BufferedMappedDisk::new(&disk, 1024);
    buffered.fill_buffer_at(1024).unwrap();
    patch_update_sequence(&mut buffered, 512, 1, &[0xAA, 0xBB, 0xCC, 0xDD]).unwrap();
    assert_eq!(&buffered.buffer[510..512], &[0xAA, 0xBB]);
    assert_eq!(&buffered.buffer[1022..1024], &[0xCC, 0xDD]);
    assert_eq!(&buffered.buffer[0..4], b"FILE");
    let mut other = BufferedMappedDisk::new(&disk, 1024);
    other.fill_buffer_at(1024).unwrap();
    patch_update_sequence(&mut other, 512, 7, &[0xAA, 0xBB, 0xCC, 0xDD]).unwrap();
    assert_eq!(&other.buffer[510..512], &[1, 0]);
    assert!(patch_update_sequence(&mut other, 512, 1, &[0xAA]).is_err());
    assert!(patch_update_sequence(&mut other, 0, 1, &[]).is_err());
}

#[test]
fn file_attributes_until_the_end_marker() {
    let image = volume();
    let disk = MappedDisk::new(&image);
    let mut buffered = BufferedMappedDisk::new(&disk, 1024);
    buffered.fill_buffer_at(1024).unwrap();
    let attributes = parse_file_attributes(&mut buffered, 1024 + 56, ParsingContext { record_number: 0 }).unwrap();
    assert_eq!(attributes.len(), 1);
    buffered.set_cursor(1024 + 56).unwrap();
    let header = parse_attribute_header(&mut buffered).unwrap();
    assert_eq!(header.attribute_type(), 0x10);
    assert_eq!(header.total_attribute_length(), 72);
    assert_eq!(header.resident_attribute_value_length(), 48);
    assert_eq!(header.resident_attribute_offset(), Some(24));
    assert_eq!(header.name(), None);
    assert!(matches!(header, AttributeHeader::ResidentUnnamed { .. }));
    buffered.set_cursor(1024 + 56).unwrap();
    let attribute = parse_attribute(&mut buffered, &ParsingContext { record_number: 0 }).unwrap();
    assert!(matches!(attribute, Some(Attribute::StandardInfomation(_))));
    assert_eq!(buffered.current_offset(), 1024 + 128);
}

#[test]
fn data_runs() {
    let mut data = vec![0x21, 0x18, 0x34, 0x56, 0x11, 0x05, 0xF0, 0x00];
    data.resize(64, 0);
    let disk = MappedDisk::new(&data);
    let mut buffered = BufferedMappedDisk::new(&disk, 64);
    buffered.fill_buffer_at(0).unwrap();
    let runs = parse_dataruns(&mut buffered).unwrap();
    assert_eq!(
        runs,
        vec![DataRun { length: 0x18, offset: 0x5634 }, DataRun { length: 5, offset: -16 }]
    );
}

#[test]
fn signed_offsets() {
    assert_eq!(sign_extend(0xF0, 1), -16);
    assert_eq!(sign_extend(0x70, 1), 0x70);
    assert_eq!(sign_extend(0x8000, 2), -32768);
    assert_eq!(sign_extend(5, 0), 5);
}

#[test]
fn security_identifier_text() {
    let sid = [1u8, 2, 0, 0, 0, 0, 0, 5, 32, 0, 0, 0, 32, 2, 0, 0];
    assert_eq!(SecurityIdentifier::parse(&sid).unwrap().0, "S-1-5-32-544");
    assert_eq!(SecurityIdentifier::calculate_size(2), 16);
}

#[test]
fn guid_text() {
    let bytes = [0xA2, 0xA0, 0xD0, 0xEB, 0xE5, 0xB9, 0x33, 0x44, 0x87, 0xC0, 0x68, 0xB6, 0xB7, 0x26, 0x99, 0xC7];
    let guid = Guid::parse(&bytes).unwrap();
    assert_eq!(guid.to_string(), NTFS_GPT_PARTITION_TYPE);
}

#[test]
fn addresses_in_bytes() {
    assert_eq!(Lba(3).to_bytes(512), 1536);
    assert_eq!(Vcn(2).to_bytes(4096), 8192);
    assert_eq!(Lba(1) + Lba(2), Lba(3));
    assert_eq!(Vcn(1) + Vcn(2), Vcn(3));
    assert_eq!(Bytes(1) + Bytes(2), Bytes(3));
}
