use ntfs_parser::mapped_disk::{BufferedMappedDisk, MappedDisk, MappedDiskError};
use ntfs_parser::ntfs::mft::{parse_attribute, Attribute, DataRun, IndexEntry, ParsingContext};

fn utf16(text: &str) -> Vec<u8> {
    text.encode_utf16().flat_map(|u| u.to_le_bytes()).collect()
}

/// A resident attribute of type `kind` with name `name`, holding `value`.
fn resident(kind: u32, name: &str, value: &[u8]) -> Vec<u8> {
    let name = utf16(name);
    let value_offset = 24 + name.len();
    let mut length = value_offset + value.len();
    length += (8 - length % 8) % 8;
    let mut a = vec![0u8; length];
    a[0..4].copy_from_slice(&kind.to_le_bytes());
    a[4..8].copy_from_slice(&(length as u32).to_le_bytes());
    a[9] = (name.len() / 2) as u8;
    a[10..12].copy_from_slice(&24u16.to_le_bytes());
    a[16..20].copy_from_slice(&(value.len() as u32).to_le_bytes());
    a[20..22].copy_from_slice(&(value_offset as u16).to_le_bytes());
    a[24..24 + name.len()].copy_from_slice(&name);
    a[value_offset..value_offset + value.len()].copy_from_slice(value);
    a
}

/// Reads the attribute `attribute` from a window of 1024 bytes that starts with it.
fn read(attribute: &[u8], record_number: usize) -> (Result<Option<Attribute>, MappedDiskError>, usize) {
    let mut data = attribute.to_vec();
    data.resize(1024, 0);
    let disk = MappedDisk::new(&data);
    let mut buffered = BufferedMappedDisk::new(&disk, 1024);
    buffered.fill_buffer_at(0).unwrap();
    let result = parse_attribute(&mut buffered, &ParsingContext { record_number });
    let end = buffered.current_offset();
    (result, end)
}

#[test]
fn file_name_attribute() {
    let mut value = vec![0u8; 66];
    value[0..6].copy_from_slice(&[5, 0, 0, 0, 0, 0]);
    value[6..8].copy_from_slice(&5u16.to_le_bytes());
    value[48..56].copy_from_slice(&1234u64.to_le_bytes());
    value[64] = 5;
    value[65] = 1;
    value.extend_from_slice(&utf16("a.txt"));
    let attribute = resident(0x30, "", &value);
    let (result, end) = read(&attribute, 0);
    match result.unwrap() {
        Some(Attribute::FileName(name)) => {
            assert_eq!(name.name, "a.txt");
            assert_eq!(name.real_file_size, 1234);
            assert_eq!(name.reference_to_parent_dir.record_index, 5);
            assert_eq!(name.reference_to_parent_dir.sequence_number, 5);
        }
        other => panic!("unexpected {:?}", other),
    }
    assert_eq!(end, attribute.len());
}

#[test]
fn volume_name_attribute() {
    let attribute = resident(0x60, "", &utf16("Data"));
    let (result, end) = read(&attribute, 3);
    assert!(matches!(result.unwrap(), Some(Attribute::VolumeName(name)) if name == "Data"));
    assert_eq!(end, attribute.len());
    let empty = resident(0x60, "", &[]);
    assert!(matches!(read(&empty, 3).0.unwrap(), Some(Attribute::VolumeName(name)) if name.is_empty()));
}

#[test]
fn non_resident_data_runs() {
    let mut a = vec![0u8; 72];
    a[0..4].copy_from_slice(&0x80u32.to_le_bytes());
    a[4..8].copy_from_slice(&72u32.to_le_bytes());
    a[8] = 1;
    a[64..68].copy_from_slice(&[0x21, 0x10, 0x00, 0x01]);
    let (result, end) = read(&a, 0);
    match result.unwrap() {
        Some(Attribute::Data(runs)) => assert_eq!(runs, vec![DataRun { length: 0x10, offset: 0x100 }]),
        other => panic!("unexpected {:?}", other),
    }
    assert_eq!(end, 72);
}

#[test]
fn unknown_and_unsupported_types() {
    let unknown = resident(0x99, "", &[1, 2, 3, 4]);
    let (result, end) = read(&unknown, 0);
    assert!(result.unwrap().is_none());
    assert_eq!(end, unknown.len());
    let list = resident(0x20, "", &[0; 8]);
    assert!(matches!(read(&list, 0).0, Err(MappedDiskError::Malformed(_))));
    let logged = resident(0x100, "", &[0; 8]);
    let (result, end) = read(&logged, 0);
    assert!(result.unwrap().is_none());
    assert_eq!(end, logged.len());
}

#[test]
fn security_index_root() {
    let mut value = vec![0u8; 32];
    let mut entry = vec![0u8; 40];
    entry[8..10].copy_from_slice(&40u16.to_le_bytes());
    entry[16..20].copy_from_slice(&0x100u32.to_le_bytes());
    entry[20..24].copy_from_slice(&0xABCDu32.to_le_bytes());
    entry[24..28].copy_from_slice(&0x100u32.to_le_bytes());
    value.extend_from_slice(&entry);
    let mut last = vec![0u8; 16];
    last[8..10].copy_from_slice(&16u16.to_le_bytes());
    last[12] = 2;
    value.extend_from_slice(&last);
    value.extend_from_slice(&[0u8; 16]);
    let attribute = resident(0x90, "$SII", &value);
    let (result, end) = read(&attribute, 9);
    assert_eq!(end, attribute.len());
    match result.unwrap() {
        Some(Attribute::IndexRoot(entries)) => {
            assert_eq!(entries.len(), 1);
            match &entries[0] {
                IndexEntry::Sii { key, value } => {
                    assert_eq!(key.security_id, 0x100);
                    assert_eq!(value.hash, 0xABCD);
                    assert_eq!(value.security_id, 0x100);
                }
                other => panic!("unexpected {:?}", other),
            }
        }
        other => panic!("unexpected {:?}", other),
    }
}

#[test]
fn index_root_of_an_unknown_index_is_malformed() {
    let mut value = vec![0u8; 32];
    let mut entry = vec![0u8; 40];
    entry[8..10].copy_from_slice(&40u16.to_le_bytes());
    value.extend_from_slice(&entry);
    let attribute = resident(0x90, "$ZZZ", &value);
    assert!(matches!(read(&attribute, 0).0, Err(MappedDiskError::Malformed(_))));
    let unnamed = resident(0x90, "", &value);
    assert!(matches!(read(&unnamed, 0).0, Err(MappedDiskError::Malformed(_))));
}

#[test]
fn extended_attributes() {
    let mut value = vec![0u8; 8];
    value[0..4].copy_from_slice(&16u32.to_le_bytes());
    value[5] = 2;
    value[6..8].copy_from_slice(&3u16.to_le_bytes());
    value.extend_from_slice(b"ab");
    value.extend_from_slice(&[7, 8, 9]);
    value.resize(16, 0);
    value.extend_from_slice(&[0; 8]);
    let attribute = resident(0xE0, "", &value);
    let (result, end) = read(&attribute, 0);
    match result.unwrap() {
        Some(Attribute::ExtendedAttributes(eas)) => {
            assert_eq!(eas.len(), 1);
            assert_eq!(eas[0].name, "ab");
            assert_eq!(eas[0].value, vec![7, 8, 9]);
        }
        other => panic!("unexpected {:?}", other),
    }
    assert_eq!(end, attribute.len());
}

#[test]
fn ea_information_leaves_the_cursor_on_the_next_attribute() {
    let attribute = resident(0xD0, "", &[8, 0, 1, 0, 16, 0, 0, 0, 0, 0, 0, 0]);
    let (result, end) = read(&attribute, 0);
    assert!(matches!(result.unwrap(), Some(Attribute::EAInformation(_))));
    assert_eq!(end, attribute.len());
}
