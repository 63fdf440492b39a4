use ntfs_parser::binary_struct::{BinaryParse, ParseError, Skip};
use ntfs_parser::mapped_disk::{BufferedMappedDisk, MappedDisk, MappedDiskError, SECTOR_SIZE};

fn numbered(n: usize) -> Vec<u8> {
    (0..n).map(|i| (i % 251) as u8).collect()
}

#[test]
fn integers_parse_little_endian() {
    assert_eq!(u16::parse(&[0x34, 0x12]).unwrap(), 0x1234);
    assert_eq!(u32::parse(&[1, 2, 3, 4]).unwrap(), 0x0403_0201);
    assert_eq!(u64::parse(&[1, 0, 0, 0, 0, 0, 0, 0x80]).unwrap(), 0x8000_0000_0000_0001);
    assert_eq!(i8::parse(&[0xff]).unwrap(), -1);
    assert_eq!(<[u8; 3]>::parse(&[9, 8, 7, 6]).unwrap(), [9, 8, 7]);
    assert_eq!(u32::parse(&[1, 2, 3]), Err(ParseError::TooShort));
    let _ = Skip::<4>::default();
}

#[test]
fn reads_move_the_cursor() {
    let data = numbered(2048);
    let mut disk = MappedDisk::new(&data);
    assert_eq!(disk.len(), 2048);
    assert_eq!(disk.read_byte().unwrap(), 0);
    assert_eq!(disk.peek_byte().unwrap(), 1);
    assert_eq!(disk.current_offset(), 1);
    assert_eq!(disk.read::<u16>().unwrap(), 0x0201);
    assert_eq!(disk.peek::<u16>().unwrap(), 0x0403);
    assert_eq!(disk.current_offset(), 3);
    assert_eq!(disk.read_bytes(4).unwrap(), &[3, 4, 5, 6]);
    disk.set_cursor_relative(10).unwrap();
    assert_eq!(disk.current_offset(), 17);
    disk.set_cursor_from_lba(2).unwrap();
    assert_eq!(disk.current_offset(), 2 * SECTOR_SIZE);
    assert_eq!(disk.read_with_size::<u8>(1).unwrap(), (1024 % 251) as u8);
}

#[test]
fn reads_at_an_offset_leave_the_cursor() {
    let data = numbered(2048);
    let mut disk = MappedDisk::new(&data);
    disk.set_cursor(7).unwrap();
    assert_eq!(disk.read_bytes_at(10, 2).unwrap(), &[10, 11]);
    assert_eq!(disk.read_sectors_at(1, 1).unwrap().len(), 512);
    let sectors = disk.read_bytes_starting_at_sector(1, 2).unwrap();
    assert_eq!(sectors.len(), 2 * SECTOR_SIZE);
    assert_eq!(sectors[0], (512 % 251) as u8);
    assert_eq!(sectors[1023], (1535 % 251) as u8);
    assert_eq!(disk.read_bytes_starting_at_sector(3, 2), Err(MappedDiskError::OutOfBounds(1536)));
    assert_eq!(disk.current_offset(), 7);
}

#[test]
fn reads_past_the_end_fail() {
    let data = numbered(16);
    let mut disk = MappedDisk::new(&data);
    assert_eq!(disk.read_bytes_at(10, 7), Err(MappedDiskError::OutOfBounds(10)));
    assert_eq!(disk.set_cursor(17), Err(MappedDiskError::OutOfBounds(17)));
    disk.set_cursor(16).unwrap();
    assert!(disk.read_byte().is_err());
    assert!(disk.peek_byte().is_err());
    assert!(disk.read::<u32>().is_err());
    assert_eq!(disk.current_offset(), 16);
}

#[test]
fn text_reads() {
    let mut data = b"NTFS".to_vec();
    data.extend_from_slice(&[b'$', 0, b'O', 0]);
    data.extend_from_slice(&[0xff, 0xfe]);
    let mut disk = MappedDisk::new(&data);
    assert_eq!(disk.read_string_utf8(4).unwrap(), "NTFS");
    assert_eq!(disk.read_string_utf16(4).unwrap(), "$O");
    assert!(matches!(disk.read_string_utf8(2), Err(MappedDiskError::Malformed(_))));
}

#[test]
fn buffered_window_reads() {
    let data = numbered(4096);
    let disk = MappedDisk::new(&data);
    let mut buffered = BufferedMappedDisk::new(&disk, 1024);
    buffered.fill_buffer_at(1024).unwrap();
    assert_eq!(buffered.window_size(), 1024);
    buffered.set_cursor(1024 + 5).unwrap();
    assert_eq!(buffered.current_offset(), 1024 + 5);
    assert_eq!(buffered.read::<u8>().unwrap(), (1029 % 251) as u8);
    assert_eq!(buffered.peek::<u8>().unwrap(), (1030 % 251) as u8);
    assert_eq!(buffered.read_bytes(2).unwrap(), &[(1030 % 251) as u8, (1031 % 251) as u8]);
    buffered.set_cursor_relative(3).unwrap();
    assert_eq!(buffered.current_offset(), 1024 + 11);
    assert_eq!(buffered.read_bytes_at(0, 1).unwrap(), &[(1024 % 251) as u8]);
    assert_eq!(buffered.read_with_size::<u16>(2).unwrap(), u16::from_le_bytes([(1035 % 251) as u8, (1036 % 251) as u8]));
    assert!(buffered.read_bytes_at(1020, 5).is_err());
    assert_eq!(buffered.fill_buffer_at(4000), Err(MappedDiskError::OutOfBounds(4000)));
}

#[test]
fn buffered_cursor_wraps_at_the_window_size() {
    let data = numbered(4096);
    let disk = MappedDisk::new(&data);
    let mut buffered = BufferedMappedDisk::new(&disk, 1000);
    buffered.fill_buffer_at(0).unwrap();
    buffered.set_cursor(2005).unwrap();
    assert_eq!(buffered.read::<u8>().unwrap(), 5);
}
