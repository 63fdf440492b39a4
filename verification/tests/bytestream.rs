use ntfs_parser::binary_struct::ParseError;
use ntfs_parser::bytestream::{bytes_to_u16, interpret_bytes_as_utf16, ByteStream, StreamError, SECTOR_SIZE};

fn numbered(n: usize) -> Vec<u8> {
    (0..n).map(|i| (i % 251) as u8).collect()
}

#[test]
fn stream_from_a_sector() {
    let image = numbered(4096);
    let mut stream = ByteStream::new(&image, 16, 2).unwrap();
    assert_eq!(stream.read::<u8>().unwrap(), (1024 % 251) as u8);
    assert_eq!(stream.get_byte_offset().unwrap(), 1024 + 16 + 1);
    assert_eq!(
        stream.read_le::<u16>().unwrap(),
        u16::from_le_bytes([(1025 % 251) as u8, (1026 % 251) as u8])
    );
    assert_eq!(
        stream.peek_le::<u32>().unwrap(),
        u32::from_le_bytes([(1027 % 251) as u8, (1028 % 251) as u8, (1029 % 251) as u8, (1030 % 251) as u8])
    );
    assert_eq!(
        stream.read_be::<u32>().unwrap(),
        u32::from_be_bytes([(1027 % 251) as u8, (1028 % 251) as u8, (1029 % 251) as u8, (1030 % 251) as u8])
    );
    assert_eq!(stream.read_byte_array::<2>().unwrap(), [(1031 % 251) as u8, (1032 % 251) as u8]);
    assert_eq!(stream.read_raw(3).unwrap(), vec![(1033 % 251) as u8, (1034 % 251) as u8, (1035 % 251) as u8]);
    assert_eq!(stream.read_le::<u64>(), Err(StreamError::UnexpectedEof));
}

#[test]
fn stream_past_the_image_fails() {
    let image = numbered(1000);
    assert!(matches!(ByteStream::new(&image, 512, 1), Err(StreamError::UnexpectedEof)));
    assert!(ByteStream::new(&image, 488, 1).is_ok());
}

#[test]
fn stream_from_a_byte_offset() {
    let image = numbered(4096);
    let mut stream = ByteStream::from_byte_offset(&image, 512, 1030).unwrap();
    assert_eq!(stream.read::<u8>().unwrap(), (1030 % 251) as u8);
    let mut short = ByteStream::from_byte_offset(&image, 4, 1030).unwrap();
    assert!(short.read::<u8>().is_err());
}

#[test]
fn array_of_one_value() {
    let image = numbered(512);
    let mut stream = ByteStream::new(&image, 512, 0).unwrap();
    assert_eq!(stream.read_array::<u8, 3>().unwrap(), [0, 0, 0]);
    assert_eq!(stream.read::<i8>().unwrap(), 1);
}

#[test]
fn skip_and_jump() {
    let image = numbered(2048);
    let mut stream = ByteStream::new(&image, SECTOR_SIZE, 0).unwrap();
    stream.skip_bytes(500).unwrap();
    assert_eq!(stream.read::<u8>().unwrap(), (500 % 251) as u8);
    stream.skip_bytes(10_000).unwrap();
    assert!(stream.read::<u8>().is_err());
    stream.jump_to_sector(3).unwrap();
    assert_eq!(stream.read::<u8>().unwrap(), (1536 % 251) as u8);
    assert_eq!(stream.jump_to_sector(4), Err(StreamError::UnexpectedEof));
    stream.jump_to_byte(10).unwrap();
    assert_eq!(stream.read::<u8>().unwrap(), 10);
}

#[test]
fn raw_reads_from_the_image() {
    let image = numbered(2048);
    let mut stream = ByteStream::new(&image, 8, 0).unwrap();
    let sector = stream.read_raw_sectors_from_file(1, 1).unwrap();
    assert_eq!(sector.len(), 512);
    assert_eq!(sector[0], (512 % 251) as u8);
    assert_eq!(stream.read_raw_bytes_from_file(2040, 8).unwrap().len(), 8);
    assert_eq!(stream.read_raw_bytes_from_file(2041, 8), Err(StreamError::UnexpectedEof));
    assert_eq!(stream.read::<u8>().unwrap(), 0);
}

#[test]
fn utf16_names() {
    assert_eq!(bytes_to_u16(0x34, 0x12), 0x1234);
    assert_eq!(interpret_bytes_as_utf16(&[b'$', 0, b'M', 0, b'F', 0, b'T', 0]).unwrap(), "$MFT");
    assert_eq!(interpret_bytes_as_utf16(&[]).unwrap(), "");
    assert_eq!(interpret_bytes_as_utf16(&[0x00, 0xD8]), Err(ParseError::InvalidUtf16));
}

#[test]
fn utf16_surrogate_pairs_decode_to_one_character() {
    assert_eq!(interpret_bytes_as_utf16(&[0x3D, 0xD8, 0x00, 0xDE]).unwrap(), "\u{1F600}");
    assert_eq!(interpret_bytes_as_utf16(&[0x00, 0xDE, b'a', 0]), Err(ParseError::InvalidUtf16));
    assert_eq!(interpret_bytes_as_utf16(&[0xE9, 0x00]).unwrap(), "\u{e9}");
}
