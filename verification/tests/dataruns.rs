use ntfs_parser::ntfs::mft::sign_extend;

#[test]
fn test() {
    let high_nibble = 1u8;
    let offset = -10i64;
    let offset = sign_extend(offset, high_nibble);
    println!("offset: {}", offset);
    assert_eq!(offset, -10);
}

#[test]
fn sign_extend_reads_the_low_bytes_as_signed() {
    assert_eq!(sign_extend(0x80, 1), -128);
    assert_eq!(sign_extend(0x7f, 1), 127);
    assert_eq!(sign_extend(0x8000, 2), -32768);
    assert_eq!(sign_extend(0x1234, 0), 0x1234);
    assert_eq!(sign_extend(-256, 1), -256);
}
