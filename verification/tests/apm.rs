use ntfs_parser::apm::{is_apm_disk, parse_apm};
use ntfs_parser::bytestream::StreamError;

#[test]
fn apm_signature() {
    let mut image = vec![0u8; 2048];
    image[0] = b'E';
    image[1] = b'R';
    assert_eq!(is_apm_disk(&image), Ok(true));
    image[1] = b'Q';
    assert_eq!(is_apm_disk(&image), Ok(false));
    image[0] = 0xff;
    assert_eq!(is_apm_disk(&image), Err(StreamError::InvalidData));
    assert_eq!(is_apm_disk(&image[..100]), Err(StreamError::UnexpectedEof));
}

#[test]
fn apm_entries_run_past_the_block() {
    let mut image = vec![0u8; 4096];
    for entry in 0..3 {
        let o = 512 + 136 * entry;
        image[o] = b'P';
        image[o + 1] = b'M';
    }
    assert_eq!(parse_apm(&image).unwrap_err(), StreamError::UnexpectedEof);
    image[512 + 16] = 0xff;
    assert_eq!(parse_apm(&image).unwrap_err(), StreamError::InvalidData);
    assert_eq!(parse_apm(&image[..600]).unwrap_err(), StreamError::UnexpectedEof);
}

#[test]
fn apm_fourth_entry_text_is_checked_before_the_block_ends() {
    let mut image = vec![0u8; 1024];
    assert_eq!(parse_apm(&image).unwrap_err(), StreamError::UnexpectedEof);
    image[512 + 408 + 48] = 0xc3;
    assert_eq!(parse_apm(&image).unwrap_err(), StreamError::InvalidData);
}
