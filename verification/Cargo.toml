[package]
name = "ntfs_parser"
version = "0.1.0"
edition = "2021"
publish = false

[dependencies]
byteorder = "1"
memmap2 = "0.9"
libc = "0.2"
thiserror = "2"
byte-unit = "5"
