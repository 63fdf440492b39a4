//! The NTFS file system: boot record, master file table and directory tree.
pub mod addressing;
pub mod mft;
pub mod pbr;
pub mod tree;
