pub mod apm;
pub mod binary_struct;
pub mod bytestream;
pub mod bytes;
pub mod gui;
pub mod guid;
pub mod mapped_disk;
pub mod mbr;
pub mod ntfs;
pub mod partition_tables;
pub mod text;
