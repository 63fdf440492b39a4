# ntfs_parser

A reader for raw disk images: MBR partition tables (with their chain of extended boot
records), the Apple Partition Map, and NTFS volumes (the partition boot record, the master
file table with its update sequence fix-up, the attributes of each record, and the tree of
files that the records describe).

The library is written in Verus: each function states what it returns in its contract,
over a model of the bytes of the image, and Verus proves the code against it.

- `src/` the verified library
  - `bytes.rs`, `binary_struct.rs`: little- and big-endian integers, fixed layouts
  - `mapped_disk.rs`, `bytestream.rs`: cursors over the bytes of an image
  - `partition_tables/`, `mbr.rs`, `apm.rs`: partition tables
  - `ntfs/`: boot record, master file table, attributes, file tree
  - `guid.rs`, `text.rs`, `gui.rs`: text of identifiers, names, sizes and table rows
- `tests/` tests run against the compiled library
- `app/` a command-line program that maps an image or block device into memory and prints
  its partitions and the records of its NTFS volumes
