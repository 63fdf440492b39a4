//! Master and extended boot records: the partition tables of an MBR disk.
use vstd::prelude::*;

use crate::binary_struct::{BinaryParse, BinarySize, ParseError};
use crate::bytes::{le_at, lemma_le_nat_bound, lemma_pow256_values, read_le_uint};
use crate::mapped_disk::{MappedDisk, MappedDiskError, MappedDiskResult, SECTOR_SIZE, spec_read_at};
use crate::partition_tables::BOOTSTRAPER_LENGTH;

verus! {

/// The signature that ends a boot record.
pub const BOOT_SIGNATURE: [u8; 2] = [0x55, 0xAA];

/// Size in bytes of one partition table entry.
pub const ENTRY_SIZE: usize = 16;

/// One of the four entries of an MBR or EBR partition table.
#[derive(Debug, Clone, Copy, PartialEq, Eq)]
pub struct MbrPartitionTableEntry {
    pub bootable: u8,
    pub starting_chs: [u8; 3],
    pub partition_type: u8,
    pub ending_chs: [u8; 3],
    pub starting_lba: u32,
    pub num_sectors: u32,
}

/// The partition table entry stored in the 16 bytes of `b` at `o`.
pub open spec fn spec_entry_at(b: Seq<u8>, o: int) -> MbrPartitionTableEntry {
    MbrPartitionTableEntry {
        bootable: b[o],
        starting_chs: [b[o + 1], b[o + 2], b[o + 3]],
        partition_type: b[o + 4],
        ending_chs: [b[o + 5], b[o + 6], b[o + 7]],
        starting_lba: le_at(b, o + 8, 4) as u32,
        num_sectors: le_at(b, o + 12, 4) as u32,
    }
}

impl View for MbrPartitionTableEntry {
    type V = MbrPartitionTableEntry;

    open spec fn view(&self) -> MbrPartitionTableEntry {
        *self
    }
}

impl BinarySize for MbrPartitionTableEntry {
    const SIZE: usize = 16;
}

impl BinaryParse for MbrPartitionTableEntry {
    open spec fn spec_parse(input: Seq<u8>) -> Option<MbrPartitionTableEntry> {
        if input.len() < 16 {
            None
        } else {
            Some(spec_entry_at(input, 0))
        }
    }

    fn parse(input: &[u8]) -> (res: Result<MbrPartitionTableEntry, ParseError>) {
        if input.len() < 16 {
            return Err(ParseError::TooShort);
        }
        let starting_lba = read_le_uint(input, 8, 4);
        let num_sectors = read_le_uint(input, 12, 4);
        proof {
            lemma_le_nat_bound(input@.subrange(8, 12));
            lemma_le_nat_bound(input@.subrange(12, 16));
            lemma_pow256_values();
        }
        Ok(
            MbrPartitionTableEntry {
                bootable: input[0],
                starting_chs: [input[1], input[2], input[3]],
                partition_type: input[4],
                ending_chs: [input[5], input[6], input[7]],
                starting_lba: starting_lba as u32,
                num_sectors: num_sectors as u32,
            },
        )
    }
}

impl MbrPartitionTableEntry {
    /// Extended partitions hold a chain of further boot records.
    pub open spec fn spec_is_extended_partition(self) -> bool {
        self.partition_type == 0x05 || self.partition_type == 0x0F
    }

    /// An unused slot: every byte of the entry is zero.
    pub open spec fn spec_is_empty(self) -> bool {
        &&& self.bootable == 0
        &&& self.starting_chs@ == seq![0u8, 0u8, 0u8]
        &&& self.partition_type == 0
        &&& self.ending_chs@ == seq![0u8, 0u8, 0u8]
        &&& self.starting_lba == 0
        &&& self.num_sectors == 0
    }

    /// The boot indicator is `0x80` (active) or `0x00` (inactive).
    pub open spec fn spec_is_valid_bootable_value(self) -> bool {
        self.bootable == 0x80 || self.bootable == 0x00
    }

    /// Whether the entry points to an extended boot record (type `0x05` or `0x0F`).
    pub fn is_extended_partition(&self) -> (res: bool)
        ensures
            res == self.spec_is_extended_partition(),
    {
        self.partition_type == 0x05 || self.partition_type == 0x0F
    }

    /// Whether every field of the entry is zero, so that it describes no partition.
    pub fn is_empty(&self) -> (res: bool)
        ensures
            res == self.spec_is_empty(),
    {
        let res = self.bootable == 0 && self.starting_chs[0] == 0 && self.starting_chs[1] == 0
            && self.starting_chs[2] == 0 && self.partition_type == 0 && self.ending_chs[0] == 0
            && self.ending_chs[1] == 0 && self.ending_chs[2] == 0 && self.starting_lba == 0
            && self.num_sectors == 0;
        proof {
            if res {
                assert(self.starting_chs@ =~= seq![0u8, 0u8, 0u8]);
                assert(self.ending_chs@ =~= seq![0u8, 0u8, 0u8]);
            }
            if self.spec_is_empty() {
                assert(self.starting_chs@[0] == 0 && self.starting_chs@[1] == 0
                    && self.starting_chs@[2] == 0);
                assert(self.ending_chs@[0] == 0 && self.ending_chs@[1] == 0 && self.ending_chs@[2]
                    == 0);
            }
        }
        res
    }

    /// Make the starting LBA of an entry of an extended boot record absolute, by adding the
    /// starting LBA of the entry that points to that record.
    pub fn is_relative_to(&mut self, parent_entry: &MbrPartitionTableEntry)
        requires
            old(self).starting_lba + parent_entry.starting_lba <= u32::MAX,
        ensures
            *final(self) == (MbrPartitionTableEntry {
                starting_lba: (old(self).starting_lba + parent_entry.starting_lba) as u32,
                ..*old(self)
            }),
    {
        self.starting_lba = self.starting_lba + parent_entry.starting_lba;
    }

    /// Whether the entry is marked active.
    pub fn is_bootable(&self) -> (res: bool)
        ensures
            res == (self.bootable == 0x80),
    {
        self.bootable == 0x80
    }

    /// Whether the boot indicator holds one of its two allowed values.
    pub fn is_valid_bootable_value(&self) -> (res: bool)
        ensures
            res == self.spec_is_valid_bootable_value(),
    {
        (self.bootable == 0x80 || self.bootable == 0x00) && !(0x01 <= self.bootable
            && self.bootable < 0x7F)
    }

    /// The first sector of the partition.
    pub fn starting_lba(&self) -> (lba: usize)
        ensures
            lba == self.starting_lba,
    {
        self.starting_lba as usize
    }

    /// The partition type byte.
    pub fn partition_type(&self) -> (t: u8)
        ensures
            t == self.partition_type,
    {
        self.partition_type
    }

    /// The name of the partition type.
    pub fn partition_type_str(&self) -> (name: &'static str)
        ensures
            name@ == spec_partition_type_name(self.partition_type),
    {
        lookup_partition_type(self.partition_type)
    }

    /// The number of sectors in the partition.
    pub fn num_sectors(&self) -> (n: u32)
        ensures
            n == self.num_sectors,
    {
        self.num_sectors
    }

    /// The head of a packed CHS address.
    pub fn chs_head(chs: [u8; 3]) -> (head: u8)
        ensures
            head == chs@[0],
    {
        chs[0]
    }

    /// The sector of a packed CHS address: the low six bits of its second byte.
    pub fn chs_sector(chs: [u8; 3]) -> (sector: u8)
        ensures
            sector == chs@[1] % 64,
            sector < 64,
    {
        let b = chs[1];
        assert(b & 0x3f == b % 64 && b & 0x3f < 64) by (bit_vector);
        b & 0x3f
    }

    /// The cylinder of a packed CHS address: the two high bits of its second byte above
    /// the eight bits of its third.
    pub fn chs_cylinder(chs: [u8; 3]) -> (cylinder: u16)
        ensures
            cylinder == (chs@[1] / 64) * 256 + chs@[2],
            cylinder < 1024,
    {
        let b1 = chs[1];
        let b2 = chs[2];
        assert((((b1 as u16) & 0b11000000u16) << 2u16) | (b2 as u16) == (b1 / 64) as u16 * 256
            + b2 as u16) by (bit_vector);
        (((b1 as u16) & 0b11000000u16) << 2u16) | (b2 as u16)
    }
}

/// The name of an MBR partition type, as the partition tools list it.
pub open spec fn spec_partition_type_name(partition_type: u8) -> Seq<char> {
    if partition_type == 0x0 {
        "Empty"@
    } else if partition_type == 0x1 {
        "FAT12"@
    } else if partition_type == 0x2 {
        "XENIX root"@
    } else if partition_type == 0x3 {
        "XENIX usr"@
    } else if partition_type == 0x4 {
        "FAT16 <32M"@
    } else if partition_type == 0x5 {
        "Extended"@
    } else if partition_type == 0x6 {
        "FAT16"@
    } else if partition_type == 0x7 {
        "HPFS/NTFS/exFAT"@
    } else if partition_type == 0x8 {
        "AIX"@
    } else if partition_type == 0x9 {
        "AIX bootable"@
    } else if partition_type == 0xa {
        "OS/2 Boot Manag"@
    } else if partition_type == 0xb {
        "W95 FAT32"@
    } else if partition_type == 0xc {
        "W95 FAT32 (LBA)"@
    } else if partition_type == 0xe {
        "W95 FAT16 (LBA)"@
    } else if partition_type == 0xf {
        "W95 Ext'd (LBA)"@
    } else if partition_type == 0x10 {
        "OPUS"@
    } else if partition_type == 0x11 {
        "Hidden FAT12"@
    } else if partition_type == 0x12 {
        "Compaq diagnost"@
    } else if partition_type == 0x14 {
        "Hidden FAT16 <3"@
    } else if partition_type == 0x16 {
        "Hidden FAT16"@
    } else if partition_type == 0x17 {
        "Hidden HPFS/NTF"@
    } else if partition_type == 0x18 {
        "AST SmartSleep"@
    } else if partition_type == 0x1b {
        "Hidden W95 FAT3"@
    } else if partition_type == 0x1c {
        "Hidden W95 FAT3"@
    } else if partition_type == 0x1e {
        "Hidden W95 FAT1"@
    } else if partition_type == 0x24 {
        "NEC DOS"@
    } else if partition_type == 0x27 {
        "Hidden NTFS Win"@
    } else if partition_type == 0x39 {
        "Plan 9"@
    } else if partition_type == 0x3c {
        "PartitionMagic"@
    } else if partition_type == 0x40 {
        "Venix 80286"@
    } else if partition_type == 0x41 {
        "PPC PReP Boot"@
    } else if partition_type == 0x42 {
        "SFS"@
    } else if partition_type == 0x4d {
        "QNX4.x"@
    } else if partition_type == 0x4e {
        "QNX4.x 2nd part"@
    } else if partition_type == 0x4f {
        "QNX4.x 3rd part"@
    } else if partition_type == 0x50 {
        "OnTrack DM"@
    } else if partition_type == 0x51 {
        "OnTrack DM6 Aux"@
    } else if partition_type == 0x52 {
        "CP/M"@
    } else if partition_type == 0x53 {
        "OnTrack DM6 Aux"@
    } else if partition_type == 0x54 {
        "OnTrackDM6"@
    } else if partition_type == 0x55 {
        "EZ-Drive"@
    } else if partition_type == 0x56 {
        "Golden Bow"@
    } else if partition_type == 0x5c {
        "Priam Edisk"@
    } else if partition_type == 0x61 {
        "SpeedStor"@
    } else if partition_type == 0x63 {
        "GNU HURD or Sys"@
    } else if partition_type == 0x64 {
        "Novell Netware"@
    } else if partition_type == 0x65 {
        "Novell Netware"@
    } else if partition_type == 0x70 {
        "DiskSecure Mult"@
    } else if partition_type == 0x75 {
        "PC/IX"@
    } else if partition_type == 0x80 {
        "Old Minix"@
    } else if partition_type == 0x81 {
        "Minix / old Lin"@
    } else if partition_type == 0x82 {
        "Linux swap / So"@
    } else if partition_type == 0x83 {
        "Linux"@
    } else if partition_type == 0x84 {
        "OS/2 hidden or"@
    } else if partition_type == 0x85 {
        "Linux extended"@
    } else if partition_type == 0x86 {
        "NTFS volume set"@
    } else if partition_type == 0x87 {
        "NTFS volume set"@
    } else if partition_type == 0x88 {
        "Linux plaintext"@
    } else if partition_type == 0x8e {
        "Linux LVM"@
    } else if partition_type == 0x93 {
        "Amoeba"@
    } else if partition_type == 0x94 {
        "Amoeba BBT"@
    } else if partition_type == 0x9f {
        "BSD/OS"@
    } else if partition_type == 0xa0 {
        "IBM Thinkpad hi"@
    } else if partition_type == 0xa5 {
        "FreeBSD"@
    } else if partition_type == 0xa6 {
        "OpenBSD"@
    } else if partition_type == 0xa7 {
        "NeXTSTEP"@
    } else if partition_type == 0xa8 {
        "Darwin UFS"@
    } else if partition_type == 0xa9 {
        "NetBSD"@
    } else if partition_type == 0xab {
        "Darwin boot"@
    } else if partition_type == 0xaf {
        "HFS / HFS+"@
    } else if partition_type == 0xb7 {
        "BSDI fs"@
    } else if partition_type == 0xb8 {
        "BSDI swap"@
    } else if partition_type == 0xbb {
        "Boot Wizard hid"@
    } else if partition_type == 0xbc {
        "Acronis FAT32 L"@
    } else if partition_type == 0xbe {
        "Solaris boot"@
    } else if partition_type == 0xbf {
        "Solaris"@
    } else if partition_type == 0xc1 {
        "DRDOS/sec (FAT-"@
    } else if partition_type == 0xc4 {
        "DRDOS/sec (FAT-"@
    } else if partition_type == 0xc6 {
        "DRDOS/sec (FAT-"@
    } else if partition_type == 0xc7 {
        "Syrinx"@
    } else if partition_type == 0xda {
        "Non-FS data"@
    } else if partition_type == 0xdb {
        "CP/M / CTOS / ."@
    } else if partition_type == 0xde {
        "Dell Utility"@
    } else if partition_type == 0xdf {
        "BootIt"@
    } else if partition_type == 0xe1 {
        "DOS access"@
    } else if partition_type == 0xe3 {
        "DOS R/O"@
    } else if partition_type == 0xe4 {
        "SpeedStor"@
    } else if partition_type == 0xea {
        "Rufus alignment"@
    } else if partition_type == 0xeb {
        "BeOS fs"@
    } else if partition_type == 0xee {
        "GPT"@
    } else if partition_type == 0xef {
        "EFI (FAT-12/16/"@
    } else if partition_type == 0xf0 {
        "Linux/PA-RISC b"@
    } else if partition_type == 0xf1 {
        "SpeedStor"@
    } else if partition_type == 0xf4 {
        "SpeedStor"@
    } else if partition_type == 0xf2 {
        "DOS secondary"@
    } else if partition_type == 0xfb {
        "VMware VMFS"@
    } else if partition_type == 0xfc {
        "VMware VMKCORE"@
    } else if partition_type == 0xfd {
        "Linux raid auto"@
    } else if partition_type == 0xfe {
        "LANstep"@
    } else if partition_type == 0xff {
        "BBT"@
    } else {
        "Unknown Partition Type"@
    }
}

/// The name of an MBR partition type; `"Unknown Partition Type"` for a type without one.
pub fn lookup_partition_type(partition_type: u8) -> (name: &'static str)
    ensures
        name@ == spec_partition_type_name(partition_type),
{
    match partition_type {
        0x0 => "Empty",
        0x1 => "FAT12",
        0x2 => "XENIX root",
        0x3 => "XENIX usr",
        0x4 => "FAT16 <32M",
        0x5 => "Extended",
        0x6 => "FAT16",
        0x7 => "HPFS/NTFS/exFAT",
        0x8 => "AIX",
        0x9 => "AIX bootable",
        0xa => "OS/2 Boot Manag",
        0xb => "W95 FAT32",
        0xc => "W95 FAT32 (LBA)",
        0xe => "W95 FAT16 (LBA)",
        0xf => "W95 Ext'd (LBA)",
        0x10 => "OPUS",
        0x11 => "Hidden FAT12",
        0x12 => "Compaq diagnost",
        0x14 => "Hidden FAT16 <3",
        0x16 => "Hidden FAT16",
        0x17 => "Hidden HPFS/NTF",
        0x18 => "AST SmartSleep",
        0x1b => "Hidden W95 FAT3",
        0x1c => "Hidden W95 FAT3",
        0x1e => "Hidden W95 FAT1",
        0x24 => "NEC DOS",
        0x27 => "Hidden NTFS Win",
        0x39 => "Plan 9",
        0x3c => "PartitionMagic",
        0x40 => "Venix 80286",
        0x41 => "PPC PReP Boot",
        0x42 => "SFS",
        0x4d => "QNX4.x",
        0x4e => "QNX4.x 2nd part",
        0x4f => "QNX4.x 3rd part",
        0x50 => "OnTrack DM",
        0x51 => "OnTrack DM6 Aux",
        0x52 => "CP/M",
        0x53 => "OnTrack DM6 Aux",
        0x54 => "OnTrackDM6",
        0x55 => "EZ-Drive",
        0x56 => "Golden Bow",
        0x5c => "Priam Edisk",
        0x61 => "SpeedStor",
        0x63 => "GNU HURD or Sys",
        0x64 => "Novell Netware",
        0x65 => "Novell Netware",
        0x70 => "DiskSecure Mult",
        0x75 => "PC/IX",
        0x80 => "Old Minix",
        0x81 => "Minix / old Lin",
        0x82 => "Linux swap / So",
        0x83 => "Linux",
        0x84 => "OS/2 hidden or",
        0x85 => "Linux extended",
        0x86 => "NTFS volume set",
        0x87 => "NTFS volume set",
        0x88 => "Linux plaintext",
        0x8e => "Linux LVM",
        0x93 => "Amoeba",
        0x94 => "Amoeba BBT",
        0x9f => "BSD/OS",
        0xa0 => "IBM Thinkpad hi",
        0xa5 => "FreeBSD",
        0xa6 => "OpenBSD",
        0xa7 => "NeXTSTEP",
        0xa8 => "Darwin UFS",
        0xa9 => "NetBSD",
        0xab => "Darwin boot",
        0xaf => "HFS / HFS+",
        0xb7 => "BSDI fs",
        0xb8 => "BSDI swap",
        0xbb => "Boot Wizard hid",
        0xbc => "Acronis FAT32 L",
        0xbe => "Solaris boot",
        0xbf => "Solaris",
        0xc1 => "DRDOS/sec (FAT-",
        0xc4 => "DRDOS/sec (FAT-",
        0xc6 => "DRDOS/sec (FAT-",
        0xc7 => "Syrinx",
        0xda => "Non-FS data",
        0xdb => "CP/M / CTOS / .",
        0xde => "Dell Utility",
        0xdf => "BootIt",
        0xe1 => "DOS access",
        0xe3 => "DOS R/O",
        0xe4 => "SpeedStor",
        0xea => "Rufus alignment",
        0xeb => "BeOS fs",
        0xee => "GPT",
        0xef => "EFI (FAT-12/16/",
        0xf0 => "Linux/PA-RISC b",
        0xf1 => "SpeedStor",
        0xf4 => "SpeedStor",
        0xf2 => "DOS secondary",
        0xfb => "VMware VMFS",
        0xfc => "VMware VMKCORE",
        0xfd => "Linux raid auto",
        0xfe => "LANstep",
        0xff => "BBT",
        _ => "Unknown Partition Type",
    }
}

/// Whether `path` is a list of distinct sector numbers, each at most `bound`.
pub open spec fn distinct_within(path: Seq<usize>, bound: nat) -> bool {
    &&& path.no_duplicates()
    &&& forall|i: int| 0 <= i < path.len() ==> path[i] <= bound
}

/// The entries of `children` with `delta` added to each starting LBA.
pub open spec fn relative_to(children: Seq<MbrPartitionTableEntry>, delta: u32) -> Seq<
    MbrPartitionTableEntry,
> {
    children.map_values(
        |c: MbrPartitionTableEntry|
            MbrPartitionTableEntry { starting_lba: (c.starting_lba + delta) as u32, ..c },
    )
}

/// Whether some entry of `children` would overflow when `delta` is added to its LBA.
pub open spec fn relative_overflows(children: Seq<MbrPartitionTableEntry>, delta: u32) -> bool {
    exists|i: int| 0 <= i < children.len() && children[i].starting_lba + delta > u32::MAX
}

/// What reading the boot record at sector `lba` gives: the entries collected from it and from
/// the extended boot records it points to, and where the cursor stands afterwards.
///
/// `path` lists the extended boot records being read above this one; reaching one of them
/// again would repeat the same reads forever, and is reported as malformed.
pub open spec fn spec_walk_table(
    b: Seq<u8>,
    lba: int,
    is_ebr: bool,
    path: Seq<usize>,
) -> Result<(Seq<MbrPartitionTableEntry>, int), MappedDiskError>
    decreases b.len() / 512 + 2 - path.len(), 5int,
{
    if lba * 512 > b.len() {
        Err(MappedDiskError::OutOfBounds((lba * 512) as usize))
    } else if lba * 512 + 446 > b.len() {
        Err(MappedDiskError::OutOfBounds((lba * 512 + 446) as usize))
    } else {
        spec_walk_slots(b, lba, is_ebr, path, 0, lba * 512 + 446, seq![])
    }
}

/// The rest of the walk of the table at `lba`, from slot `i` with the cursor at `cursor`,
/// having collected `acc`.
pub open spec fn spec_walk_slots(
    b: Seq<u8>,
    lba: int,
    is_ebr: bool,
    path: Seq<usize>,
    i: int,
    cursor: int,
    acc: Seq<MbrPartitionTableEntry>,
) -> Result<(Seq<MbrPartitionTableEntry>, int), MappedDiskError>
    decreases b.len() / 512 + 2 - path.len(), 4 - i,
{
    if i >= 4 || path.len() > b.len() / 512 + 1 {
        Ok((acc, cursor))
    } else if cursor + 16 > b.len() {
        Err(MappedDiskError::OutOfBounds(cursor as usize))
    } else {
        let e = spec_entry_at(b, cursor);
        let c1 = cursor + 16;
        if e.spec_is_empty() || !e.spec_is_valid_bootable_value() {
            Ok((acc, c1))
        } else if e.spec_is_extended_partition() {
            let next = lba + e.starting_lba;
            if next * 512 > b.len() {
                Err(
                    MappedDiskError::OutOfBounds(
                        if next * 512 <= usize::MAX {
                            (next * 512) as usize
                        } else {
                            usize::MAX
                        },
                    ),
                )
            } else if path.contains(next as usize) {
                Err(MappedDiskError::Malformed(cursor as usize))
            } else {
                match spec_walk_table(b, next, true, path.push(next as usize)) {
                    Err(err) => Err(err),
                    Ok((children, _)) => {
                        if relative_overflows(children, e.starting_lba) {
                            Err(MappedDiskError::Malformed(cursor as usize))
                        } else {
                            let adjusted = relative_to(children, e.starting_lba);
                            let acc2 = if is_ebr {
                                acc + adjusted
                            } else {
                                acc.push(e) + adjusted
                            };
                            spec_walk_slots(b, lba, is_ebr, path, i + 1, c1, acc2)
                        }
                    },
                }
            }
        } else {
            spec_walk_slots(b, lba, is_ebr, path, i + 1, c1, acc.push(e))
        }
    }
}

fn contains(path: &Vec<usize>, x: usize) -> (res: bool)
    ensures
        res == path@.contains(x),
{
    let mut i: usize = 0;
    while i < path.len()
        invariant
            i <= path@.len(),
            forall|j: int| 0 <= j < i ==> path@[j] != x,
        decreases path@.len() - i,
    {
        if path[i] == x {
            return true;
        }
        i = i + 1;
    }
    false
}

fn extend_path(path: &Vec<usize>, x: usize) -> (res: Vec<usize>)
    ensures
        res@ == path@.push(x),
{
    let mut res: Vec<usize> = Vec::new();
    let mut i: usize = 0;
    while i < path.len()
        invariant
            i <= path@.len(),
            res@ == path@.take(i as int),
        decreases path@.len() - i,
    {
        res.push(path[i]);
        i = i + 1;
        assert(res@ =~= path@.take(i as int));
    }
    res.push(x);
    assert(res@ =~= path@.push(x));
    res
}

/// The entries of `children` made relative to `parent`, or `None` where an LBA would not fit.
fn make_relative(children: &Vec<MbrPartitionTableEntry>, parent: &MbrPartitionTableEntry) -> (res:
    Option<Vec<MbrPartitionTableEntry>>)
    ensures
        res is None <==> relative_overflows(children@, parent.starting_lba),
        res matches Some(v) ==> v@ == relative_to(children@, parent.starting_lba),
{
    let mut out: Vec<MbrPartitionTableEntry> = Vec::new();
    let mut i: usize = 0;
    while i < children.len()
        invariant
            i <= children@.len(),
            out@ == relative_to(children@.take(i as int), parent.starting_lba),
            forall|j: int| 0 <= j < i ==> children@[j].starting_lba + parent.starting_lba <= u32::MAX,
        decreases children@.len() - i,
    {
        let mut child = children[i];
        if child.starting_lba > u32::MAX - parent.starting_lba {
            return None;
        }
        child.is_relative_to(parent);
        out.push(child);
        i = i + 1;
        assert(out@ =~= relative_to(children@.take(i as int), parent.starting_lba));
    }
    assert(children@.take(i as int) =~= children@);
    Some(out)
}

fn append_entries(v: &mut Vec<MbrPartitionTableEntry>, extra: &Vec<MbrPartitionTableEntry>)
    ensures
        final(v)@ == old(v)@ + extra@,
{
    let mut i: usize = 0;
    while i < extra.len()
        invariant
            i <= extra@.len(),
            v@ == old(v)@ + extra@.take(i as int),
        decreases extra@.len() - i,
    {
        v.push(extra[i]);
        i = i + 1;
        assert(v@ =~= old(v)@ + extra@.take(i as int));
    }
    assert(extra@.take(i as int) =~= extra@);
}

proof fn lemma_entry_at_sub(b: Seq<u8>, o: int)
    requires
        0 <= o,
        o + 16 <= b.len(),
    ensures
        spec_entry_at(b.subrange(o, o + 16), 0) == spec_entry_at(b, o),
{
    let s = b.subrange(o, o + 16);
    assert(s.subrange(8, 12) =~= b.subrange(o + 8, o + 12));
    assert(s.subrange(12, 16) =~= b.subrange(o + 12, o + 16));
}

/// A path with no repeated sector, each at most `bound`, has at most `bound + 1` steps.
pub(crate) proof fn lemma_path_bound(path: Seq<usize>, bound: nat)
    requires
        bound <= usize::MAX,
        distinct_within(path, bound),
    ensures
        path.len() <= bound + 1,
{
    let s = path.to_set().map(|x: usize| x as int);
    path.unique_seq_to_set();
    let r = vstd::set_lib::set_int_range(0, bound as int + 1);
    vstd::set_lib::lemma_int_range(0, bound as int + 1);
    assert(path.to_set().subset_of(Set::new(|x: usize| x <= bound)));
    let t = Set::new(|x: usize| x <= bound);
    assert(t =~= r.map(|x: int| x as usize)) by {
        assert forall|x: usize| t.contains(x) implies r.map(|y: int| y as usize).contains(x) by {
            assert(r.contains(x as int));
        }
    }
    assert(vstd::relations::injective_on(|x: int| x as usize, r)) by {
        assert forall|a: int, c: int|
            #[trigger] r.contains(a) && #[trigger] r.contains(c) && (a as usize) == (c as usize) implies a == c by {}
    }
    vstd::set_lib::lemma_map_size(r, t, |x: int| x as usize);
    vstd::set_lib::lemma_len_subset(path.to_set(), t);
}

/// Every entry of `entries` is in use and has a valid boot indicator.
pub open spec fn all_in_use(entries: Seq<MbrPartitionTableEntry>) -> bool {
    forall|k: int|
        0 <= k < entries.len() ==> !(#[trigger] entries[k]).spec_is_empty()
            && entries[k].spec_is_valid_bootable_value()
}

proof fn lemma_relative_in_use(children: Seq<MbrPartitionTableEntry>, delta: u32)
    requires
        all_in_use(children),
        !relative_overflows(children, delta),
    ensures
        all_in_use(relative_to(children, delta)),
{
    let adjusted = relative_to(children, delta);
    assert forall|k: int| 0 <= k < adjusted.len() implies !(#[trigger] adjusted[k]).spec_is_empty()
        && adjusted[k].spec_is_valid_bootable_value() by {
        assert(!(children[k].starting_lba + delta > u32::MAX));
    }
}

proof fn lemma_walk_table_in_use(b: Seq<u8>, lba: int, is_ebr: bool, path: Seq<usize>)
    ensures
        spec_walk_table(b, lba, is_ebr, path) matches Ok((entries, _)) ==> all_in_use(entries),
    decreases b.len() / 512 + 2 - path.len(), 5int,
{
    if lba * 512 <= b.len() && lba * 512 + 446 <= b.len() {
        lemma_walk_slots_in_use(b, lba, is_ebr, path, 0, lba * 512 + 446, seq![]);
    }
}

proof fn lemma_walk_slots_in_use(
    b: Seq<u8>,
    lba: int,
    is_ebr: bool,
    path: Seq<usize>,
    i: int,
    cursor: int,
    acc: Seq<MbrPartitionTableEntry>,
)
    requires
        all_in_use(acc),
    ensures
        spec_walk_slots(b, lba, is_ebr, path, i, cursor, acc) matches Ok((entries, _)) ==> all_in_use(
            entries,
        ),
    decreases b.len() / 512 + 2 - path.len(), 4 - i,
{
    if i >= 4 || path.len() > b.len() / 512 + 1 || cursor + 16 > b.len() {
    } else {
        let e = spec_entry_at(b, cursor);
        if e.spec_is_empty() || !e.spec_is_valid_bootable_value() {
        } else if e.spec_is_extended_partition() {
            let next = lba + e.starting_lba;
            if next * 512 <= b.len() && !path.contains(next as usize) {
                lemma_walk_table_in_use(b, next, true, path.push(next as usize));
                if let Ok((children, _)) = spec_walk_table(b, next, true, path.push(next as usize)) {
                    if !relative_overflows(children, e.starting_lba) {
                        let adjusted = relative_to(children, e.starting_lba);
                        lemma_relative_in_use(children, e.starting_lba);
                        let acc2 = if is_ebr {
                            acc + adjusted
                        } else {
                            acc.push(e) + adjusted
                        };
                        assert(all_in_use(acc2)) by {
                            assert forall|k: int| 0 <= k < acc2.len() implies !(#[trigger] acc2[k]).spec_is_empty()
                                && acc2[k].spec_is_valid_bootable_value() by {
                                if is_ebr {
                                    if k >= acc.len() {
                                        assert(acc2[k] == adjusted[k - acc.len()]);
                                    }
                                } else {
                                    if k > acc.len() {
                                        assert(acc2[k] == adjusted[k - acc.len() - 1]);
                                    } else if k < acc.len() {
                                        assert(acc2[k] == acc[k]);
                                    }
                                }
                            }
                        }
                        lemma_walk_slots_in_use(b, lba, is_ebr, path, i + 1, cursor + 16, acc2);
                    }
                }
            }
        } else {
            let acc2 = acc.push(e);
            assert(all_in_use(acc2)) by {
                assert forall|k: int| 0 <= k < acc2.len() implies !(#[trigger] acc2[k]).spec_is_empty()
                    && acc2[k].spec_is_valid_bootable_value() by {
                    if k < acc.len() {
                        assert(acc2[k] == acc[k]);
                    }
                }
            }
            lemma_walk_slots_in_use(b, lba, is_ebr, path, i + 1, cursor + 16, acc2);
        }
    }
}

/// The entries collected from a table start with those collected before it.
proof fn lemma_walk_slots_prefix(
    b: Seq<u8>,
    lba: int,
    is_ebr: bool,
    path: Seq<usize>,
    i: int,
    cursor: int,
    acc: Seq<MbrPartitionTableEntry>,
)
    ensures
        spec_walk_slots(b, lba, is_ebr, path, i, cursor, acc) matches Ok((entries, _)) ==> acc.len()
            <= entries.len() && entries.take(acc.len() as int) == acc,
    decreases 4 - i,
{
    if i >= 4 || path.len() > b.len() / 512 + 1 || cursor + 16 > b.len() {
    } else {
        let e = spec_entry_at(b, cursor);
        if e.spec_is_empty() || !e.spec_is_valid_bootable_value() {
        } else if e.spec_is_extended_partition() {
            let next = lba + e.starting_lba;
            if next * 512 <= b.len() && !path.contains(next as usize) {
                if let Ok((children, _)) = spec_walk_table(b, next, true, path.push(next as usize)) {
                    if !relative_overflows(children, e.starting_lba) {
                        let adjusted = relative_to(children, e.starting_lba);
                        let acc2 = if is_ebr {
                            acc + adjusted
                        } else {
                            acc.push(e) + adjusted
                        };
                        lemma_walk_slots_prefix(b, lba, is_ebr, path, i + 1, cursor + 16, acc2);
                        if let Ok((entries, _)) = spec_walk_slots(
                            b,
                            lba,
                            is_ebr,
                            path,
                            i + 1,
                            cursor + 16,
                            acc2,
                        ) {
                            assert(entries.take(acc.len() as int) =~= acc2.take(acc.len() as int));
                            assert(acc2.take(acc.len() as int) =~= acc);
                        }
                    }
                }
            }
        } else {
            let acc2 = acc.push(e);
            lemma_walk_slots_prefix(b, lba, is_ebr, path, i + 1, cursor + 16, acc2);
            if let Ok((entries, _)) = spec_walk_slots(b, lba, is_ebr, path, i + 1, cursor + 16, acc2) {
                assert(entries.take(acc.len() as int) =~= acc2.take(acc.len() as int));
                assert(acc2.take(acc.len() as int) =~= acc);
            }
        }
    }
}

/// How the walk of a table relates to the walk of the table an extended entry points to: when
/// the slot at `cursor` of the table at sector `lba` holds an extended entry `e` in use, the
/// table at sector `lba + e.starting_lba` is read too, and each of its entries follows, in
/// order, after those collected before (`acc`) and after `e` itself in the MBR, with its
/// starting LBA increased by that of `e`, in the MBR as in an EBR.
pub proof fn lemma_walk_extended_children(
    b: Seq<u8>,
    lba: int,
    is_ebr: bool,
    path: Seq<usize>,
    i: int,
    cursor: int,
    acc: Seq<MbrPartitionTableEntry>,
)
    requires
        0 <= i < 4,
        0 <= lba,
        0 <= cursor,
        cursor + 16 <= b.len(),
        b.len() / 512 <= usize::MAX,
        distinct_within(path, b.len() / 512),
        spec_walk_slots(b, lba, is_ebr, path, i, cursor, acc) is Ok,
        !spec_entry_at(b, cursor).spec_is_empty(),
        spec_entry_at(b, cursor).spec_is_valid_bootable_value(),
        spec_entry_at(b, cursor).spec_is_extended_partition(),
    ensures
        ({
            let e = spec_entry_at(b, cursor);
            let next = lba + e.starting_lba;
            let off = if is_ebr {
                acc.len() as int
            } else {
                acc.len() + 1int
            };
            &&& 0 <= next <= usize::MAX
            &&& !path.contains(next as usize)
            &&& distinct_within(path.push(next as usize), b.len() / 512)
            &&& match (
                spec_walk_slots(b, lba, is_ebr, path, i, cursor, acc),
                spec_walk_table(b, next, true, path.push(next as usize)),
            ) {
                (Ok((entries, _)), Ok((kids, _))) => {
                    &&& off + kids.len() <= entries.len()
                    &&& !is_ebr ==> entries[acc.len() as int] == e
                    &&& forall|k: int|
                        0 <= k < kids.len() ==> kids[k].starting_lba + e.starting_lba <= u32::MAX
                            && #[trigger] entries[off + k] == MbrPartitionTableEntry {
                            starting_lba: (kids[k].starting_lba + e.starting_lba) as u32,
                            ..kids[k]
                        }
                },
                _ => false,
            }
        }),
{
    let e = spec_entry_at(b, cursor);
    let next = lba + e.starting_lba;
    lemma_path_bound(path, b.len() / 512);
    let path2 = path.push(next as usize);
    assert(next <= b.len() / 512) by (nonlinear_arith)
        requires
            next * 512 <= b.len(),
            0 <= next,
    ;
    assert(distinct_within(path2, b.len() / 512)) by {
        assert forall|j: int, k: int|
            0 <= j < k < path2.len() implies path2[j] != path2[k] by {
            if k == path.len() {
                assert(path.contains(path[j]));
            }
        }
    }
    let children = spec_walk_table(b, next, true, path2)->Ok_0.0;
    let adjusted = relative_to(children, e.starting_lba);
    let acc2 = if is_ebr {
        acc + adjusted
    } else {
        acc.push(e) + adjusted
    };
    lemma_walk_slots_prefix(b, lba, is_ebr, path, i + 1, cursor + 16, acc2);
    let entries = spec_walk_slots(b, lba, is_ebr, path, i, cursor, acc)->Ok_0.0;
    let off = if is_ebr {
        acc.len() as int
    } else {
        acc.len() + 1int
    };
    assert(entries.take(acc2.len() as int) == acc2);
    assert forall|k: int|
        0 <= k < children.len() implies children[k].starting_lba + e.starting_lba <= u32::MAX
            && #[trigger] entries[off + k] == MbrPartitionTableEntry {
            starting_lba: (children[k].starting_lba + e.starting_lba) as u32,
            ..children[k]
        } by {
        assert(!(children[k].starting_lba + e.starting_lba > u32::MAX));
        assert(entries.take(acc2.len() as int)[off + k] == entries[off + k]);
        assert(acc2[off + k] == adjusted[k]);
    }
    if !is_ebr {
        assert(entries.take(acc2.len() as int)[acc.len() as int] == entries[acc.len() as int]);
    }
}

/// An extended entry's table, read straight from the bytes: when the slot at `cursor` of the
/// table at sector `lba` (the MBR, or an EBR when `is_ebr`) holds an extended entry `e`, and
/// the first slot of the table it points to, at sector `lba + e.starting_lba`, holds an entry
/// `f` in use that is not extended, then the entries collected go on, after those collected
/// before (`acc`) and after `e` itself in the MBR, with `f` made relative to `e`: its starting
/// LBA is its own plus that of `e`, in the MBR as in an EBR.
pub proof fn lemma_walk_extended_child_relative(
    b: Seq<u8>,
    lba: int,
    is_ebr: bool,
    path: Seq<usize>,
    i: int,
    cursor: int,
    acc: Seq<MbrPartitionTableEntry>,
)
    requires
        0 <= i < 4,
        0 <= lba,
        0 <= cursor,
        cursor + 16 <= b.len(),
        b.len() / 512 <= usize::MAX,
        distinct_within(path, b.len() / 512),
        spec_walk_slots(b, lba, is_ebr, path, i, cursor, acc) is Ok,
        !spec_entry_at(b, cursor).spec_is_empty(),
        spec_entry_at(b, cursor).spec_is_valid_bootable_value(),
        spec_entry_at(b, cursor).spec_is_extended_partition(),
        !spec_entry_at(b, (lba + spec_entry_at(b, cursor).starting_lba) * 512 + 446).spec_is_empty(),
        spec_entry_at(
            b,
            (lba + spec_entry_at(b, cursor).starting_lba) * 512 + 446,
        ).spec_is_valid_bootable_value(),
        !spec_entry_at(
            b,
            (lba + spec_entry_at(b, cursor).starting_lba) * 512 + 446,
        ).spec_is_extended_partition(),
    ensures
        ({
            let e = spec_entry_at(b, cursor);
            let f = spec_entry_at(b, (lba + e.starting_lba) * 512 + 446);
            let off = if is_ebr {
                acc.len() as int
            } else {
                acc.len() + 1int
            };
            match spec_walk_slots(b, lba, is_ebr, path, i, cursor, acc) {
                Ok((entries, _)) => {
                    &&& off < entries.len()
                    &&& !is_ebr ==> entries[acc.len() as int] == e
                    &&& f.starting_lba + e.starting_lba <= u32::MAX
                    &&& entries[off] == MbrPartitionTableEntry {
                        starting_lba: (f.starting_lba + e.starting_lba) as u32,
                        ..f
                    }
                },
                Err(_) => false,
            }
        }),
{
    let e = spec_entry_at(b, cursor);
    let next = lba + e.starting_lba;
    let f = spec_entry_at(b, next * 512 + 446);
    lemma_path_bound(path, b.len() / 512);
    let path2 = path.push(next as usize);
    assert(next * 512 <= b.len());
    assert(!path.contains(next as usize));
    assert(next <= b.len() / 512) by (nonlinear_arith)
        requires
            next * 512 <= b.len(),
            0 <= next,
    ;
    assert(distinct_within(path2, b.len() / 512)) by {
        assert forall|j: int, k: int|
            0 <= j < k < path2.len() implies path2[j] != path2[k] by {
            if k == path.len() {
                assert(path.contains(path[j]));
            }
        }
    }
    lemma_path_bound(path2, b.len() / 512);
    let child = spec_walk_table(b, next, true, path2);
    assert(child is Ok);
    let c0 = next * 512 + 446;
    lemma_walk_slots_prefix(b, next, true, path2, 1, c0 + 16, seq![f]);
    let children = child->Ok_0.0;
    assert(children.take(1) == seq![f]);
    assert(children[0] == f) by {
        assert(children.take(1)[0] == children[0]);
    }
    assert(!relative_overflows(children, e.starting_lba));
    assert(!(children[0].starting_lba + e.starting_lba > u32::MAX));
    let adjusted = relative_to(children, e.starting_lba);
    let acc2 = if is_ebr {
        acc + adjusted
    } else {
        acc.push(e) + adjusted
    };
    lemma_walk_slots_prefix(b, lba, is_ebr, path, i + 1, cursor + 16, acc2);
    let entries = spec_walk_slots(b, lba, is_ebr, path, i, cursor, acc)->Ok_0.0;
    let off = if is_ebr {
        acc.len() as int
    } else {
        acc.len() + 1int
    };
    assert(entries.take(acc2.len() as int) == acc2);
    assert(entries[off] == acc2[off]) by {
        assert(entries.take(acc2.len() as int)[off] == entries[off]);
    }
    assert(acc2[off] == adjusted[0]);
    if !is_ebr {
        assert(entries[acc.len() as int] == acc2[acc.len() as int]) by {
            assert(entries.take(acc2.len() as int)[acc.len() as int] == entries[acc.len() as int]);
        }
    }
}

/// Collects the partition entries of the boot record at sector `starting_lba` and of the
/// extended boot records it leads to.
///
/// Entries are read from the table until an empty slot or one with an invalid boot
/// indicator. An extended entry is followed at `starting_lba` plus its own LBA; the entries
/// found there are made relative to it and follow it (or replace it, inside an extended boot
/// record). Reading then goes on with the next slot of the same table.
pub fn parse_boot_records(disk: &mut MappedDisk, starting_lba: usize, is_ebr_pointer: bool) -> (res:
    MappedDiskResult<Vec<MbrPartitionTableEntry>>)
    requires
        starting_lba * SECTOR_SIZE <= usize::MAX,
    ensures
        final(disk).contents() == old(disk).contents(),
        match spec_walk_table(old(disk).contents(), starting_lba as int, is_ebr_pointer, seq![]) {
            Ok((entries, cursor)) => res matches Ok(v) && v@ == entries && final(disk).pos()
                == cursor,
            Err(e) => res == Err::<Vec<MbrPartitionTableEntry>, _>(e),
        },
        res matches Ok(v) ==> all_in_use(v@),
{
    proof {
        lemma_walk_table_in_use(disk.contents(), starting_lba as int, is_ebr_pointer, seq![]);
    }
    let path: Vec<usize> = Vec::new();
    walk_table(disk, starting_lba, is_ebr_pointer, &path)
}

/// The partition entries of the MBR or EBR at sector `starting_lba` and of the extended boot
/// records that it leads to.
pub fn parse_partition_tables(disk: &mut MappedDisk, starting_lba: usize) -> (res: MappedDiskResult<
    Vec<MbrPartitionTableEntry>,
>)
    requires
        starting_lba * SECTOR_SIZE <= usize::MAX,
    ensures
        final(disk).contents() == old(disk).contents(),
        match spec_walk_table(old(disk).contents(), starting_lba as int, false, seq![]) {
            Ok((entries, cursor)) => res matches Ok(v) && v@ == entries && final(disk).pos()
                == cursor,
            Err(e) => res == Err::<Vec<MbrPartitionTableEntry>, _>(e),
        },
        res matches Ok(v) ==> all_in_use(v@),
{
    parse_boot_records(disk, starting_lba, false)
}

fn walk_table(disk: &mut MappedDisk, lba: usize, is_ebr: bool, path: &Vec<usize>) -> (res:
    MappedDiskResult<Vec<MbrPartitionTableEntry>>)
    requires
        lba * SECTOR_SIZE <= usize::MAX,
        distinct_within(path@, old(disk).contents().len() / 512),
    ensures
        final(disk).contents() == old(disk).contents(),
        match spec_walk_table(old(disk).contents(), lba as int, is_ebr, path@) {
            Ok((entries, cursor)) => res matches Ok(v) && v@ == entries && final(disk).pos()
                == cursor,
            Err(e) => res == Err::<Vec<MbrPartitionTableEntry>, _>(e),
        },
    decreases old(disk).contents().len() / 512 + 2 - path@.len(), 5int,
{
    let ghost b = disk.contents();
    let len = disk.len();
    proof {
        lemma_path_bound(path@, b.len() / 512);
    }
    disk.set_cursor_from_lba(lba)?;
    let base = disk.current_offset();
    if len < BOOTSTRAPER_LENGTH || base > len - BOOTSTRAPER_LENGTH {
        return Err(MappedDiskError::OutOfBounds(base + BOOTSTRAPER_LENGTH));
    }
    disk.set_cursor_relative(BOOTSTRAPER_LENGTH)?;
    let mut partition_table: Vec<MbrPartitionTableEntry> = Vec::new();
    let mut i: usize = 0;
    while i < 4
        invariant
            disk.contents() == b,
            b == old(disk).contents(),
            len == b.len(),
            lba * 512 <= b.len(),
            distinct_within(path@, b.len() / 512),
            path@.len() <= b.len() / 512 + 1,
            i <= 4,
            spec_walk_slots(b, lba as int, is_ebr, path@, i as int, disk.pos(), partition_table@)
                == spec_walk_slots(b, lba as int, is_ebr, path@, 0, lba * 512 + 446, seq![]),
        decreases 4 - i,
    {
        let cursor = disk.current_offset();
        let entry: MbrPartitionTableEntry = disk.read()?;
        proof {
            lemma_entry_at_sub(b, cursor as int);
        }
        assert(entry == spec_entry_at(b, cursor as int));
        if entry.is_empty() || !entry.is_valid_bootable_value() {
            return Ok(partition_table);
        }
        if entry.is_extended_partition() {
            let next = match lba.checked_add(entry.starting_lba()) {
                Some(n) => n,
                None => {
                    return Err(MappedDiskError::OutOfBounds(usize::MAX));
                },
            };
            let next_offset = match next.checked_mul(SECTOR_SIZE) {
                Some(o) => o,
                None => {
                    return Err(MappedDiskError::OutOfBounds(usize::MAX));
                },
            };
            if next_offset > len {
                return Err(MappedDiskError::OutOfBounds(next_offset));
            }
            if contains(path, next) {
                return Err(MappedDiskError::Malformed(cursor));
            }
            let new_path = extend_path(path, next);
            proof {
                assert(distinct_within(new_path@, b.len() / 512)) by {
                    assert forall|j: int, k: int|
                        0 <= j < new_path@.len() && 0 <= k < new_path@.len() && j != k implies new_path@[j]
                        != new_path@[k] by {
                        if j == path@.len() as int {
                            assert(path@[k] == new_path@[k]);
                        } else if k == path@.len() as int {
                            assert(path@[j] == new_path@[j]);
                        }
                    }
                }
            }
            let children = walk_table(disk, next, true, &new_path)?;
            let adjusted = match make_relative(&children, &entry) {
                Some(a) => a,
                None => {
                    return Err(MappedDiskError::Malformed(cursor));
                },
            };
            if !is_ebr {
                partition_table.push(entry);
            }
            append_entries(&mut partition_table, &adjusted);
            disk.set_cursor(cursor + 16)?;
        } else {
            partition_table.push(entry);
        }
        i = i + 1;
    }
    Ok(partition_table)
}

} // verus!
