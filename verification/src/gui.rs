//! What the partition view shows of a partition table: the entries, their headers and their
//! rows.
use vstd::prelude::*;

use crate::mapped_disk::SECTOR_SIZE;
use crate::partition_tables::mbr::{MbrPartitionTableEntry, spec_partition_type_name};
use crate::partition_tables::NTFS_MBR_PARTITION_TYPE;
use crate::text::{decimal_string, spec_decimal};

verus! {

/// Which view of a disk is shown.
#[derive(Debug)]
pub enum ViewState {
    PartitionTable,
    Partition { index: usize },
}

/// An entry of the partition table of a disk.
#[derive(Debug)]
pub enum PartitionTableEntry {
    Mbr(MbrPartitionTableEntry),
}

impl From<MbrPartitionTableEntry> for PartitionTableEntry {
    fn from(value: MbrPartitionTableEntry) -> (entry: Self) {
        PartitionTableEntry::Mbr(value)
    }
}

impl vstd::std_specs::convert::FromSpecImpl<MbrPartitionTableEntry> for PartitionTableEntry {
    open spec fn obeys_from_spec() -> bool {
        true
    }

    open spec fn from_spec(v: MbrPartitionTableEntry) -> PartitionTableEntry {
        PartitionTableEntry::Mbr(v)
    }
}

/// What `byte_unit` shows for `bytes` bytes in the binary unit that suits them, with two
/// decimals.
pub uninterp spec fn spec_binary_size_text(bytes: u64) -> Seq<char>;

/// Calls `byte_unit::Byte::get_appropriate_unit` with `UnitType::Binary` on `bytes` bytes, and
/// formats the adjusted size with two decimals. Trusted: the text depends on nothing but
/// `bytes`; its form (a rounded decimal and a unit) is left unsaid.
#[verifier::external_body]
fn binary_size_text(bytes: u64) -> (text: String)
    ensures
        text@ == spec_binary_size_text(bytes),
{
    format!(
        "{:.2}",
        byte_unit::Byte::from_u64(bytes).get_appropriate_unit(byte_unit::UnitType::Binary)
    )
}

/// The text of a boolean: `true` or `false`.
pub open spec fn spec_bool_text(b: bool) -> Seq<char> {
    if b {
        "true"@
    } else {
        "false"@
    }
}

impl PartitionTableEntry {
    /// The first sector of the partition.
    pub open spec fn spec_starting_lba(&self) -> usize {
        match self {
            PartitionTableEntry::Mbr(e) => e.starting_lba as usize,
        }
    }

    /// The size of the partition in sectors.
    pub open spec fn spec_number_of_sectors(&self) -> usize {
        match self {
            PartitionTableEntry::Mbr(e) => e.num_sectors as usize,
        }
    }

    /// The last sector of the partition.
    pub open spec fn spec_ending_lba(&self) -> usize {
        match self {
            PartitionTableEntry::Mbr(e) => (e.starting_lba + e.num_sectors - 1) as usize,
        }
    }

    /// The last sector of a partition is its first sector plus its size less one, so that the
    /// sectors from the first to the last are as many as its size; where the sum fits in a
    /// `usize` and the partition ends after sector 0.
    pub proof fn lemma_last_sector(&self)
        requires
            1 <= self.starting_lba() + self.number_of_sectors() <= usize::MAX,
        ensures
            self.ending_lba() == self.starting_lba() + self.number_of_sectors() - 1,
            self.ending_lba() - self.starting_lba() + 1 == self.number_of_sectors(),
    {
    }

    /// The first sector of the partition.
    #[verifier::when_used_as_spec(spec_starting_lba)]
    pub fn starting_lba(&self) -> (lba: usize)
        ensures
            lba == self.spec_starting_lba(),
            match self {
                PartitionTableEntry::Mbr(e) => lba == e.starting_lba,
            },
    {
        match self {
            PartitionTableEntry::Mbr(mbr_partition_table_entry) => {
                mbr_partition_table_entry.starting_lba()
            },
        }
    }

    /// The entries of an MBR partition table, in order, as entries of the partition view.
    pub fn from_mbr_table(table: Vec<MbrPartitionTableEntry>) -> (entries: Vec<
        PartitionTableEntry,
    >)
        ensures
            entries@ == table@.map_values(|e: MbrPartitionTableEntry| PartitionTableEntry::Mbr(e)),
    {
        let mut entries: Vec<PartitionTableEntry> = Vec::new();
        let mut i: usize = 0;
        while i < table.len()
            invariant
                i <= table@.len(),
                entries@ == table@.take(i as int).map_values(
                    |e: MbrPartitionTableEntry| PartitionTableEntry::Mbr(e),
                ),
            decreases table@.len() - i,
        {
            entries.push(PartitionTableEntry::Mbr(table[i]));
            i = i + 1;
            assert(entries@ =~= table@.take(i as int).map_values(
                |e: MbrPartitionTableEntry| PartitionTableEntry::Mbr(e),
            ));
        }
        assert(table@.take(i as int) =~= table@);
        entries
    }

    /// The first sector of the partition when it holds an NTFS volume (MBR type `0x07`), where
    /// its boot record and master file table are read; `None` for any other partition.
    pub fn ntfs_starting_lba(&self) -> (lba: Option<usize>)
        ensures
            match self {
                PartitionTableEntry::Mbr(e) => lba == if e.partition_type
                    == NTFS_MBR_PARTITION_TYPE {
                    Some(e.starting_lba as usize)
                } else {
                    None
                },
            },
    {
        match self {
            PartitionTableEntry::Mbr(mbr_partition_table_entry) => {
                if mbr_partition_table_entry.partition_type() == NTFS_MBR_PARTITION_TYPE {
                    Some(mbr_partition_table_entry.starting_lba())
                } else {
                    None
                }
            },
        }
    }

    /// The last sector of the partition.
    #[verifier::when_used_as_spec(spec_ending_lba)]
    pub fn ending_lba(&self) -> (lba: usize)
        requires
            match self {
                PartitionTableEntry::Mbr(e) => 1 <= e.starting_lba + e.num_sectors <= usize::MAX,
            },
        ensures
            lba == self.spec_ending_lba(),
            match self {
                PartitionTableEntry::Mbr(e) => lba == e.starting_lba + e.num_sectors - 1,
            },
    {
        match self {
            PartitionTableEntry::Mbr(mbr_partition_table_entry) => {
                mbr_partition_table_entry.starting_lba()
                    + mbr_partition_table_entry.num_sectors() as usize - 1usize
            },
        }
    }

    /// The size of the partition in sectors.
    #[verifier::when_used_as_spec(spec_number_of_sectors)]
    pub fn number_of_sectors(&self) -> (n: usize)
        ensures
            n == self.spec_number_of_sectors(),
            match self {
                PartitionTableEntry::Mbr(e) => n == e.num_sectors,
            },
    {
        match self {
            PartitionTableEntry::Mbr(mbr_partition_table_entry) => {
                mbr_partition_table_entry.num_sectors() as usize
            },
        }
    }

    /// The name of the partition's type.
    pub fn partition_type_str(&self) -> (name: &'static str)
        ensures
            match self {
                PartitionTableEntry::Mbr(e) => name@ == spec_partition_type_name(e.partition_type),
            },
    {
        match self {
            PartitionTableEntry::Mbr(mbr_partition_table_entry) => {
                mbr_partition_table_entry.partition_type_str()
            },
        }
    }

    /// The headers of the columns of the partition table.
    pub fn headers(&self) -> (headers: Vec<&'static str>)
        ensures
            headers@.map_values(|h: &str| h@) == seq![
                "Device"@,
                "Bootable"@,
                "Starting LBA"@,
                "Ending LBA"@,
                "Total Sectors"@,
                "Size"@,
                "Partition Type"@,
            ],
    {
        let headers = match self {
            PartitionTableEntry::Mbr(_) => vec![
                "Device",
                "Bootable",
                "Starting LBA",
                "Ending LBA",
                "Total Sectors",
                "Size",
                "Partition Type",
            ],
        };
        assert(headers@.map_values(|h: &str| h@) =~= seq![
            "Device"@,
            "Bootable"@,
            "Starting LBA"@,
            "Ending LBA"@,
            "Total Sectors"@,
            "Size"@,
            "Partition Type"@,
        ]);
        headers
    }

    /// The row of the partition table for the entry: whether it boots, its first and last
    /// sectors, its size in sectors and in binary units, and its type.
    pub fn to_row(&self) -> (row: Vec<String>)
        requires
            match self {
                PartitionTableEntry::Mbr(e) => 1 <= e.starting_lba + e.num_sectors <= usize::MAX,
            },
        ensures
            match self {
                PartitionTableEntry::Mbr(e) => row@.map_values(|s: String| s@) == seq![
                    spec_bool_text(e.bootable == 0x80),
                    spec_decimal(e.starting_lba as nat),
                    spec_decimal((e.starting_lba + e.num_sectors - 1) as nat),
                    spec_decimal(e.num_sectors as nat),
                    spec_binary_size_text((e.num_sectors * SECTOR_SIZE) as u64),
                    spec_partition_type_name(e.partition_type)
                ],
            },
    {
        let number_of_sectors = self.number_of_sectors();
        let name = self.partition_type_str();
        let mut row = vec![
            decimal_string(self.starting_lba() as u64),
            decimal_string(self.ending_lba() as u64),
            decimal_string(number_of_sectors as u64),
            binary_size_text(number_of_sectors as u64 * SECTOR_SIZE as u64),
            String::from_str(name),
        ];
        match self {
            PartitionTableEntry::Mbr(mbr_partition_table_entry) => {
                let bootable = if mbr_partition_table_entry.is_bootable() {
                    String::from_str("true")
                } else {
                    String::from_str("false")
                };
                row.insert(0, bootable);
                assert(row@.map_values(|s: String| s@) =~= seq![
                    spec_bool_text(mbr_partition_table_entry.bootable == 0x80),
                    spec_decimal(mbr_partition_table_entry.starting_lba as nat),
                    spec_decimal(
                        (mbr_partition_table_entry.starting_lba
                            + mbr_partition_table_entry.num_sectors - 1) as nat,
                    ),
                    spec_decimal(mbr_partition_table_entry.num_sectors as nat),
                    spec_binary_size_text(
                        (mbr_partition_table_entry.num_sectors * SECTOR_SIZE) as u64,
                    ),
                    spec_partition_type_name(mbr_partition_table_entry.partition_type)
                ]);
            },
        }
        row
    }
}

} // verus!
