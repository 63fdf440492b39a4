//! The partition boot record (boot sector) of an NTFS volume.
use vstd::prelude::*;

use crate::binary_struct::{BinaryParse, BinarySize, ParseError};
use crate::bytes::{le_at, lemma_le_nat_bound, lemma_pow256_values, read_le_uint};
use crate::mapped_disk::{MappedDisk, MappedDiskResult, SECTOR_SIZE, spec_read_at};
use crate::text::{spec_trim, spec_utf8_or_empty, trim, utf8_or_empty};

verus! {

/// Why a boot record is not that of an NTFS volume.
#[derive(Debug, Clone, Copy, PartialEq, Eq)]
pub enum NtfsError {
    /// The OEM identifier is not `NTFS`.
    InvalidOEMId,
}

/// The fields of the NTFS boot sector that describe the volume.
///
/// Layout (byte offsets): jump instruction 0..3, OEM id 3..11, sector size 11, sectors per
/// cluster 13, media descriptor 21, sectors per track 24, heads 26, hidden sectors 28,
/// sectors in volume 40, MFT cluster 48, MFT mirror cluster 56, MFT record size 64,
/// clusters per index buffer 67; 75 bytes in all.
#[derive(Debug)]
pub struct NtfsPartitionBootRecord {
    pub oem_id: String,
    pub sector_size: u16,
    pub sectors_per_cluster: u8,
    pub media_description_id: u8,
    pub sectors_per_track: u16,
    pub num_heads: u16,
    pub num_hidden_sectors: u32,
    /// One sector less than the partition's sectors: the backup boot sector is not part of
    /// the volume.
    pub number_of_sectors_in_volume: u64,
    pub logical_cluster_number_of_mft: u64,
    pub logical_cluster_number_of_mft_mirr: u64,
    /// Clusters per MFT record when positive; when negative, a record is `2^-mft_size` bytes.
    pub mft_size: i8,
    pub clusters_per_index_buffer: i8,
}

/// The boot record with its text taken as characters.
pub struct NtfsPartitionBootRecordView {
    pub oem_id: Seq<char>,
    pub sector_size: u16,
    pub sectors_per_cluster: u8,
    pub media_description_id: u8,
    pub sectors_per_track: u16,
    pub num_heads: u16,
    pub num_hidden_sectors: u32,
    pub number_of_sectors_in_volume: u64,
    pub logical_cluster_number_of_mft: u64,
    pub logical_cluster_number_of_mft_mirr: u64,
    pub mft_size: i8,
    pub clusters_per_index_buffer: i8,
}

impl View for NtfsPartitionBootRecord {
    type V = NtfsPartitionBootRecordView;

    open spec fn view(&self) -> NtfsPartitionBootRecordView {
        NtfsPartitionBootRecordView {
            oem_id: self.oem_id@,
            sector_size: self.sector_size,
            sectors_per_cluster: self.sectors_per_cluster,
            media_description_id: self.media_description_id,
            sectors_per_track: self.sectors_per_track,
            num_heads: self.num_heads,
            num_hidden_sectors: self.num_hidden_sectors,
            number_of_sectors_in_volume: self.number_of_sectors_in_volume,
            logical_cluster_number_of_mft: self.logical_cluster_number_of_mft,
            logical_cluster_number_of_mft_mirr: self.logical_cluster_number_of_mft_mirr,
            mft_size: self.mft_size,
            clusters_per_index_buffer: self.clusters_per_index_buffer,
        }
    }
}

/// The boot record that the first 75 bytes of `b` hold.
pub open spec fn spec_pbr(b: Seq<u8>) -> NtfsPartitionBootRecordView {
    NtfsPartitionBootRecordView {
        oem_id: spec_utf8_or_empty(b.subrange(3, 11)),
        sector_size: le_at(b, 11, 2) as u16,
        sectors_per_cluster: b[13],
        media_description_id: b[21],
        sectors_per_track: le_at(b, 24, 2) as u16,
        num_heads: le_at(b, 26, 2) as u16,
        num_hidden_sectors: le_at(b, 28, 4) as u32,
        number_of_sectors_in_volume: le_at(b, 40, 8) as u64,
        logical_cluster_number_of_mft: le_at(b, 48, 8) as u64,
        logical_cluster_number_of_mft_mirr: le_at(b, 56, 8) as u64,
        mft_size: b[64] as i8,
        clusters_per_index_buffer: b[67] as i8,
    }
}

impl BinarySize for NtfsPartitionBootRecord {
    const SIZE: usize = 75;
}

impl BinaryParse for NtfsPartitionBootRecord {
    open spec fn spec_parse(input: Seq<u8>) -> Option<NtfsPartitionBootRecordView> {
        if input.len() < 75 {
            None
        } else {
            Some(spec_pbr(input))
        }
    }

    fn parse(input: &[u8]) -> (res: Result<NtfsPartitionBootRecord, ParseError>) {
        if input.len() < 75 {
            return Err(ParseError::TooShort);
        }
        let oem_id = utf8_or_empty(&input[3..11]);
        let sector_size = read_le_uint(input, 11, 2);
        let sectors_per_track = read_le_uint(input, 24, 2);
        let num_heads = read_le_uint(input, 26, 2);
        let num_hidden_sectors = read_le_uint(input, 28, 4);
        proof {
            lemma_pow256_values();
            lemma_le_nat_bound(input@.subrange(11, 13));
            lemma_le_nat_bound(input@.subrange(24, 26));
            lemma_le_nat_bound(input@.subrange(26, 28));
            lemma_le_nat_bound(input@.subrange(28, 32));
        }
        Ok(
            NtfsPartitionBootRecord {
                oem_id,
                sector_size: sector_size as u16,
                sectors_per_cluster: input[13],
                media_description_id: input[21],
                sectors_per_track: sectors_per_track as u16,
                num_heads: num_heads as u16,
                num_hidden_sectors: num_hidden_sectors as u32,
                number_of_sectors_in_volume: read_le_uint(input, 40, 8),
                logical_cluster_number_of_mft: read_le_uint(input, 48, 8),
                logical_cluster_number_of_mft_mirr: read_le_uint(input, 56, 8),
                mft_size: input[64] as i8,
                clusters_per_index_buffer: input[67] as i8,
            },
        )
    }
}

/// `2^n`.
pub open spec fn pow2(n: nat) -> nat
    decreases n,
{
    if n == 0 {
        1
    } else {
        2 * pow2((n - 1) as nat)
    }
}

/// Size in bytes of one MFT record, as the boot record encodes it.
pub open spec fn spec_mft_size(pbr: NtfsPartitionBootRecordView) -> int {
    if pbr.mft_size < 0 {
        pow2((-pbr.mft_size) as nat) as int
    } else {
        pbr.mft_size * pbr.sectors_per_cluster * pbr.sector_size
    }
}

/// Whether the record size can be computed: a negative exponent must leave `2^-mft_size`
/// within 32 bits.
pub open spec fn mft_size_computable(pbr: NtfsPartitionBootRecordView) -> bool {
    pbr.mft_size < 0 ==> pbr.mft_size > -32
}

impl NtfsPartitionBootRecord {
    /// Size in bytes of a sector of the volume.
    pub fn sector_size(&self) -> (s: u16)
        ensures
            s == self.sector_size,
    {
        self.sector_size
    }

    /// Number of sectors in a cluster.
    pub fn sectors_per_cluster(&self) -> (s: u8)
        ensures
            s == self.sectors_per_cluster,
    {
        self.sectors_per_cluster
    }

    /// Size in bytes of one MFT record.
    pub fn mft_size(&self) -> (size: usize)
        requires
            mft_size_computable(self@),
        ensures
            size == spec_mft_size(self@),
    {
        if self.mft_size < 0 {
            let exponent: u32 = (-(self.mft_size as i32)) as u32;
            let mut value: u32 = 1;
            let mut i: u32 = 0;
            proof {
                lemma_pow2_monotone(0, 31);
            }
            while i < exponent
                invariant
                    i <= exponent < 32,
                    value == pow2(i as nat),
                    pow2(i as nat) <= pow2(31),
                decreases exponent - i,
            {
                proof {
                    lemma_pow2_monotone((i + 1) as nat, 31);
                    lemma_pow2_31();
                }
                value = value * 2;
                i = i + 1;
            }
            value as usize
        } else {
            let v = self.mft_size as usize;
            let spc = self.sectors_per_cluster as usize;
            let ss = self.sector_size as usize;
            assert(v * spc <= 127 * 255) by (nonlinear_arith)
                requires
                    v <= 127,
                    spc <= 255,
            ;
            assert(v * spc * ss <= 127 * 255 * 65535) by (nonlinear_arith)
                requires
                    v * spc <= 127 * 255,
                    ss <= 65535,
            ;
            v * spc * ss
        }
    }

    /// Number of sectors that the volume spans.
    pub fn number_of_sectors_in_volume(&self) -> (n: usize)
        ensures
            n == self.number_of_sectors_in_volume as usize,
    {
        self.number_of_sectors_in_volume as usize
    }
}

proof fn lemma_pow2_31()
    ensures
        pow2(31) == 0x8000_0000,
{
    reveal_with_fuel(pow2, 32);
}

proof fn lemma_pow2_monotone(a: nat, b: nat)
    requires
        a <= b,
    ensures
        pow2(a) <= pow2(b),
    decreases b,
{
    if a < b {
        lemma_pow2_monotone(a, (b - 1) as nat);
    }
}

/// Reads the boot record at the start of sector `starting_lba`.
pub fn parse_pbr(disk: &mut MappedDisk, starting_lba: usize) -> (res: MappedDiskResult<
    NtfsPartitionBootRecord,
>)
    requires
        starting_lba * SECTOR_SIZE <= usize::MAX,
    ensures
        final(disk).contents() == old(disk).contents(),
        res is Ok <==> spec_read_at::<NtfsPartitionBootRecord>(
            old(disk).contents(),
            starting_lba * SECTOR_SIZE,
            75,
        ) is Some,
        res matches Ok(pbr) ==> spec_read_at::<NtfsPartitionBootRecord>(
            old(disk).contents(),
            starting_lba * SECTOR_SIZE,
            75,
        ) == Some(pbr@),
{
    disk.set_cursor_from_lba(starting_lba)?;
    disk.read::<NtfsPartitionBootRecord>()
}

/// Whether the OEM identifier is `NTFS` once surrounding whitespace is removed.
pub open spec fn is_ntfs_oem_id(oem_id: Seq<char>) -> bool {
    spec_trim(oem_id) == "NTFS"@
}

/// Checks that the boot record is that of an NTFS volume, and gives the sector at which its
/// MFT starts: `starting_lba` plus the MFT's cluster times the sectors per cluster.
pub fn validate_pbr(partition_boot_record: &NtfsPartitionBootRecord, starting_lba: u64) -> (res:
    Result<usize, NtfsError>)
    requires
        is_ntfs_oem_id(partition_boot_record.oem_id@) ==> starting_lba
            + partition_boot_record.logical_cluster_number_of_mft
            * partition_boot_record.sectors_per_cluster <= u64::MAX,
    ensures
        res is Err <==> !is_ntfs_oem_id(partition_boot_record.oem_id@),
        res matches Err(e) ==> e == NtfsError::InvalidOEMId,
        res matches Ok(lba) ==> lba == (starting_lba
            + partition_boot_record.logical_cluster_number_of_mft
            * partition_boot_record.sectors_per_cluster) as usize,
{
    let trimmed = String::from_str(trim(partition_boot_record.oem_id.as_str()));
    let expected = String::from_str("NTFS");
    if !(trimmed == expected) {
        return Err(NtfsError::InvalidOEMId);
    }
    Ok(
        (starting_lba + (partition_boot_record.logical_cluster_number_of_mft
            * partition_boot_record.sectors_per_cluster as u64)) as usize,
    )
}

} // verus!
