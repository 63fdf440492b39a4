//! The Apple Partition Map: the driver descriptor map in block 0, and the partition map
//! entries from block 1 on. Its integers are big-endian.
use vstd::prelude::*;
use vstd::utf8::{decode_utf8, valid_utf8};

use crate::bytes::be_at;
use crate::bytestream::{
    ByteStream, Endianness, Readable, ReadableEndianness, SECTOR_SIZE, StreamError, same_source,
};
use crate::text::string_from_utf8;

verus! {

broadcast use ByteStream::lemma_cursor_nonneg;

/// A driver entry of the driver descriptor map.
#[derive(Debug, Copy, Clone)]
pub struct DriverDescriptorEntry {
    pub start_lba: u32,
    pub size_in_sectors: u16,
    pub sys_type: u16,
}

impl View for DriverDescriptorEntry {
    type V = DriverDescriptorEntry;

    open spec fn view(&self) -> DriverDescriptorEntry {
        *self
    }
}

impl Readable for DriverDescriptorEntry {
    open spec fn decode(b: Seq<u8>, p: int) -> Option<(DriverDescriptorEntry, int)> {
        if 0 <= p && p + 8 <= b.len() {
            Some(
                (
                    DriverDescriptorEntry {
                        start_lba: be_at(b, p, 4) as u32,
                        size_in_sectors: be_at(b, p + 4, 2) as u16,
                        sys_type: be_at(b, p + 6, 2) as u16,
                    },
                    p + 8,
                ),
            )
        } else {
            None
        }
    }

    open spec fn decode_error(b: Seq<u8>, p: int) -> StreamError {
        StreamError::UnexpectedEof
    }

    fn read(reader: &mut ByteStream) -> (res: Result<DriverDescriptorEntry, StreamError>) {
        Ok(
            DriverDescriptorEntry {
                start_lba: reader.read_be::<u32>()?,
                size_in_sectors: reader.read_be::<u16>()?,
                sys_type: reader.read_be::<u16>()?,
            },
        )
    }
}

/// Reads `N` bytes of UTF-8 text.
fn read_text<const N: usize>(reader: &mut ByteStream) -> (res: Result<String, StreamError>)
    ensures
        same_source(*old(reader), *final(reader)),
        ({
            let p = old(reader).cursor();
            let b = old(reader).buffer();
            &&& res is Ok <==> p + N <= b.len() && valid_utf8(b.subrange(p, p + N))
            &&& res matches Ok(s) ==> s@ == decode_utf8(b.subrange(p, p + N))
                && final(reader).cursor() == p + N
            &&& res matches Err(e) ==> e == if p + N <= b.len() {
                StreamError::InvalidData
            } else {
                StreamError::UnexpectedEof
            }
        }),
{
    let bytes = reader.read_byte_array::<N>()?;
    let mut v: Vec<u8> = Vec::new();
    let mut i: usize = 0;
    while i < N
        invariant
            i <= N,
            v@ == bytes@.take(i as int),
        decreases N - i,
    {
        v.push(bytes[i]);
        i = i + 1;
        assert(v@ =~= bytes@.take(i as int));
    }
    assert(bytes@.take(N as int) =~= bytes@);
    match string_from_utf8(v) {
        Some(s) => Ok(s),
        None => Err(StreamError::InvalidData),
    }
}

/// The driver descriptor map, in block 0.
#[derive(Debug)]
pub struct DriverDescriptorMap {
    pub signature: String,
    pub block_size: u16,
    pub block_count: u32,
    pub device_type: u16,
    pub device_id: u16,
    pub driver_data: u32,
    pub driver_descriptor_count: u16,
    pub driver_descriptor_map: [DriverDescriptorEntry; 8],
}

/// A `DriverDescriptorMap` with its text taken as characters.
pub struct DriverDescriptorMapView {
    pub signature: Seq<char>,
    pub block_size: u16,
    pub block_count: u32,
    pub device_type: u16,
    pub device_id: u16,
    pub driver_data: u32,
    pub driver_descriptor_count: u16,
    pub driver_descriptor_map: Seq<DriverDescriptorEntry>,
}

impl View for DriverDescriptorMap {
    type V = DriverDescriptorMapView;

    open spec fn view(&self) -> DriverDescriptorMapView {
        DriverDescriptorMapView {
            signature: self.signature@,
            block_size: self.block_size,
            block_count: self.block_count,
            device_type: self.device_type,
            device_id: self.device_id,
            driver_data: self.driver_data,
            driver_descriptor_count: self.driver_descriptor_count,
            driver_descriptor_map: self.driver_descriptor_map@,
        }
    }
}

impl Readable for DriverDescriptorMap {
    /// The signature (two bytes of UTF-8 text), the fields, then one driver entry, which
    /// stands for all eight.
    open spec fn decode(b: Seq<u8>, p: int) -> Option<(DriverDescriptorMapView, int)> {
        if 0 <= p && p + 26 <= b.len() && valid_utf8(b.subrange(p, p + 2)) {
            let e = DriverDescriptorEntry {
                start_lba: be_at(b, p + 18, 4) as u32,
                size_in_sectors: be_at(b, p + 22, 2) as u16,
                sys_type: be_at(b, p + 24, 2) as u16,
            };
            Some(
                (
                    DriverDescriptorMapView {
                        signature: decode_utf8(b.subrange(p, p + 2)),
                        block_size: be_at(b, p + 2, 2) as u16,
                        block_count: be_at(b, p + 4, 4) as u32,
                        device_type: be_at(b, p + 8, 2) as u16,
                        device_id: be_at(b, p + 10, 2) as u16,
                        driver_data: be_at(b, p + 12, 4) as u32,
                        driver_descriptor_count: be_at(b, p + 16, 2) as u16,
                        driver_descriptor_map: Seq::new(8, |i: int| e),
                    },
                    p + 26,
                ),
            )
        } else {
            None
        }
    }

    /// A signature that is not UTF-8, or the end of the buffer.
    open spec fn decode_error(b: Seq<u8>, p: int) -> StreamError {
        if p + 2 <= b.len() && !valid_utf8(b.subrange(p, p + 2)) {
            StreamError::InvalidData
        } else {
            StreamError::UnexpectedEof
        }
    }

    fn read(reader: &mut ByteStream) -> (res: Result<DriverDescriptorMap, StreamError>) {
        let signature = read_text::<2>(reader)?;
        let block_size = reader.read_be::<u16>()?;
        let block_count = reader.read_be::<u32>()?;
        let device_type = reader.read_be::<u16>()?;
        let device_id = reader.read_be::<u16>()?;
        let driver_data = reader.read_be::<u32>()?;
        let driver_descriptor_count = reader.read_be::<u16>()?;
        let ghost b = reader.buffer();
        let ghost q = reader.cursor();
        let driver_descriptor_map = reader.read_array::<DriverDescriptorEntry, 8>()?;
        proof {
            let e = (DriverDescriptorEntry::decode(b, q)->0).0;
            assert forall|i: int| 0 <= i < 8 implies driver_descriptor_map@[i] == e by {
                assert(driver_descriptor_map@[i]@ == e);
            }
        }
        let map = DriverDescriptorMap {
            signature,
            block_size,
            block_count,
            device_type,
            device_id,
            driver_data,
            driver_descriptor_count,
            driver_descriptor_map,
        };
        assert(map@.driver_descriptor_map =~= Seq::new(
            8,
            |i: int| (DriverDescriptorEntry::decode(b, q)->0).0,
        ));
        Ok(map)
    }
}

/// Whether the image starts with an Apple Partition Map: the driver descriptor map of its
/// first sector has the signature `ER`.
pub fn is_apm_disk(image: &[u8]) -> (res: Result<bool, StreamError>)
    ensures
        image@.len() < SECTOR_SIZE ==> res == Err::<bool, StreamError>(StreamError::UnexpectedEof),
        image@.len() >= SECTOR_SIZE ==> match DriverDescriptorMap::decode(
            image@.subrange(0, SECTOR_SIZE as int),
            0,
        ) {
            Some((map, _)) => res == Ok::<bool, StreamError>(map.signature == "ER"@),
            None => res == Err::<bool, StreamError>(StreamError::InvalidData),
        },
{
    let mut stream = ByteStream::new(image, SECTOR_SIZE, 0)?;
    let driver_descriptor_map = stream.read::<DriverDescriptorMap>()?;
    let expected = String::from_str("ER");
    Ok(driver_descriptor_map.signature == expected)
}


/// An entry of the partition map.
#[derive(Debug)]
pub struct ApmPartitionTable {
    signature: String,
    number_of_partitions: u32,
    starting_lba: u32,
    size_in_sectors: u32,
    partition_name: String,
    partition_type: String,
    starting_lba_of_data: u32,
    size_in_sectors_of_date: u32,
    partition_status: u32,
    starting_lba_boot_code: u32,
    size_boot_code: u32,
    address_boot_loader: u32,
    boot_entry_point: u32,
    checksum: u32,
    processor_type: [u8; 16],
}

/// An `ApmPartitionTable` with its text taken as characters.
pub struct ApmPartitionTableView {
    pub signature: Seq<char>,
    pub number_of_partitions: u32,
    pub starting_lba: u32,
    pub size_in_sectors: u32,
    pub partition_name: Seq<char>,
    pub partition_type: Seq<char>,
    pub starting_lba_of_data: u32,
    pub size_in_sectors_of_date: u32,
    pub partition_status: u32,
    pub starting_lba_boot_code: u32,
    pub size_boot_code: u32,
    pub address_boot_loader: u32,
    pub boot_entry_point: u32,
    pub checksum: u32,
    pub processor_type: Seq<u8>,
}

impl View for ApmPartitionTable {
    type V = ApmPartitionTableView;

    closed spec fn view(&self) -> ApmPartitionTableView {
        ApmPartitionTableView {
            signature: self.signature@,
            number_of_partitions: self.number_of_partitions,
            starting_lba: self.starting_lba,
            size_in_sectors: self.size_in_sectors,
            partition_name: self.partition_name@,
            partition_type: self.partition_type@,
            starting_lba_of_data: self.starting_lba_of_data,
            size_in_sectors_of_date: self.size_in_sectors_of_date,
            partition_status: self.partition_status,
            starting_lba_boot_code: self.starting_lba_boot_code,
            size_boot_code: self.size_boot_code,
            address_boot_loader: self.address_boot_loader,
            boot_entry_point: self.boot_entry_point,
            checksum: self.checksum,
            processor_type: self.processor_type@,
        }
    }
}

/// The 136-byte partition map entry at `p` of `b`: its three texts must be UTF-8.
pub open spec fn spec_apm_entry(b: Seq<u8>, p: int) -> Option<(ApmPartitionTableView, int)> {
    if 0 <= p && p + 136 <= b.len() && valid_utf8(b.subrange(p, p + 2)) && valid_utf8(
        b.subrange(p + 16, p + 48),
    ) && valid_utf8(b.subrange(p + 48, p + 80)) {
        Some(
            (
                ApmPartitionTableView {
                    signature: decode_utf8(b.subrange(p, p + 2)),
                    number_of_partitions: be_at(b, p + 4, 4) as u32,
                    starting_lba: be_at(b, p + 8, 4) as u32,
                    size_in_sectors: be_at(b, p + 12, 4) as u32,
                    partition_name: decode_utf8(b.subrange(p + 16, p + 48)),
                    partition_type: decode_utf8(b.subrange(p + 48, p + 80)),
                    starting_lba_of_data: be_at(b, p + 80, 4) as u32,
                    size_in_sectors_of_date: be_at(b, p + 84, 4) as u32,
                    partition_status: be_at(b, p + 88, 4) as u32,
                    starting_lba_boot_code: be_at(b, p + 92, 4) as u32,
                    size_boot_code: be_at(b, p + 96, 4) as u32,
                    address_boot_loader: be_at(b, p + 100, 4) as u32,
                    boot_entry_point: be_at(b, p + 108, 4) as u32,
                    checksum: be_at(b, p + 116, 4) as u32,
                    processor_type: b.subrange(p + 120, p + 136),
                },
                p + 136,
            ),
        )
    } else {
        None
    }
}

/// The failure that reading an entry at `p` of `b` meets first, where it fails: a text that is
/// not UTF-8, or the end of the buffer.
pub open spec fn spec_apm_entry_error(b: Seq<u8>, p: int) -> StreamError {
    if p + 2 > b.len() {
        StreamError::UnexpectedEof
    } else if !valid_utf8(b.subrange(p, p + 2)) {
        StreamError::InvalidData
    } else if p + 48 > b.len() {
        StreamError::UnexpectedEof
    } else if !valid_utf8(b.subrange(p + 16, p + 48)) {
        StreamError::InvalidData
    } else if p + 80 > b.len() {
        StreamError::UnexpectedEof
    } else if !valid_utf8(b.subrange(p + 48, p + 80)) {
        StreamError::InvalidData
    } else {
        StreamError::UnexpectedEof
    }
}

impl Readable for ApmPartitionTable {
    open spec fn decode(b: Seq<u8>, p: int) -> Option<(ApmPartitionTableView, int)> {
        spec_apm_entry(b, p)
    }

    open spec fn decode_error(b: Seq<u8>, p: int) -> StreamError {
        spec_apm_entry_error(b, p)
    }

    fn read(reader: &mut ByteStream) -> (res: Result<ApmPartitionTable, StreamError>) {
        let ghost b = reader.buffer();
        let ghost p = reader.cursor();
        let signature = read_text::<2>(reader)?;
        let _ = reader.read_byte_array::<2>()?;
        let number_of_partitions = reader.read_be::<u32>()?;
        let starting_lba = reader.read_be::<u32>()?;
        let size_in_sectors = reader.read_be::<u32>()?;
        let partition_name = read_text::<32>(reader)?;
        let partition_type = read_text::<32>(reader)?;
        let starting_lba_of_data = reader.read_be::<u32>()?;
        let size_in_sectors_of_date = reader.read_be::<u32>()?;
        let partition_status = reader.read_be::<u32>()?;
        let starting_lba_boot_code = reader.read_be::<u32>()?;
        let size_boot_code = reader.read_be::<u32>()?;
        let address_boot_loader = reader.read_be::<u32>()?;
        let _ = reader.read_byte_array::<4>()?;
        let boot_entry_point = reader.read_be::<u32>()?;
        let _ = reader.read_byte_array::<4>()?;
        let checksum = reader.read_be::<u32>()?;
        let processor_type = reader.read_byte_array::<16>()?;
        let table = ApmPartitionTable {
            signature,
            number_of_partitions,
            starting_lba,
            size_in_sectors,
            partition_name,
            partition_type,
            starting_lba_of_data,
            size_in_sectors_of_date,
            partition_status,
            starting_lba_boot_code,
            size_boot_code,
            address_boot_loader,
            boot_entry_point,
            checksum,
            processor_type,
        };
        assert(table@ == (spec_apm_entry(b, p)->0).0);
        Ok(table)
    }
}

impl ApmPartitionTable {
    /// Whether the entry has a processor type: always, as it is sixteen bytes long.
    pub fn is_valid_apm_partition_table_entry(&self) -> (res: bool)
        ensures
            res == (self@.processor_type.len() != 0),
            res,
    {
        self.processor_type.len() != 0
    }
}

/// Whether the three texts of the entry at `p` of `b` (signature, name, type) are UTF-8.
pub open spec fn apm_texts_valid(b: Seq<u8>, p: int) -> bool {
    &&& valid_utf8(b.subrange(p, p + 2))
    &&& valid_utf8(b.subrange(p + 16, p + 48))
    &&& valid_utf8(b.subrange(p + 48, p + 80))
}

/// The error that ends the reading of the partition map held by block 1 (`block`): the
/// entries at 0, 136, 272 and 408 are read in turn; the first whose texts are not UTF-8 stops
/// the reading with `InvalidData`, and where all are, the fourth runs past the block.
pub open spec fn spec_apm_error(block: Seq<u8>) -> StreamError {
    if apm_texts_valid(block, 0) && apm_texts_valid(block, 136) && apm_texts_valid(block, 272)
        && apm_texts_valid(block, 408) {
        StreamError::UnexpectedEof
    } else {
        StreamError::InvalidData
    }
}

/// Reads the entries of the partition map, one after the other from block 1, as long as each
/// is valid. As every entry is, the reads only stop when one fails, so the result is an error:
/// the entries that block 1 holds are read, and the next one runs past it.
pub fn parse_apm(image: &[u8]) -> (res: Result<Vec<ApmPartitionTable>, StreamError>)
    ensures
        res is Err,
        image@.len() < 2 * SECTOR_SIZE ==> res == Err::<Vec<ApmPartitionTable>, StreamError>(
            StreamError::UnexpectedEof,
        ),
        image@.len() >= 2 * SECTOR_SIZE ==> res == Err::<Vec<ApmPartitionTable>, StreamError>(
            spec_apm_error(image@.subrange(SECTOR_SIZE as int, 2 * SECTOR_SIZE as int)),
        ),
{
    let mut stream = ByteStream::new(image, SECTOR_SIZE, 0)?;
    stream.jump_to_sector(1)?;
    let ghost block = image@.subrange(SECTOR_SIZE as int, 2 * SECTOR_SIZE as int);
    let ghost mut k: int = 0;
    let mut partition_tables: Vec<ApmPartitionTable> = Vec::new();
    loop
        invariant
            image@.len() >= 2 * SECTOR_SIZE,
            block == image@.subrange(SECTOR_SIZE as int, 2 * SECTOR_SIZE as int),
            stream.buffer() == block,
            0 <= k <= 3,
            stream.cursor() == 136 * k,
            forall|j: int| 0 <= j < k ==> #[trigger] apm_texts_valid(block, 136 * j),
        decreases 3 - k,
    {
        let partition_table = match stream.read::<ApmPartitionTable>() {
            Ok(t) => t,
            Err(e) => {
                proof {
                    // The entries before this one had valid texts; this one fails on a text
                    // that is not UTF-8, or, the fourth, on the end of the block.
                    assert(k >= 1 ==> apm_texts_valid(block, 136 * 0int));
                    assert(k >= 2 ==> apm_texts_valid(block, 136 * 1int));
                    assert(k >= 3 ==> apm_texts_valid(block, 136 * 2int));
                    if k < 3 {
                        assert(!apm_texts_valid(block, 136 * k));
                    }
                }
                return Err(e);
            },
        };
        if !partition_table.is_valid_apm_partition_table_entry() {
            return Ok(partition_tables);
        }
        partition_tables.push(partition_table);
        proof {
            assert(apm_texts_valid(block, 136 * k));
            k = k + 1;
        }
    }
}

} // verus!
