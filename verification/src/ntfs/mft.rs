//! The master file table: file records and the attributes they hold.
use vstd::prelude::*;
use vstd::utf8::{decode_utf8, valid_utf8};
use vstd::slice::slice_to_vec;

use crate::binary_struct::{BinaryParse, BinarySize, ParseError};
use crate::bytes::{
    le_at, le_nat, le_units, lemma_le_nat_bound, lemma_le_nat_split, lemma_pow256_monotone,
    lemma_pow256_values, pow256, read_be_uint, read_le_uint, read_le_units, be_at,
};
use crate::guid::{guid_at, spec_guid, Guid};
use crate::mapped_disk::{
    BufferedMappedDisk, MappedDisk, MappedDiskError, MappedDiskResult, spec_read_at,
};
use crate::ntfs::pbr::{
    is_ntfs_oem_id, mft_size_computable, spec_mft_size, validate_pbr, NtfsPartitionBootRecord,
    NtfsPartitionBootRecordView,
};
use crate::text::{
    decimal_string, push_char, push_decimal, spec_decimal, spec_utf16_decode, spec_utf16_or_empty,
    spec_utf8_or_empty, string_from_utf16, string_from_utf8, utf16_or_empty, utf8_or_empty,
};

verus! {

broadcast use {BufferedMappedDisk::lemma_pos_nonneg, BufferedMappedDisk::lemma_window_len};


/// A reference to an MFT record: a packed 64-bit value whose low 48 bits are the record's
/// index and whose high 16 bits are its sequence number.
#[derive(Debug, Clone, Copy, PartialEq, Eq)]
pub struct FileReferenceNumber {
    pub record_index: u64,
    pub sequence_number: u16,
}

impl View for FileReferenceNumber {
    type V = FileReferenceNumber;

    open spec fn view(&self) -> FileReferenceNumber {
        *self
    }
}

/// The reference that the first 8 bytes of `b` hold.
pub open spec fn spec_file_reference_number(b: Seq<u8>) -> FileReferenceNumber {
    FileReferenceNumber {
        record_index: le_at(b, 0, 6) as u64,
        sequence_number: le_at(b, 6, 2) as u16,
    }
}

impl BinarySize for FileReferenceNumber {
    const SIZE: usize = 8;
}

impl BinaryParse for FileReferenceNumber {
    open spec fn spec_parse(input: Seq<u8>) -> Option<FileReferenceNumber> {
        if input.len() < 8 {
            None
        } else {
            Some(spec_file_reference_number(input))
        }
    }

    fn parse(input: &[u8]) -> (res: Result<FileReferenceNumber, ParseError>) {
        if input.len() < 8 {
            return Err(ParseError::TooShort);
        }
        Ok(
            FileReferenceNumber {
                record_index: read_le_uint(input, 0, 6),
                sequence_number: read_le_uint(input, 6, 2) as u16,
            },
        )
    }
}

/// The two parts of a reference make up the packed value: the index is its low 48 bits and
/// the sequence number the 16 bits above them.
pub proof fn lemma_file_reference_number_packing(b: Seq<u8>)
    requires
        b.len() >= 8,
    ensures
        spec_file_reference_number(b).record_index + spec_file_reference_number(b).sequence_number
            * 0x1_0000_0000_0000 == le_at(b, 0, 8),
        spec_file_reference_number(b).record_index < 0x1_0000_0000_0000,
{
    let p = b.subrange(0, 8);
    lemma_le_nat_split(p, 6);
    assert(p.take(6) =~= b.subrange(0, 6));
    assert(p.skip(6) =~= b.subrange(6, 8));
    lemma_le_nat_bound(b.subrange(0, 6));
    lemma_le_nat_bound(b.subrange(6, 8));
    lemma_pow256_values();
}

/// The reference held by the 8 bytes of `input` at `off`.
pub fn file_reference_number_at(input: &[u8], off: usize) -> (r: FileReferenceNumber)
    requires
        off + 8 <= input.len(),
    ensures
        r == spec_file_reference_number(input@.subrange(off as int, off + 8)),
{
    let bytes = &input[off..off + 8];
    match FileReferenceNumber::parse(bytes) {
        Ok(r) => r,
        Err(_) => {
            assert(false);
            FileReferenceNumber { record_index: 0, sequence_number: 0 }
        },
    }
}

/// Flags of an MFT file record header.
#[derive(Debug, Clone, Copy, PartialEq, Eq, Structural)]
pub struct MftFileRecordFlags {
    pub bits: u16,
}

#[allow(non_upper_case_globals)]
impl MftFileRecordFlags {
    pub const RecordInUse: u16 = 0x01;
    pub const RecordIsDir: u16 = 0x02;
    pub const RecordIsExtension: u16 = 0x04;
    pub const SpecialIndexPresent: u16 = 0x08;

    /// Whether every flag of `other` is set.
    pub fn contains(&self, other: u16) -> (res: bool)
        ensures
            res == (self.bits & other == other),
    {
        self.bits & other == other
    }

    /// Whether some flag of `other` is set.
    pub fn intersects(&self, other: u16) -> (res: bool)
        ensures
            res == (self.bits & other != 0),
    {
        self.bits & other != 0
    }
}

impl View for MftFileRecordFlags {
    type V = MftFileRecordFlags;

    open spec fn view(&self) -> MftFileRecordFlags {
        *self
    }
}

impl BinarySize for MftFileRecordFlags {
    const SIZE: usize = 2;
}

impl BinaryParse for MftFileRecordFlags {
    open spec fn spec_parse(input: Seq<u8>) -> Option<MftFileRecordFlags> {
        if input.len() < 2 {
            None
        } else {
            Some(MftFileRecordFlags { bits: le_at(input, 0, 2) as u16 })
        }
    }

    fn parse(input: &[u8]) -> (res: Result<MftFileRecordFlags, ParseError>) {
        if input.len() < 2 {
            return Err(ParseError::TooShort);
        }
        Ok(MftFileRecordFlags { bits: read_le_uint(input, 0, 2) as u16 })
    }
}

/// Flags of an attribute header.
#[derive(Debug, Clone, Copy, PartialEq, Eq, Structural)]
pub struct AttributeHeaderFlags {
    pub bits: u16,
}

#[allow(non_upper_case_globals)]
impl AttributeHeaderFlags {
    pub const Compressed: u16 = 0x0001;
    pub const Encrypted: u16 = 0x4000;
    pub const Sparse: u16 = 0x8000;

    /// Whether every flag of `other` is set.
    pub fn contains(&self, other: u16) -> (res: bool)
        ensures
            res == (self.bits & other == other),
    {
        self.bits & other == other
    }

    /// Whether some flag of `other` is set.
    pub fn intersects(&self, other: u16) -> (res: bool)
        ensures
            res == (self.bits & other != 0),
    {
        self.bits & other != 0
    }
}

impl View for AttributeHeaderFlags {
    type V = AttributeHeaderFlags;

    open spec fn view(&self) -> AttributeHeaderFlags {
        *self
    }
}

impl BinarySize for AttributeHeaderFlags {
    const SIZE: usize = 2;
}

impl BinaryParse for AttributeHeaderFlags {
    open spec fn spec_parse(input: Seq<u8>) -> Option<AttributeHeaderFlags> {
        if input.len() < 2 {
            None
        } else {
            Some(AttributeHeaderFlags { bits: le_at(input, 0, 2) as u16 })
        }
    }

    fn parse(input: &[u8]) -> (res: Result<AttributeHeaderFlags, ParseError>) {
        if input.len() < 2 {
            return Err(ParseError::TooShort);
        }
        Ok(AttributeHeaderFlags { bits: read_le_uint(input, 0, 2) as u16 })
    }
}

/// DOS file permission flags of a file.
#[derive(Debug, Clone, Copy, PartialEq, Eq, Structural)]
pub struct DosFilePermissionFlags {
    pub bits: u32,
}

#[allow(non_upper_case_globals)]
impl DosFilePermissionFlags {
    pub const ReadOnly: u32 = 0x0001;
    pub const Hidden: u32 = 0x0002;
    pub const System: u32 = 0x0004;
    pub const Archive: u32 = 0x0020;
    pub const Device: u32 = 0x0040;
    pub const Normal: u32 = 0x0080;
    pub const Temporary: u32 = 0x0100;
    pub const SparseFile: u32 = 0x0200;
    pub const ReparsePoint: u32 = 0x0400;
    pub const Compressed: u32 = 0x0800;
    pub const Offline: u32 = 0x1000;
    pub const NotContentIndexed: u32 = 0x2000;
    pub const Encrypted: u32 = 0x4000;
    pub const Directory: u32 = 0x10000000;
    pub const IndexView: u32 = 0x20000000;

    /// Whether every flag of `other` is set.
    pub fn contains(&self, other: u32) -> (res: bool)
        ensures
            res == (self.bits & other == other),
    {
        self.bits & other == other
    }

    /// Whether some flag of `other` is set.
    pub fn intersects(&self, other: u32) -> (res: bool)
        ensures
            res == (self.bits & other != 0),
    {
        self.bits & other != 0
    }
}

impl View for DosFilePermissionFlags {
    type V = DosFilePermissionFlags;

    open spec fn view(&self) -> DosFilePermissionFlags {
        *self
    }
}

impl BinarySize for DosFilePermissionFlags {
    const SIZE: usize = 4;
}

impl BinaryParse for DosFilePermissionFlags {
    open spec fn spec_parse(input: Seq<u8>) -> Option<DosFilePermissionFlags> {
        if input.len() < 4 {
            None
        } else {
            Some(DosFilePermissionFlags { bits: le_at(input, 0, 4) as u32 })
        }
    }

    fn parse(input: &[u8]) -> (res: Result<DosFilePermissionFlags, ParseError>) {
        if input.len() < 4 {
            return Err(ParseError::TooShort);
        }
        Ok(DosFilePermissionFlags { bits: read_le_uint(input, 0, 4) as u32 })
    }
}

/// Control flags of a security descriptor.
#[derive(Debug, Clone, Copy, PartialEq, Eq, Structural)]
pub struct ControlFlags {
    pub bits: u16,
}

#[allow(non_upper_case_globals)]
impl ControlFlags {
    pub const OwnerDefaulted: u16 = 0x0001;
    pub const GroupDefaulted: u16 = 0x0002;
    pub const DACLPresent: u16 = 0x0004;
    pub const DACLDefaulted: u16 = 0x0008;
    pub const SACLPresent: u16 = 0x0010;
    pub const SACLDefaulted: u16 = 0x0020;
    pub const DACLAutoInheritReq: u16 = 0x0100;
    pub const SACLAutoInheritReq: u16 = 0x0200;
    pub const DACLAutoInherited: u16 = 0x0400;
    pub const SACLAutoInherited: u16 = 0x0800;
    pub const DACLProtected: u16 = 0x1000;
    pub const SACLProtected: u16 = 0x2000;
    pub const RMControlValid: u16 = 0x4000;
    pub const SelfRelative: u16 = 0x8000;

    /// Whether every flag of `other` is set.
    pub fn contains(&self, other: u16) -> (res: bool)
        ensures
            res == (self.bits & other == other),
    {
        self.bits & other == other
    }

    /// Whether some flag of `other` is set.
    pub fn intersects(&self, other: u16) -> (res: bool)
        ensures
            res == (self.bits & other != 0),
    {
        self.bits & other != 0
    }
}

impl View for ControlFlags {
    type V = ControlFlags;

    open spec fn view(&self) -> ControlFlags {
        *self
    }
}

impl BinarySize for ControlFlags {
    const SIZE: usize = 2;
}

impl BinaryParse for ControlFlags {
    open spec fn spec_parse(input: Seq<u8>) -> Option<ControlFlags> {
        if input.len() < 2 {
            None
        } else {
            Some(ControlFlags { bits: le_at(input, 0, 2) as u16 })
        }
    }

    fn parse(input: &[u8]) -> (res: Result<ControlFlags, ParseError>) {
        if input.len() < 2 {
            return Err(ParseError::TooShort);
        }
        Ok(ControlFlags { bits: read_le_uint(input, 0, 2) as u16 })
    }
}

/// Flags of an access control entry.
#[derive(Debug, Clone, Copy, PartialEq, Eq, Structural)]
pub struct AceFlags {
    pub bits: u8,
}

#[allow(non_upper_case_globals)]
impl AceFlags {
    pub const ObjectInheritsACE: u8 = 0x01;
    pub const ContainerInheritsACE: u8 = 0x02;
    pub const DoNotPropagateInheritedACE: u8 = 0x04;
    pub const InheritOnlyACE: u8 = 0x08;
    pub const AuditOnSuccess: u8 = 0x40;
    pub const AuditOnFailure: u8 = 0x80;

    /// Whether every flag of `other` is set.
    pub fn contains(&self, other: u8) -> (res: bool)
        ensures
            res == (self.bits & other == other),
    {
        self.bits & other == other
    }

    /// Whether some flag of `other` is set.
    pub fn intersects(&self, other: u8) -> (res: bool)
        ensures
            res == (self.bits & other != 0),
    {
        self.bits & other != 0
    }
}

impl View for AceFlags {
    type V = AceFlags;

    open spec fn view(&self) -> AceFlags {
        *self
    }
}

impl BinarySize for AceFlags {
    const SIZE: usize = 1;
}

impl BinaryParse for AceFlags {
    open spec fn spec_parse(input: Seq<u8>) -> Option<AceFlags> {
        if input.len() < 1 {
            None
        } else {
            Some(AceFlags { bits: input[0] })
        }
    }

    fn parse(input: &[u8]) -> (res: Result<AceFlags, ParseError>) {
        if input.len() < 1 {
            return Err(ParseError::TooShort);
        }
        Ok(AceFlags { bits: input[0] })
    }
}

/// Flags of the volume information attribute.
#[derive(Debug, Clone, Copy, PartialEq, Eq, Structural)]
pub struct VolumeInformationFlags {
    pub bits: u16,
}

#[allow(non_upper_case_globals)]
impl VolumeInformationFlags {
    pub const Dirty: u16 = 0x0001;
    pub const ResizeLogFile: u16 = 0x0002;
    pub const UpgradeOnMount: u16 = 0x0004;
    pub const MountedOnNT4: u16 = 0x0008;
    pub const DeleteUSNUnderway: u16 = 0x0010;
    pub const RepairObjectIds: u16 = 0x0020;
    pub const ModifiedByChkdsk: u16 = 0x8000;

    /// Whether every flag of `other` is set.
    pub fn contains(&self, other: u16) -> (res: bool)
        ensures
            res == (self.bits & other == other),
    {
        self.bits & other == other
    }

    /// Whether some flag of `other` is set.
    pub fn intersects(&self, other: u16) -> (res: bool)
        ensures
            res == (self.bits & other != 0),
    {
        self.bits & other != 0
    }
}

impl View for VolumeInformationFlags {
    type V = VolumeInformationFlags;

    open spec fn view(&self) -> VolumeInformationFlags {
        *self
    }
}

impl BinarySize for VolumeInformationFlags {
    const SIZE: usize = 2;
}

impl BinaryParse for VolumeInformationFlags {
    open spec fn spec_parse(input: Seq<u8>) -> Option<VolumeInformationFlags> {
        if input.len() < 2 {
            None
        } else {
            Some(VolumeInformationFlags { bits: le_at(input, 0, 2) as u16 })
        }
    }

    fn parse(input: &[u8]) -> (res: Result<VolumeInformationFlags, ParseError>) {
        if input.len() < 2 {
            return Err(ParseError::TooShort);
        }
        Ok(VolumeInformationFlags { bits: read_le_uint(input, 0, 2) as u16 })
    }
}

/// Flags of an index entry.
#[derive(Debug, Clone, Copy, PartialEq, Eq, Structural)]
pub struct IndexEntryFlags {
    pub bits: u8,
}

#[allow(non_upper_case_globals)]
impl IndexEntryFlags {
    pub const SubNode: u8 = 0x01;
    pub const LastIndexEntry: u8 = 0x02;

    /// Whether every flag of `other` is set.
    pub fn contains(&self, other: u8) -> (res: bool)
        ensures
            res == (self.bits & other == other),
    {
        self.bits & other == other
    }

    /// Whether some flag of `other` is set.
    pub fn intersects(&self, other: u8) -> (res: bool)
        ensures
            res == (self.bits & other != 0),
    {
        self.bits & other != 0
    }
}

impl View for IndexEntryFlags {
    type V = IndexEntryFlags;

    open spec fn view(&self) -> IndexEntryFlags {
        *self
    }
}

impl BinarySize for IndexEntryFlags {
    const SIZE: usize = 1;
}

impl BinaryParse for IndexEntryFlags {
    open spec fn spec_parse(input: Seq<u8>) -> Option<IndexEntryFlags> {
        if input.len() < 1 {
            None
        } else {
            Some(IndexEntryFlags { bits: input[0] })
        }
    }

    fn parse(input: &[u8]) -> (res: Result<IndexEntryFlags, ParseError>) {
        if input.len() < 1 {
            return Err(ParseError::TooShort);
        }
        Ok(IndexEntryFlags { bits: input[0] })
    }
}

/// Flags of a quota entry.
#[derive(Debug, Clone, Copy, PartialEq, Eq, Structural)]
pub struct QuotaFlags {
    pub bits: u32,
}

#[allow(non_upper_case_globals)]
impl QuotaFlags {
    pub const DefaultLimits: u32 = 0x0001;
    pub const LimitReached: u32 = 0x0002;
    pub const IdDeleted: u32 = 0x0004;
    pub const TrackingEnabled: u32 = 0x0010;
    pub const EnforcementEnabled: u32 = 0x0020;
    pub const TrackingRequested: u32 = 0x0040;
    pub const LogThreshold: u32 = 0x0080;
    pub const LogLimit: u32 = 0x0100;
    pub const OutOfDate: u32 = 0x0200;
    pub const Corrupt: u32 = 0x0400;
    pub const PendingDeletes: u32 = 0x0800;

    /// Whether every flag of `other` is set.
    pub fn contains(&self, other: u32) -> (res: bool)
        ensures
            res == (self.bits & other == other),
    {
        self.bits & other == other
    }

    /// Whether some flag of `other` is set.
    pub fn intersects(&self, other: u32) -> (res: bool)
        ensures
            res == (self.bits & other != 0),
    {
        self.bits & other != 0
    }
}

impl View for QuotaFlags {
    type V = QuotaFlags;

    open spec fn view(&self) -> QuotaFlags {
        *self
    }
}

impl BinarySize for QuotaFlags {
    const SIZE: usize = 4;
}

impl BinaryParse for QuotaFlags {
    open spec fn spec_parse(input: Seq<u8>) -> Option<QuotaFlags> {
        if input.len() < 4 {
            None
        } else {
            Some(QuotaFlags { bits: le_at(input, 0, 4) as u32 })
        }
    }

    fn parse(input: &[u8]) -> (res: Result<QuotaFlags, ParseError>) {
        if input.len() < 4 {
            return Err(ParseError::TooShort);
        }
        Ok(QuotaFlags { bits: read_le_uint(input, 0, 4) as u32 })
    }
}

/// Flags of an extended attribute.
#[derive(Debug, Clone, Copy, PartialEq, Eq, Structural)]
pub struct ExtendedAttributeFlags {
    pub bits: u8,
}

#[allow(non_upper_case_globals)]
impl ExtendedAttributeFlags {
    pub const NeedEA: u8 = 0x80;

    /// Whether every flag of `other` is set.
    pub fn contains(&self, other: u8) -> (res: bool)
        ensures
            res == (self.bits & other == other),
    {
        self.bits & other == other
    }

    /// Whether some flag of `other` is set.
    pub fn intersects(&self, other: u8) -> (res: bool)
        ensures
            res == (self.bits & other != 0),
    {
        self.bits & other != 0
    }
}

impl View for ExtendedAttributeFlags {
    type V = ExtendedAttributeFlags;

    open spec fn view(&self) -> ExtendedAttributeFlags {
        *self
    }
}

impl BinarySize for ExtendedAttributeFlags {
    const SIZE: usize = 1;
}

impl BinaryParse for ExtendedAttributeFlags {
    open spec fn spec_parse(input: Seq<u8>) -> Option<ExtendedAttributeFlags> {
        if input.len() < 1 {
            None
        } else {
            Some(ExtendedAttributeFlags { bits: input[0] })
        }
    }

    fn parse(input: &[u8]) -> (res: Result<ExtendedAttributeFlags, ParseError>) {
        if input.len() < 1 {
            return Err(ParseError::TooShort);
        }
        Ok(ExtendedAttributeFlags { bits: input[0] })
    }
}

/// Tag of a reparse point.
#[derive(Debug, Clone, Copy, PartialEq, Eq, Structural)]
pub struct ReparseTag {
    pub bits: u32,
}

#[allow(non_upper_case_globals)]
impl ReparseTag {
    pub const MountPoint: u32 = 0x3;
    pub const SymbolicLink: u32 = 0xc;
    pub const Isalias: u32 = 0x20000000;
    pub const IsHighLatency: u32 = 0x40000000;
    pub const IsMicrosoft: u32 = 0x80000000;

    /// Whether every flag of `other` is set.
    pub fn contains(&self, other: u32) -> (res: bool)
        ensures
            res == (self.bits & other == other),
    {
        self.bits & other == other
    }

    /// Whether some flag of `other` is set.
    pub fn intersects(&self, other: u32) -> (res: bool)
        ensures
            res == (self.bits & other != 0),
    {
        self.bits & other != 0
    }
}

impl View for ReparseTag {
    type V = ReparseTag;

    open spec fn view(&self) -> ReparseTag {
        *self
    }
}

impl BinarySize for ReparseTag {
    const SIZE: usize = 4;
}

impl BinaryParse for ReparseTag {
    open spec fn spec_parse(input: Seq<u8>) -> Option<ReparseTag> {
        if input.len() < 4 {
            None
        } else {
            Some(ReparseTag { bits: le_at(input, 0, 4) as u32 })
        }
    }

    fn parse(input: &[u8]) -> (res: Result<ReparseTag, ParseError>) {
        if input.len() < 4 {
            return Err(ParseError::TooShort);
        }
        Ok(ReparseTag { bits: read_le_uint(input, 0, 4) as u32 })
    }
}

/// Whether the target of a symbolic link is relative.
#[derive(Debug, Clone, Copy, PartialEq, Eq, Structural)]
pub struct SymbolicLinkFlags {
    pub bits: u32,
}

#[allow(non_upper_case_globals)]
impl SymbolicLinkFlags {
    pub const Absolute: u32 = 0x0;
    pub const Relative: u32 = 0x1;

    /// Whether every flag of `other` is set.
    pub fn contains(&self, other: u32) -> (res: bool)
        ensures
            res == (self.bits & other == other),
    {
        self.bits & other == other
    }

    /// Whether some flag of `other` is set.
    pub fn intersects(&self, other: u32) -> (res: bool)
        ensures
            res == (self.bits & other != 0),
    {
        self.bits & other != 0
    }
}

impl View for SymbolicLinkFlags {
    type V = SymbolicLinkFlags;

    open spec fn view(&self) -> SymbolicLinkFlags {
        *self
    }
}

impl BinarySize for SymbolicLinkFlags {
    const SIZE: usize = 4;
}

impl BinaryParse for SymbolicLinkFlags {
    open spec fn spec_parse(input: Seq<u8>) -> Option<SymbolicLinkFlags> {
        if input.len() < 4 {
            None
        } else {
            Some(SymbolicLinkFlags { bits: le_at(input, 0, 4) as u32 })
        }
    }

    fn parse(input: &[u8]) -> (res: Result<SymbolicLinkFlags, ParseError>) {
        if input.len() < 4 {
            return Err(ParseError::TooShort);
        }
        Ok(SymbolicLinkFlags { bits: read_le_uint(input, 0, 4) as u32 })
    }
}

/// The header of an MFT file record.
#[derive(Debug)]
pub struct MftFileRecord {
    /// Text of the four signature bytes (`FILE` for a record in use), or empty.
    pub signature: String,
    pub offest_of_update_seq: u16,
    /// Size of the update sequence in 16-bit words.
    pub size_of_update_seq: u16,
    pub log_file_seq_number: u64,
    pub use_count: u8,
    pub deletion_count: u8,
    pub hard_link_count: u16,
    pub offset_first_attribute: u16,
    pub flags: MftFileRecordFlags,
    pub file_size_on_disk: u32,
    pub space_allocated: u32,
    pub base_register: u64,
    pub next_attribute_id: u16,
}

/// A `MftFileRecord` with its text taken as characters.
pub struct MftFileRecordView {
    pub signature: Seq<char>,
    pub offest_of_update_seq: u16,
    pub size_of_update_seq: u16,
    pub log_file_seq_number: u64,
    pub use_count: u8,
    pub deletion_count: u8,
    pub hard_link_count: u16,
    pub offset_first_attribute: u16,
    pub flags: MftFileRecordFlags,
    pub file_size_on_disk: u32,
    pub space_allocated: u32,
    pub base_register: u64,
    pub next_attribute_id: u16,
}

impl View for MftFileRecord {
    type V = MftFileRecordView;

    open spec fn view(&self) -> MftFileRecordView {
        MftFileRecordView {
            signature: self.signature@,
            offest_of_update_seq: self.offest_of_update_seq,
            size_of_update_seq: self.size_of_update_seq,
            log_file_seq_number: self.log_file_seq_number,
            use_count: self.use_count,
            deletion_count: self.deletion_count,
            hard_link_count: self.hard_link_count,
            offset_first_attribute: self.offset_first_attribute,
            flags: self.flags,
            file_size_on_disk: self.file_size_on_disk,
            space_allocated: self.space_allocated,
            base_register: self.base_register,
            next_attribute_id: self.next_attribute_id,
        }
    }
}

/// The `MftFileRecord` that the first 42 bytes of `b` hold.
pub open spec fn spec_mft_file_record(b: Seq<u8>) -> MftFileRecordView {
    MftFileRecordView {
        signature: spec_utf8_or_empty(b.subrange(0, 4)),
        offest_of_update_seq: le_at(b, 4, 2) as u16,
        size_of_update_seq: le_at(b, 6, 2) as u16,
        log_file_seq_number: le_at(b, 8, 8) as u64,
        use_count: b[16],
        deletion_count: b[17],
        hard_link_count: le_at(b, 18, 2) as u16,
        offset_first_attribute: le_at(b, 20, 2) as u16,
        flags: MftFileRecordFlags { bits: le_at(b, 22, 2) as u16 },
        file_size_on_disk: le_at(b, 24, 4) as u32,
        space_allocated: le_at(b, 28, 4) as u32,
        base_register: le_at(b, 32, 8) as u64,
        next_attribute_id: le_at(b, 40, 2) as u16,
    }
}

impl BinarySize for MftFileRecord {
    const SIZE: usize = 42;
}

impl BinaryParse for MftFileRecord {
    open spec fn spec_parse(input: Seq<u8>) -> Option<MftFileRecordView> {
        if input.len() < 42 {
            None
        } else {
            Some(spec_mft_file_record(input))
        }
    }

    fn parse(input: &[u8]) -> (res: Result<MftFileRecord, ParseError>) {
        if input.len() < 42 {
            return Err(ParseError::TooShort);
        }
        Ok(
            MftFileRecord {
                signature: utf8_or_empty(&input[0..4]),
                offest_of_update_seq: read_le_uint(input, 4, 2) as u16,
                size_of_update_seq: read_le_uint(input, 6, 2) as u16,
                log_file_seq_number: read_le_uint(input, 8, 8) as u64,
                use_count: input[16],
                deletion_count: input[17],
                hard_link_count: read_le_uint(input, 18, 2) as u16,
                offset_first_attribute: read_le_uint(input, 20, 2) as u16,
                flags: MftFileRecordFlags { bits: read_le_uint(input, 22, 2) as u16 },
                file_size_on_disk: read_le_uint(input, 24, 4) as u32,
                space_allocated: read_le_uint(input, 28, 4) as u32,
                base_register: read_le_uint(input, 32, 8) as u64,
                next_attribute_id: read_le_uint(input, 40, 2) as u16,
            },
        )
    }
}

/// The part of an attribute header that every attribute has.
#[derive(Debug, Clone, Copy, PartialEq, Eq)]
pub struct CommonAttributeHeader {
    pub attribute_type: u32,
    /// Length of the whole attribute in bytes.
    pub length: u32,
    pub non_resident_flag: u8,
    /// Length of the name in UTF-16 units.
    pub name_length: u8,
    pub name_offset: u16,
    pub flags: AttributeHeaderFlags,
    pub attribute_id: u16,
}

impl View for CommonAttributeHeader {
    type V = CommonAttributeHeader;

    open spec fn view(&self) -> CommonAttributeHeader {
        *self
    }
}

/// The `CommonAttributeHeader` that the first 16 bytes of `b` hold.
pub open spec fn spec_common_attribute_header(b: Seq<u8>) -> CommonAttributeHeader {
    CommonAttributeHeader {
        attribute_type: le_at(b, 0, 4) as u32,
        length: le_at(b, 4, 4) as u32,
        non_resident_flag: b[8],
        name_length: b[9],
        name_offset: le_at(b, 10, 2) as u16,
        flags: AttributeHeaderFlags { bits: le_at(b, 12, 2) as u16 },
        attribute_id: le_at(b, 14, 2) as u16,
    }
}

impl BinarySize for CommonAttributeHeader {
    const SIZE: usize = 16;
}

impl BinaryParse for CommonAttributeHeader {
    open spec fn spec_parse(input: Seq<u8>) -> Option<CommonAttributeHeader> {
        if input.len() < 16 {
            None
        } else {
            Some(spec_common_attribute_header(input))
        }
    }

    fn parse(input: &[u8]) -> (res: Result<CommonAttributeHeader, ParseError>) {
        if input.len() < 16 {
            return Err(ParseError::TooShort);
        }
        Ok(
            CommonAttributeHeader {
                attribute_type: read_le_uint(input, 0, 4) as u32,
                length: read_le_uint(input, 4, 4) as u32,
                non_resident_flag: input[8],
                name_length: input[9],
                name_offset: read_le_uint(input, 10, 2) as u16,
                flags: AttributeHeaderFlags { bits: read_le_uint(input, 12, 2) as u16 },
                attribute_id: read_le_uint(input, 14, 2) as u16,
            },
        )
    }
}

/// The rest of the header of an attribute whose value is stored in the record.
#[derive(Debug, Clone, Copy, PartialEq, Eq)]
pub struct ResidentAttributeHeader {
    /// Length of the value in bytes.
    pub attribute_length: u32,
    /// Offset of the value from the start of the attribute.
    pub attritube_offset: u16,
    pub indexed_flag: u8,
}

impl View for ResidentAttributeHeader {
    type V = ResidentAttributeHeader;

    open spec fn view(&self) -> ResidentAttributeHeader {
        *self
    }
}

/// The `ResidentAttributeHeader` that the first 8 bytes of `b` hold.
pub open spec fn spec_resident_attribute_header(b: Seq<u8>) -> ResidentAttributeHeader {
    ResidentAttributeHeader {
        attribute_length: le_at(b, 0, 4) as u32,
        attritube_offset: le_at(b, 4, 2) as u16,
        indexed_flag: b[6],
    }
}

impl BinarySize for ResidentAttributeHeader {
    const SIZE: usize = 8;
}

impl BinaryParse for ResidentAttributeHeader {
    open spec fn spec_parse(input: Seq<u8>) -> Option<ResidentAttributeHeader> {
        if input.len() < 8 {
            None
        } else {
            Some(spec_resident_attribute_header(input))
        }
    }

    fn parse(input: &[u8]) -> (res: Result<ResidentAttributeHeader, ParseError>) {
        if input.len() < 8 {
            return Err(ParseError::TooShort);
        }
        Ok(
            ResidentAttributeHeader {
                attribute_length: read_le_uint(input, 0, 4) as u32,
                attritube_offset: read_le_uint(input, 4, 2) as u16,
                indexed_flag: input[6],
            },
        )
    }
}

/// The rest of the header of an attribute whose value is stored in clusters.
#[derive(Debug, Clone, Copy, PartialEq, Eq)]
pub struct NonResidentAttributeHeader {
    pub starting_vcn: u64,
    pub ending_vcn: u64,
    pub data_runs_offset: u16,
    pub compression_unit_size: u16,
    pub file_allocation_size: u64,
    pub file_real_size: u64,
    pub initial_stream_size: u64,
}

impl View for NonResidentAttributeHeader {
    type V = NonResidentAttributeHeader;

    open spec fn view(&self) -> NonResidentAttributeHeader {
        *self
    }
}

/// The `NonResidentAttributeHeader` that the first 48 bytes of `b` hold.
pub open spec fn spec_non_resident_attribute_header(b: Seq<u8>) -> NonResidentAttributeHeader {
    NonResidentAttributeHeader {
        starting_vcn: le_at(b, 0, 8) as u64,
        ending_vcn: le_at(b, 8, 8) as u64,
        data_runs_offset: le_at(b, 16, 2) as u16,
        compression_unit_size: le_at(b, 18, 2) as u16,
        file_allocation_size: le_at(b, 24, 8) as u64,
        file_real_size: le_at(b, 32, 8) as u64,
        initial_stream_size: le_at(b, 40, 8) as u64,
    }
}

impl BinarySize for NonResidentAttributeHeader {
    const SIZE: usize = 48;
}

impl BinaryParse for NonResidentAttributeHeader {
    open spec fn spec_parse(input: Seq<u8>) -> Option<NonResidentAttributeHeader> {
        if input.len() < 48 {
            None
        } else {
            Some(spec_non_resident_attribute_header(input))
        }
    }

    fn parse(input: &[u8]) -> (res: Result<NonResidentAttributeHeader, ParseError>) {
        if input.len() < 48 {
            return Err(ParseError::TooShort);
        }
        Ok(
            NonResidentAttributeHeader {
                starting_vcn: read_le_uint(input, 0, 8) as u64,
                ending_vcn: read_le_uint(input, 8, 8) as u64,
                data_runs_offset: read_le_uint(input, 16, 2) as u16,
                compression_unit_size: read_le_uint(input, 18, 2) as u16,
                file_allocation_size: read_le_uint(input, 24, 8) as u64,
                file_real_size: read_le_uint(input, 32, 8) as u64,
                initial_stream_size: read_le_uint(input, 40, 8) as u64,
            },
        )
    }
}

/// The `$STANDARD_INFORMATION` attribute (the fields common to all NTFS versions).
#[derive(Debug, Clone, Copy, PartialEq, Eq)]
pub struct StandardInformation {
    pub date_time_file_creation: u64,
    pub date_time_file_modification: u64,
    pub date_time_mft_modification: u64,
    pub date_time_file_reading: u64,
    pub file_permissions: DosFilePermissionFlags,
    pub max_number_of_versions: u32,
    pub version_number: u64,
}

impl View for StandardInformation {
    type V = StandardInformation;

    open spec fn view(&self) -> StandardInformation {
        *self
    }
}

/// The `StandardInformation` that the first 48 bytes of `b` hold.
pub open spec fn spec_standard_information(b: Seq<u8>) -> StandardInformation {
    StandardInformation {
        date_time_file_creation: le_at(b, 0, 8) as u64,
        date_time_file_modification: le_at(b, 8, 8) as u64,
        date_time_mft_modification: le_at(b, 16, 8) as u64,
        date_time_file_reading: le_at(b, 24, 8) as u64,
        file_permissions: DosFilePermissionFlags { bits: le_at(b, 32, 4) as u32 },
        max_number_of_versions: le_at(b, 36, 4) as u32,
        version_number: le_at(b, 40, 8) as u64,
    }
}

impl BinarySize for StandardInformation {
    const SIZE: usize = 48;
}

impl BinaryParse for StandardInformation {
    open spec fn spec_parse(input: Seq<u8>) -> Option<StandardInformation> {
        if input.len() < 48 {
            None
        } else {
            Some(spec_standard_information(input))
        }
    }

    fn parse(input: &[u8]) -> (res: Result<StandardInformation, ParseError>) {
        if input.len() < 48 {
            return Err(ParseError::TooShort);
        }
        Ok(
            StandardInformation {
                date_time_file_creation: read_le_uint(input, 0, 8) as u64,
                date_time_file_modification: read_le_uint(input, 8, 8) as u64,
                date_time_mft_modification: read_le_uint(input, 16, 8) as u64,
                date_time_file_reading: read_le_uint(input, 24, 8) as u64,
                file_permissions: DosFilePermissionFlags { bits: read_le_uint(input, 32, 4) as u32 },
                max_number_of_versions: read_le_uint(input, 36, 4) as u32,
                version_number: read_le_uint(input, 40, 8) as u64,
            },
        )
    }
}

/// The `$OBJECT_ID` attribute.
#[derive(Debug, Clone, Copy, PartialEq, Eq)]
pub struct ObjectIds {
    pub object_id: Guid,
    pub birth_volume_id: Guid,
    pub birth_object_id: Guid,
    pub domain_id: Guid,
}

impl View for ObjectIds {
    type V = ObjectIds;

    open spec fn view(&self) -> ObjectIds {
        *self
    }
}

/// The `ObjectIds` that the first 64 bytes of `b` hold.
pub open spec fn spec_object_ids(b: Seq<u8>) -> ObjectIds {
    ObjectIds {
        object_id: spec_guid(b.subrange(0, 16)),
        birth_volume_id: spec_guid(b.subrange(16, 32)),
        birth_object_id: spec_guid(b.subrange(32, 48)),
        domain_id: spec_guid(b.subrange(48, 64)),
    }
}

impl BinarySize for ObjectIds {
    const SIZE: usize = 64;
}

impl BinaryParse for ObjectIds {
    open spec fn spec_parse(input: Seq<u8>) -> Option<ObjectIds> {
        if input.len() < 64 {
            None
        } else {
            Some(spec_object_ids(input))
        }
    }

    fn parse(input: &[u8]) -> (res: Result<ObjectIds, ParseError>) {
        if input.len() < 64 {
            return Err(ParseError::TooShort);
        }
        Ok(
            ObjectIds {
                object_id: guid_at(input, 0),
                birth_volume_id: guid_at(input, 16),
                birth_object_id: guid_at(input, 32),
                domain_id: guid_at(input, 48),
            },
        )
    }
}

/// The header of a self-relative security descriptor; its offsets count from its start.
#[derive(Debug, Clone, Copy, PartialEq, Eq)]
pub struct SecurityDescriptorHeader {
    pub revision: u8,
    pub control_flags: ControlFlags,
    pub user_sid_offset: u32,
    pub group_sid_offset: u32,
    pub sacl_offset: u32,
    pub dacl_offset: u32,
}

impl View for SecurityDescriptorHeader {
    type V = SecurityDescriptorHeader;

    open spec fn view(&self) -> SecurityDescriptorHeader {
        *self
    }
}

/// The `SecurityDescriptorHeader` that the first 20 bytes of `b` hold.
pub open spec fn spec_security_descriptor_header(b: Seq<u8>) -> SecurityDescriptorHeader {
    SecurityDescriptorHeader {
        revision: b[0],
        control_flags: ControlFlags { bits: le_at(b, 2, 2) as u16 },
        user_sid_offset: le_at(b, 4, 4) as u32,
        group_sid_offset: le_at(b, 8, 4) as u32,
        sacl_offset: le_at(b, 12, 4) as u32,
        dacl_offset: le_at(b, 16, 4) as u32,
    }
}

impl BinarySize for SecurityDescriptorHeader {
    const SIZE: usize = 20;
}

impl BinaryParse for SecurityDescriptorHeader {
    open spec fn spec_parse(input: Seq<u8>) -> Option<SecurityDescriptorHeader> {
        if input.len() < 20 {
            None
        } else {
            Some(spec_security_descriptor_header(input))
        }
    }

    fn parse(input: &[u8]) -> (res: Result<SecurityDescriptorHeader, ParseError>) {
        if input.len() < 20 {
            return Err(ParseError::TooShort);
        }
        Ok(
            SecurityDescriptorHeader {
                revision: input[0],
                control_flags: ControlFlags { bits: read_le_uint(input, 2, 2) as u16 },
                user_sid_offset: read_le_uint(input, 4, 4) as u32,
                group_sid_offset: read_le_uint(input, 8, 4) as u32,
                sacl_offset: read_le_uint(input, 12, 4) as u32,
                dacl_offset: read_le_uint(input, 16, 4) as u32,
            },
        )
    }
}

/// The header of an access control entry: type 0 allows, 1 denies, 2 audits.
#[derive(Debug, Clone, Copy, PartialEq, Eq)]
pub struct AccessControlEntry {
    pub typ: u8,
    pub flags: AceFlags,
    /// Size of the entry with its SID.
    pub size: u16,
    pub access_mask: [u8; 4],
}

impl View for AccessControlEntry {
    type V = AccessControlEntry;

    open spec fn view(&self) -> AccessControlEntry {
        *self
    }
}

/// The `AccessControlEntry` that the first 8 bytes of `b` hold.
pub open spec fn spec_access_control_entry(b: Seq<u8>) -> AccessControlEntry {
    AccessControlEntry {
        typ: b[0],
        flags: AceFlags { bits: b[1] },
        size: le_at(b, 2, 2) as u16,
        access_mask: [b[4], b[5], b[6], b[7]],
    }
}

impl BinarySize for AccessControlEntry {
    const SIZE: usize = 8;
}

impl BinaryParse for AccessControlEntry {
    open spec fn spec_parse(input: Seq<u8>) -> Option<AccessControlEntry> {
        if input.len() < 8 {
            None
        } else {
            Some(spec_access_control_entry(input))
        }
    }

    fn parse(input: &[u8]) -> (res: Result<AccessControlEntry, ParseError>) {
        if input.len() < 8 {
            return Err(ParseError::TooShort);
        }
        Ok(
            AccessControlEntry {
                typ: input[0],
                flags: AceFlags { bits: input[1] },
                size: read_le_uint(input, 2, 2) as u16,
                access_mask: [input[4], input[5], input[6], input[7]],
            },
        )
    }
}

/// The `$VOLUME_INFORMATION` attribute.
#[derive(Debug, Clone, Copy, PartialEq, Eq)]
pub struct VolumeInformation {
    pub major_version: u8,
    pub minor_version: u8,
    pub flags: VolumeInformationFlags,
}

impl View for VolumeInformation {
    type V = VolumeInformation;

    open spec fn view(&self) -> VolumeInformation {
        *self
    }
}

/// The `VolumeInformation` that the first 16 bytes of `b` hold.
pub open spec fn spec_volume_information(b: Seq<u8>) -> VolumeInformation {
    VolumeInformation {
        major_version: b[8],
        minor_version: b[9],
        flags: VolumeInformationFlags { bits: le_at(b, 10, 2) as u16 },
    }
}

impl BinarySize for VolumeInformation {
    const SIZE: usize = 16;
}

impl BinaryParse for VolumeInformation {
    open spec fn spec_parse(input: Seq<u8>) -> Option<VolumeInformation> {
        if input.len() < 16 {
            None
        } else {
            Some(spec_volume_information(input))
        }
    }

    fn parse(input: &[u8]) -> (res: Result<VolumeInformation, ParseError>) {
        if input.len() < 16 {
            return Err(ParseError::TooShort);
        }
        Ok(
            VolumeInformation {
                major_version: input[8],
                minor_version: input[9],
                flags: VolumeInformationFlags { bits: read_le_uint(input, 10, 2) as u16 },
            },
        )
    }
}

/// The header of an `$INDEX_ROOT` attribute.
#[derive(Debug, Clone, Copy, PartialEq, Eq)]
pub struct IndexRootHeader {
    pub attribute_type: u32,
    pub collation_rule: u32,
    pub index_block_size: u32,
    pub clusters_per_index_block: u8,
}

impl View for IndexRootHeader {
    type V = IndexRootHeader;

    open spec fn view(&self) -> IndexRootHeader {
        *self
    }
}

/// The `IndexRootHeader` that the first 16 bytes of `b` hold.
pub open spec fn spec_index_root_header(b: Seq<u8>) -> IndexRootHeader {
    IndexRootHeader {
        attribute_type: le_at(b, 0, 4) as u32,
        collation_rule: le_at(b, 4, 4) as u32,
        index_block_size: le_at(b, 8, 4) as u32,
        clusters_per_index_block: b[12],
    }
}

impl BinarySize for IndexRootHeader {
    const SIZE: usize = 16;
}

impl BinaryParse for IndexRootHeader {
    open spec fn spec_parse(input: Seq<u8>) -> Option<IndexRootHeader> {
        if input.len() < 16 {
            None
        } else {
            Some(spec_index_root_header(input))
        }
    }

    fn parse(input: &[u8]) -> (res: Result<IndexRootHeader, ParseError>) {
        if input.len() < 16 {
            return Err(ParseError::TooShort);
        }
        Ok(
            IndexRootHeader {
                attribute_type: read_le_uint(input, 0, 4) as u32,
                collation_rule: read_le_uint(input, 4, 4) as u32,
                index_block_size: read_le_uint(input, 8, 4) as u32,
                clusters_per_index_block: input[12],
            },
        )
    }
}

/// The header of the index node inside an `$INDEX_ROOT` attribute.
#[derive(Debug, Clone, Copy, PartialEq, Eq)]
pub struct IndexNodeHeader {
    pub entry_offset: u32,
    pub total_entry_size: u32,
    pub allocated_entry_size: u32,
    /// Whether the node has sub-nodes.
    pub non_leaf_node_flag: u8,
}

impl View for IndexNodeHeader {
    type V = IndexNodeHeader;

    open spec fn view(&self) -> IndexNodeHeader {
        *self
    }
}

/// The `IndexNodeHeader` that the first 16 bytes of `b` hold.
pub open spec fn spec_index_node_header(b: Seq<u8>) -> IndexNodeHeader {
    IndexNodeHeader {
        entry_offset: le_at(b, 0, 4) as u32,
        total_entry_size: le_at(b, 4, 4) as u32,
        allocated_entry_size: le_at(b, 8, 4) as u32,
        non_leaf_node_flag: b[12],
    }
}

impl BinarySize for IndexNodeHeader {
    const SIZE: usize = 16;
}

impl BinaryParse for IndexNodeHeader {
    open spec fn spec_parse(input: Seq<u8>) -> Option<IndexNodeHeader> {
        if input.len() < 16 {
            None
        } else {
            Some(spec_index_node_header(input))
        }
    }

    fn parse(input: &[u8]) -> (res: Result<IndexNodeHeader, ParseError>) {
        if input.len() < 16 {
            return Err(ParseError::TooShort);
        }
        Ok(
            IndexNodeHeader {
                entry_offset: read_le_uint(input, 0, 4) as u32,
                total_entry_size: read_le_uint(input, 4, 4) as u32,
                allocated_entry_size: read_le_uint(input, 8, 4) as u32,
                non_leaf_node_flag: input[12],
            },
        )
    }
}

/// The header of an index entry.
#[derive(Debug, Clone, Copy, PartialEq, Eq)]
pub struct IndexEntryHeader {
    pub file_reference: FileReferenceNumber,
    pub index_entry_length: u16,
    pub stream_length: u16,
    pub flags: IndexEntryFlags,
}

impl View for IndexEntryHeader {
    type V = IndexEntryHeader;

    open spec fn view(&self) -> IndexEntryHeader {
        *self
    }
}

/// The `IndexEntryHeader` that the first 16 bytes of `b` hold.
pub open spec fn spec_index_entry_header(b: Seq<u8>) -> IndexEntryHeader {
    IndexEntryHeader {
        file_reference: spec_file_reference_number(b.subrange(0, 8)),
        index_entry_length: le_at(b, 8, 2) as u16,
        stream_length: le_at(b, 10, 2) as u16,
        flags: IndexEntryFlags { bits: b[12] },
    }
}

impl BinarySize for IndexEntryHeader {
    const SIZE: usize = 16;
}

impl BinaryParse for IndexEntryHeader {
    open spec fn spec_parse(input: Seq<u8>) -> Option<IndexEntryHeader> {
        if input.len() < 16 {
            None
        } else {
            Some(spec_index_entry_header(input))
        }
    }

    fn parse(input: &[u8]) -> (res: Result<IndexEntryHeader, ParseError>) {
        if input.len() < 16 {
            return Err(ParseError::TooShort);
        }
        Ok(
            IndexEntryHeader {
                file_reference: file_reference_number_at(input, 0),
                index_entry_length: read_le_uint(input, 8, 2) as u16,
                stream_length: read_le_uint(input, 10, 2) as u16,
                flags: IndexEntryFlags { bits: input[12] },
            },
        )
    }
}

/// Key of an `$SDH` index entry.
#[derive(Debug, Clone, Copy, PartialEq, Eq)]
pub struct SdhIndexKey {
    pub hash_key: u32,
    pub security_id_key: u32,
}

impl View for SdhIndexKey {
    type V = SdhIndexKey;

    open spec fn view(&self) -> SdhIndexKey {
        *self
    }
}

/// The `SdhIndexKey` that the first 8 bytes of `b` hold.
pub open spec fn spec_sdh_index_key(b: Seq<u8>) -> SdhIndexKey {
    SdhIndexKey {
        hash_key: le_at(b, 0, 4) as u32,
        security_id_key: le_at(b, 4, 4) as u32,
    }
}

impl BinarySize for SdhIndexKey {
    const SIZE: usize = 8;
}

impl BinaryParse for SdhIndexKey {
    open spec fn spec_parse(input: Seq<u8>) -> Option<SdhIndexKey> {
        if input.len() < 8 {
            None
        } else {
            Some(spec_sdh_index_key(input))
        }
    }

    fn parse(input: &[u8]) -> (res: Result<SdhIndexKey, ParseError>) {
        if input.len() < 8 {
            return Err(ParseError::TooShort);
        }
        Ok(
            SdhIndexKey {
                hash_key: read_le_uint(input, 0, 4) as u32,
                security_id_key: read_le_uint(input, 4, 4) as u32,
            },
        )
    }
}

/// Value of an `$SDH` index entry.
#[derive(Debug)]
pub struct SdhIndexValue {
    pub hash_key: u32,
    pub security_id_key: u32,
    /// Offset of the security descriptor in `$SDS`.
    pub security_descriptor_offset: u64,
    /// Size of the security descriptor in `$SDS`.
    pub security_descriptor_size: u32,
    pub padding: String,
}

/// A `SdhIndexValue` with its text taken as characters.
pub struct SdhIndexValueView {
    pub hash_key: u32,
    pub security_id_key: u32,
    pub security_descriptor_offset: u64,
    pub security_descriptor_size: u32,
    pub padding: Seq<char>,
}

impl View for SdhIndexValue {
    type V = SdhIndexValueView;

    open spec fn view(&self) -> SdhIndexValueView {
        SdhIndexValueView {
            hash_key: self.hash_key,
            security_id_key: self.security_id_key,
            security_descriptor_offset: self.security_descriptor_offset,
            security_descriptor_size: self.security_descriptor_size,
            padding: self.padding@,
        }
    }
}

/// The `SdhIndexValue` that the first 24 bytes of `b` hold.
pub open spec fn spec_sdh_index_value(b: Seq<u8>) -> SdhIndexValueView {
    SdhIndexValueView {
        hash_key: le_at(b, 0, 4) as u32,
        security_id_key: le_at(b, 4, 4) as u32,
        security_descriptor_offset: le_at(b, 8, 8) as u64,
        security_descriptor_size: le_at(b, 16, 4) as u32,
        padding: spec_utf16_or_empty(le_units(b.subrange(20, 24))),
    }
}

impl BinarySize for SdhIndexValue {
    const SIZE: usize = 24;
}

impl BinaryParse for SdhIndexValue {
    open spec fn spec_parse(input: Seq<u8>) -> Option<SdhIndexValueView> {
        if input.len() < 24 {
            None
        } else {
            Some(spec_sdh_index_value(input))
        }
    }

    fn parse(input: &[u8]) -> (res: Result<SdhIndexValue, ParseError>) {
        if input.len() < 24 {
            return Err(ParseError::TooShort);
        }
        Ok(
            SdhIndexValue {
                hash_key: read_le_uint(input, 0, 4) as u32,
                security_id_key: read_le_uint(input, 4, 4) as u32,
                security_descriptor_offset: read_le_uint(input, 8, 8) as u64,
                security_descriptor_size: read_le_uint(input, 16, 4) as u32,
                padding: utf16_or_empty(read_le_units(&input[20..24]).as_slice()),
            },
        )
    }
}

/// Key of an `$SII` index entry.
#[derive(Debug, Clone, Copy, PartialEq, Eq)]
pub struct SiiIndexKey {
    pub security_id: u32,
}

impl View for SiiIndexKey {
    type V = SiiIndexKey;

    open spec fn view(&self) -> SiiIndexKey {
        *self
    }
}

/// The `SiiIndexKey` that the first 4 bytes of `b` hold.
pub open spec fn spec_sii_index_key(b: Seq<u8>) -> SiiIndexKey {
    SiiIndexKey {
        security_id: le_at(b, 0, 4) as u32,
    }
}

impl BinarySize for SiiIndexKey {
    const SIZE: usize = 4;
}

impl BinaryParse for SiiIndexKey {
    open spec fn spec_parse(input: Seq<u8>) -> Option<SiiIndexKey> {
        if input.len() < 4 {
            None
        } else {
            Some(spec_sii_index_key(input))
        }
    }

    fn parse(input: &[u8]) -> (res: Result<SiiIndexKey, ParseError>) {
        if input.len() < 4 {
            return Err(ParseError::TooShort);
        }
        Ok(
            SiiIndexKey {
                security_id: read_le_uint(input, 0, 4) as u32,
            },
        )
    }
}

/// Value of an `$SII` index entry.
#[derive(Debug, Clone, Copy, PartialEq, Eq)]
pub struct SiiIndexValue {
    pub hash: u32,
    pub security_id: u32,
    pub security_descriptor_offset: u64,
    pub security_descriptor_size: u32,
}

impl View for SiiIndexValue {
    type V = SiiIndexValue;

    open spec fn view(&self) -> SiiIndexValue {
        *self
    }
}

/// The `SiiIndexValue` that the first 20 bytes of `b` hold.
pub open spec fn spec_sii_index_value(b: Seq<u8>) -> SiiIndexValue {
    SiiIndexValue {
        hash: le_at(b, 0, 4) as u32,
        security_id: le_at(b, 4, 4) as u32,
        security_descriptor_offset: le_at(b, 8, 8) as u64,
        security_descriptor_size: le_at(b, 16, 4) as u32,
    }
}

impl BinarySize for SiiIndexValue {
    const SIZE: usize = 20;
}

impl BinaryParse for SiiIndexValue {
    open spec fn spec_parse(input: Seq<u8>) -> Option<SiiIndexValue> {
        if input.len() < 20 {
            None
        } else {
            Some(spec_sii_index_value(input))
        }
    }

    fn parse(input: &[u8]) -> (res: Result<SiiIndexValue, ParseError>) {
        if input.len() < 20 {
            return Err(ParseError::TooShort);
        }
        Ok(
            SiiIndexValue {
                hash: read_le_uint(input, 0, 4) as u32,
                security_id: read_le_uint(input, 4, 4) as u32,
                security_descriptor_offset: read_le_uint(input, 8, 8) as u64,
                security_descriptor_size: read_le_uint(input, 16, 4) as u32,
            },
        )
    }
}

/// Value of a `$Q` quota index entry.
#[derive(Debug, Clone, Copy, PartialEq, Eq)]
pub struct QuotaIndexValue {
    pub version: u32,
    pub flags: QuotaFlags,
    pub bytes_used: u64,
    pub change_time: u64,
    pub warning_limit: u64,
    pub hard_limit: u64,
    pub exceeded_time: u64,
}

impl View for QuotaIndexValue {
    type V = QuotaIndexValue;

    open spec fn view(&self) -> QuotaIndexValue {
        *self
    }
}

/// The `QuotaIndexValue` that the first 48 bytes of `b` hold.
pub open spec fn spec_quota_index_value(b: Seq<u8>) -> QuotaIndexValue {
    QuotaIndexValue {
        version: le_at(b, 0, 4) as u32,
        flags: QuotaFlags { bits: le_at(b, 4, 4) as u32 },
        bytes_used: le_at(b, 8, 8) as u64,
        change_time: le_at(b, 16, 8) as u64,
        warning_limit: le_at(b, 24, 8) as u64,
        hard_limit: le_at(b, 32, 8) as u64,
        exceeded_time: le_at(b, 40, 8) as u64,
    }
}

impl BinarySize for QuotaIndexValue {
    const SIZE: usize = 48;
}

impl BinaryParse for QuotaIndexValue {
    open spec fn spec_parse(input: Seq<u8>) -> Option<QuotaIndexValue> {
        if input.len() < 48 {
            None
        } else {
            Some(spec_quota_index_value(input))
        }
    }

    fn parse(input: &[u8]) -> (res: Result<QuotaIndexValue, ParseError>) {
        if input.len() < 48 {
            return Err(ParseError::TooShort);
        }
        Ok(
            QuotaIndexValue {
                version: read_le_uint(input, 0, 4) as u32,
                flags: QuotaFlags { bits: read_le_uint(input, 4, 4) as u32 },
                bytes_used: read_le_uint(input, 8, 8) as u64,
                change_time: read_le_uint(input, 16, 8) as u64,
                warning_limit: read_le_uint(input, 24, 8) as u64,
                hard_limit: read_le_uint(input, 32, 8) as u64,
                exceeded_time: read_le_uint(input, 40, 8) as u64,
            },
        )
    }
}

/// The `$EA_INFORMATION` attribute.
#[derive(Debug, Clone, Copy, PartialEq, Eq)]
pub struct ExtendedAttributeInformation {
    pub extended_attributes_packed_size: u16,
    pub extended_attributes_num: u16,
    pub extended_attributes_unpacked_size: u32,
}

impl View for ExtendedAttributeInformation {
    type V = ExtendedAttributeInformation;

    open spec fn view(&self) -> ExtendedAttributeInformation {
        *self
    }
}

/// The `ExtendedAttributeInformation` that the first 8 bytes of `b` hold.
pub open spec fn spec_extended_attribute_information(b: Seq<u8>) -> ExtendedAttributeInformation {
    ExtendedAttributeInformation {
        extended_attributes_packed_size: le_at(b, 0, 2) as u16,
        extended_attributes_num: le_at(b, 2, 2) as u16,
        extended_attributes_unpacked_size: le_at(b, 4, 4) as u32,
    }
}

impl BinarySize for ExtendedAttributeInformation {
    const SIZE: usize = 8;
}

impl BinaryParse for ExtendedAttributeInformation {
    open spec fn spec_parse(input: Seq<u8>) -> Option<ExtendedAttributeInformation> {
        if input.len() < 8 {
            None
        } else {
            Some(spec_extended_attribute_information(input))
        }
    }

    fn parse(input: &[u8]) -> (res: Result<ExtendedAttributeInformation, ParseError>) {
        if input.len() < 8 {
            return Err(ParseError::TooShort);
        }
        Ok(
            ExtendedAttributeInformation {
                extended_attributes_packed_size: read_le_uint(input, 0, 2) as u16,
                extended_attributes_num: read_le_uint(input, 2, 2) as u16,
                extended_attributes_unpacked_size: read_le_uint(input, 4, 4) as u32,
            },
        )
    }
}

/// The header of one extended attribute.
#[derive(Debug, Clone, Copy, PartialEq, Eq)]
pub struct ExtendedAttributeHeader {
    pub next_ea_offset: u32,
    pub flags: ExtendedAttributeFlags,
    pub name_length: u8,
    pub value_length: u16,
}

impl View for ExtendedAttributeHeader {
    type V = ExtendedAttributeHeader;

    open spec fn view(&self) -> ExtendedAttributeHeader {
        *self
    }
}

/// The `ExtendedAttributeHeader` that the first 8 bytes of `b` hold.
pub open spec fn spec_extended_attribute_header(b: Seq<u8>) -> ExtendedAttributeHeader {
    ExtendedAttributeHeader {
        next_ea_offset: le_at(b, 0, 4) as u32,
        flags: ExtendedAttributeFlags { bits: b[4] },
        name_length: b[5],
        value_length: le_at(b, 6, 2) as u16,
    }
}

impl BinarySize for ExtendedAttributeHeader {
    const SIZE: usize = 8;
}

impl BinaryParse for ExtendedAttributeHeader {
    open spec fn spec_parse(input: Seq<u8>) -> Option<ExtendedAttributeHeader> {
        if input.len() < 8 {
            None
        } else {
            Some(spec_extended_attribute_header(input))
        }
    }

    fn parse(input: &[u8]) -> (res: Result<ExtendedAttributeHeader, ParseError>) {
        if input.len() < 8 {
            return Err(ParseError::TooShort);
        }
        Ok(
            ExtendedAttributeHeader {
                next_ea_offset: read_le_uint(input, 0, 4) as u32,
                flags: ExtendedAttributeFlags { bits: input[4] },
                name_length: input[5],
                value_length: read_le_uint(input, 6, 2) as u16,
            },
        )
    }
}

/// The header of a `$REPARSE_POINT` attribute.
#[derive(Debug, Clone, Copy, PartialEq, Eq)]
pub struct ReparsePointHeader {
    pub reparse_tag: ReparseTag,
    pub reparse_data_length: u16,
}

impl View for ReparsePointHeader {
    type V = ReparsePointHeader;

    open spec fn view(&self) -> ReparsePointHeader {
        *self
    }
}

/// The `ReparsePointHeader` that the first 8 bytes of `b` hold.
pub open spec fn spec_reparse_point_header(b: Seq<u8>) -> ReparsePointHeader {
    ReparsePointHeader {
        reparse_tag: ReparseTag { bits: le_at(b, 0, 4) as u32 },
        reparse_data_length: le_at(b, 4, 2) as u16,
    }
}

impl BinarySize for ReparsePointHeader {
    const SIZE: usize = 8;
}

impl BinaryParse for ReparsePointHeader {
    open spec fn spec_parse(input: Seq<u8>) -> Option<ReparsePointHeader> {
        if input.len() < 8 {
            None
        } else {
            Some(spec_reparse_point_header(input))
        }
    }

    fn parse(input: &[u8]) -> (res: Result<ReparsePointHeader, ParseError>) {
        if input.len() < 8 {
            return Err(ParseError::TooShort);
        }
        Ok(
            ReparsePointHeader {
                reparse_tag: ReparseTag { bits: read_le_uint(input, 0, 4) as u32 },
                reparse_data_length: read_le_uint(input, 4, 2) as u16,
            },
        )
    }
}

/// Where the names of a symbolic link or mount point lie.
#[derive(Debug, Clone, Copy, PartialEq, Eq)]
pub struct ReparseDataHeader {
    pub substitute_name_offset: u16,
    pub substitute_name_length: u16,
    pub print_name_offset: u16,
    pub print_name_length: u16,
}

impl View for ReparseDataHeader {
    type V = ReparseDataHeader;

    open spec fn view(&self) -> ReparseDataHeader {
        *self
    }
}

/// The `ReparseDataHeader` that the first 8 bytes of `b` hold.
pub open spec fn spec_reparse_data_header(b: Seq<u8>) -> ReparseDataHeader {
    ReparseDataHeader {
        substitute_name_offset: le_at(b, 0, 2) as u16,
        substitute_name_length: le_at(b, 2, 2) as u16,
        print_name_offset: le_at(b, 4, 2) as u16,
        print_name_length: le_at(b, 6, 2) as u16,
    }
}

impl BinarySize for ReparseDataHeader {
    const SIZE: usize = 8;
}

impl BinaryParse for ReparseDataHeader {
    open spec fn spec_parse(input: Seq<u8>) -> Option<ReparseDataHeader> {
        if input.len() < 8 {
            None
        } else {
            Some(spec_reparse_data_header(input))
        }
    }

    fn parse(input: &[u8]) -> (res: Result<ReparseDataHeader, ParseError>) {
        if input.len() < 8 {
            return Err(ParseError::TooShort);
        }
        Ok(
            ReparseDataHeader {
                substitute_name_offset: read_le_uint(input, 0, 2) as u16,
                substitute_name_length: read_le_uint(input, 2, 2) as u16,
                print_name_offset: read_le_uint(input, 4, 2) as u16,
                print_name_length: read_le_uint(input, 6, 2) as u16,
            },
        )
    }
}

/// A `$FILE_NAME` attribute, or the key of a `$I30` directory index entry.
#[derive(Debug)]
pub struct FileName {
    pub reference_to_parent_dir: FileReferenceNumber,
    pub datetime_file_creation: u64,
    pub datetime_file_modification: u64,
    pub datetime_mft_modification: u64,
    pub datetime_file_reading: u64,
    pub file_size_allocated_on_disk: u64,
    pub real_file_size: u64,
    pub flags: DosFilePermissionFlags,
    pub extended_attributes_and_reparse: u32,
    /// Length of the name in UTF-16 units.
    pub name_size: u8,
    pub namespace: u8,
    pub name: String,
}

/// A `FileName` with its name taken as characters.
pub struct FileNameView {
    pub reference_to_parent_dir: FileReferenceNumber,
    pub datetime_file_creation: u64,
    pub datetime_file_modification: u64,
    pub datetime_mft_modification: u64,
    pub datetime_file_reading: u64,
    pub file_size_allocated_on_disk: u64,
    pub real_file_size: u64,
    pub flags: DosFilePermissionFlags,
    pub extended_attributes_and_reparse: u32,
    pub name_size: u8,
    pub namespace: u8,
    pub name: Seq<char>,
}

impl View for FileName {
    type V = FileNameView;

    open spec fn view(&self) -> FileNameView {
        FileNameView {
            reference_to_parent_dir: self.reference_to_parent_dir,
            datetime_file_creation: self.datetime_file_creation,
            datetime_file_modification: self.datetime_file_modification,
            datetime_mft_modification: self.datetime_mft_modification,
            datetime_file_reading: self.datetime_file_reading,
            file_size_allocated_on_disk: self.file_size_allocated_on_disk,
            real_file_size: self.real_file_size,
            flags: self.flags,
            extended_attributes_and_reparse: self.extended_attributes_and_reparse,
            name_size: self.name_size,
            namespace: self.namespace,
            name: self.name@,
        }
    }
}

/// Bytes of a file name attribute in front of its name.
pub const FILE_NAME_FIXED_SIZE: usize = 66;

/// The UTF-16 units of the name of the file name attribute at the start of `b`.
pub open spec fn spec_file_name_units(b: Seq<u8>) -> Seq<u16> {
    le_units(b.subrange(66, 66 + 2 * b[64]))
}

/// The file name attribute at the start of `b` with the name `name`.
pub open spec fn spec_file_name(b: Seq<u8>, name: Seq<char>) -> FileNameView {
    FileNameView {
        reference_to_parent_dir: spec_file_reference_number(b.subrange(0, 8)),
        datetime_file_creation: le_at(b, 8, 8) as u64,
        datetime_file_modification: le_at(b, 16, 8) as u64,
        datetime_mft_modification: le_at(b, 24, 8) as u64,
        datetime_file_reading: le_at(b, 32, 8) as u64,
        file_size_allocated_on_disk: le_at(b, 40, 8) as u64,
        real_file_size: le_at(b, 48, 8) as u64,
        flags: DosFilePermissionFlags { bits: le_at(b, 56, 4) as u32 },
        extended_attributes_and_reparse: le_at(b, 60, 4) as u32,
        name_size: b[64],
        namespace: b[65],
        name,
    }
}

impl BinaryParse for FileName {
    /// The 66 fixed bytes must be present, followed by `name_size` UTF-16 units of valid
    /// text.
    open spec fn spec_parse(input: Seq<u8>) -> Option<FileNameView> {
        if input.len() < 66 || 66 + 2 * input[64] > input.len() {
            None
        } else {
            match spec_utf16_decode(spec_file_name_units(input)) {
                Some(name) => Some(spec_file_name(input, name)),
                None => None,
            }
        }
    }

    fn parse(input: &[u8]) -> (res: Result<FileName, ParseError>) {
        if input.len() < FILE_NAME_FIXED_SIZE {
            return Err(ParseError::TooShort);
        }
        let name_size = input[64];
        let name_bytes = name_size as usize * 2;
        if name_bytes > input.len() - FILE_NAME_FIXED_SIZE {
            return Err(ParseError::TooShort);
        }
        let units = read_le_units(&input[66..66 + name_bytes]);
        let name = match string_from_utf16(units.as_slice()) {
            Some(name) => name,
            None => {
                return Err(ParseError::InvalidUtf16);
            },
        };
        Ok(
            FileName {
                reference_to_parent_dir: file_reference_number_at(input, 0),
                datetime_file_creation: read_le_uint(input, 8, 8),
                datetime_file_modification: read_le_uint(input, 16, 8),
                datetime_mft_modification: read_le_uint(input, 24, 8),
                datetime_file_reading: read_le_uint(input, 32, 8),
                file_size_allocated_on_disk: read_le_uint(input, 40, 8),
                real_file_size: read_le_uint(input, 48, 8),
                flags: DosFilePermissionFlags { bits: read_le_uint(input, 56, 4) as u32 },
                extended_attributes_and_reparse: read_le_uint(input, 60, 4) as u32,
                name_size,
                namespace: input[65],
                name,
            },
        )
    }
}

/// A security identifier, in its text form `S-R-A-S1-S2-...`.
#[derive(Debug)]
pub struct SecurityIdentifier(pub String);

impl View for SecurityIdentifier {
    type V = Seq<char>;

    open spec fn view(&self) -> Seq<char> {
        self.0@
    }
}

/// Size in bytes of a SID with `sub_authority_count` sub-authorities.
pub open spec fn spec_sid_size(sub_authority_count: u8) -> int {
    8 + 4 * sub_authority_count
}

/// The text of the first `k` sub-authorities of the SID at the start of `b`: each written
/// in decimal after a hyphen.
pub open spec fn spec_sub_authorities_text(b: Seq<u8>, k: nat) -> Seq<char>
    decreases k,
{
    if k == 0 {
        seq![]
    } else {
        spec_sub_authorities_text(b, (k - 1) as nat) + seq!['-'] + spec_decimal(
            le_at(b, 8 + 4 * (k - 1), 4),
        )
    }
}

/// The text of the SID at the start of `b`: `S-`, the revision, a hyphen, the 48-bit
/// big-endian identifier authority, and the little-endian 32-bit sub-authorities, all in
/// decimal.
pub open spec fn spec_sid_text(b: Seq<u8>) -> Seq<char> {
    seq!['S', '-'] + spec_decimal(b[0] as nat) + seq!['-'] + spec_decimal(be_at(b, 2, 6))
        + spec_sub_authorities_text(b, b[1] as nat)
}

/// The sub-authorities' text does not read the count byte.
proof fn lemma_sub_authorities_text_count_byte(b: Seq<u8>, x: u8, k: nat)
    requires
        b.len() >= 8 + 4 * k,
    ensures
        spec_sub_authorities_text(b.update(1, x), k) == spec_sub_authorities_text(b, k),
    decreases k,
{
    if k > 0 {
        lemma_sub_authorities_text_count_byte(b, x, (k - 1) as nat);
        let o = 8 + 4 * (k - 1);
        assert(b.update(1, x).subrange(o, o + 4) =~= b.subrange(o, o + 4));
    }
}

/// The text of a SID, read straight from its bytes. With no sub-authority it is `S-`, the
/// revision (byte 0), a hyphen and the 48-bit big-endian identifier authority (bytes 2 to 8),
/// in decimal. With `n + 1` sub-authorities (byte 1), it is the text the same bytes give with
/// `n`, followed by a hyphen and the decimal of the little-endian 32-bit sub-authority at byte
/// `8 + 4n`: so every one of the sub-authorities is written, in order.
pub proof fn lemma_sid_text_fields(input: Seq<u8>)
    requires
        <SecurityIdentifier as BinaryParse>::spec_parse(input) is Some,
    ensures
        input[1] == 0 ==> <SecurityIdentifier as BinaryParse>::spec_parse(input)->0 == seq![
            'S',
            '-',
        ] + spec_decimal(input[0] as nat) + seq!['-'] + spec_decimal(be_at(input, 2, 6)),
        input[1] > 0 ==> {
            let n = (input[1] - 1) as u8;
            &&& <SecurityIdentifier as BinaryParse>::spec_parse(input.update(1, n)) is Some
            &&& <SecurityIdentifier as BinaryParse>::spec_parse(input)->0
                == <SecurityIdentifier as BinaryParse>::spec_parse(input.update(1, n))->0 + seq![
                '-',
            ] + spec_decimal(le_at(input, 8 + 4 * n, 4))
        },
{
    if input[1] > 0 {
        let n = (input[1] - 1) as u8;
        let b2 = input.update(1, n);
        lemma_sub_authorities_text_count_byte(input, n, n as nat);
        assert(b2.subrange(2, 8) =~= input.subrange(2, 8));
        assert(spec_sid_text(input) =~= spec_sid_text(b2) + seq!['-'] + spec_decimal(
            le_at(input, 8 + 4 * n, 4),
        ));
    } else {
        assert(spec_sid_text(input) =~= seq!['S', '-'] + spec_decimal(input[0] as nat) + seq!['-']
            + spec_decimal(be_at(input, 2, 6)));
    }
}

impl BinaryParse for SecurityIdentifier {
    /// The revision, the count of sub-authorities, the authority and all sub-authorities
    /// must be present.
    open spec fn spec_parse(input: Seq<u8>) -> Option<Seq<char>> {
        if input.len() < 8 || input.len() < spec_sid_size(input[1]) {
            None
        } else {
            Some(spec_sid_text(input))
        }
    }

    fn parse(input: &[u8]) -> (res: Result<SecurityIdentifier, ParseError>) {
        if input.len() < 8 {
            return Err(ParseError::TooShort);
        }
        let revision = input[0];
        let sub_authority_count = input[1];
        if input.len() < SecurityIdentifier::calculate_size(sub_authority_count) {
            return Err(ParseError::TooShort);
        }
        let nt_authority = read_be_uint(input, 2, 6);
        let mut id = String::new();
        push_char(&mut id, 'S');
        push_char(&mut id, '-');
        push_decimal(&mut id, revision as u64);
        push_char(&mut id, '-');
        push_decimal(&mut id, nt_authority);
        let ghost prefix = id@;
        let mut i: u8 = 0;
        while i < sub_authority_count
            invariant
                i <= sub_authority_count == input@[1],
                input@.len() >= 8 + 4 * sub_authority_count,
                id@ == prefix + spec_sub_authorities_text(input@, i as nat),
            decreases sub_authority_count - i,
        {
            let offset = 8 + i as usize * 4;
            let sub_authority = read_le_uint(input, offset, 4);
            push_char(&mut id, '-');
            push_decimal(&mut id, sub_authority);
            i = i + 1;
            assert(id@ =~= prefix + spec_sub_authorities_text(input@, i as nat));
        }
        assert(id@ =~= spec_sid_text(input@));
        Ok(SecurityIdentifier(id))
    }
}

impl SecurityIdentifier {
    /// Size of a SID: revision (1 byte), sub-authority count (1), identifier authority (6)
    /// and 4 bytes for each sub-authority.
    pub fn calculate_size(sub_authority_count: u8) -> (size: usize)
        ensures
            size == spec_sid_size(sub_authority_count),
    {
        1 + 1 + 6 + (sub_authority_count as usize * 4)
    }
}

impl CommonAttributeHeader {
    /// Whether the attribute's value is stored inside the record.
    pub fn is_resident(&self) -> (res: bool)
        ensures
            res == (self.non_resident_flag == 0),
    {
        self.non_resident_flag == 0
    }
}

/// The header of an attribute, by where its value is stored and whether it has a name.
#[derive(Debug)]
pub enum AttributeHeader {
    ResidentUnnamed { common: CommonAttributeHeader, resident: ResidentAttributeHeader },
    ResidentNamed {
        common: CommonAttributeHeader,
        resident: ResidentAttributeHeader,
        name: String,
    },
    NonResidentUnnamed {
        common: CommonAttributeHeader,
        non_resident: NonResidentAttributeHeader,
    },
    NonResidentNamed {
        common: CommonAttributeHeader,
        non_resident: NonResidentAttributeHeader,
        name: String,
    },
}

/// An `AttributeHeader` with its name taken as characters.
pub enum AttributeHeaderView {
    ResidentUnnamed { common: CommonAttributeHeader, resident: ResidentAttributeHeader },
    ResidentNamed {
        common: CommonAttributeHeader,
        resident: ResidentAttributeHeader,
        name: Seq<char>,
    },
    NonResidentUnnamed {
        common: CommonAttributeHeader,
        non_resident: NonResidentAttributeHeader,
    },
    NonResidentNamed {
        common: CommonAttributeHeader,
        non_resident: NonResidentAttributeHeader,
        name: Seq<char>,
    },
}

impl View for AttributeHeader {
    type V = AttributeHeaderView;

    open spec fn view(&self) -> AttributeHeaderView {
        match self {
            AttributeHeader::ResidentUnnamed { common, resident } => {
                AttributeHeaderView::ResidentUnnamed { common: *common, resident: *resident }
            },
            AttributeHeader::ResidentNamed { common, resident, name } => {
                AttributeHeaderView::ResidentNamed {
                    common: *common,
                    resident: *resident,
                    name: name@,
                }
            },
            AttributeHeader::NonResidentUnnamed { common, non_resident } => {
                AttributeHeaderView::NonResidentUnnamed {
                    common: *common,
                    non_resident: *non_resident,
                }
            },
            AttributeHeader::NonResidentNamed { common, non_resident, name } => {
                AttributeHeaderView::NonResidentNamed {
                    common: *common,
                    non_resident: *non_resident,
                    name: name@,
                }
            },
        }
    }
}

impl AttributeHeaderView {
    /// The part of the header that every form of attribute has.
    pub open spec fn common(self) -> CommonAttributeHeader {
        match self {
            AttributeHeaderView::ResidentUnnamed { common, .. } => common,
            AttributeHeaderView::ResidentNamed { common, .. } => common,
            AttributeHeaderView::NonResidentUnnamed { common, .. } => common,
            AttributeHeaderView::NonResidentNamed { common, .. } => common,
        }
    }

    /// The length of the value of a resident attribute; 0 for a non-resident one.
    pub open spec fn resident_value_length(self) -> u32 {
        match self {
            AttributeHeaderView::ResidentUnnamed { resident, .. } => resident.attribute_length,
            AttributeHeaderView::ResidentNamed { resident, .. } => resident.attribute_length,
            _ => 0,
        }
    }

    /// The offset of the value of a resident attribute from the start of the attribute.
    pub open spec fn resident_offset(self) -> Option<u16> {
        match self {
            AttributeHeaderView::ResidentUnnamed { resident, .. } => Some(
                resident.attritube_offset,
            ),
            AttributeHeaderView::ResidentNamed { resident, .. } => Some(resident.attritube_offset),
            _ => None,
        }
    }

    /// The name of a named attribute.
    pub open spec fn name(self) -> Option<Seq<char>> {
        match self {
            AttributeHeaderView::ResidentNamed { name, .. } => Some(name),
            AttributeHeaderView::NonResidentNamed { name, .. } => Some(name),
            _ => None,
        }
    }
}

impl AttributeHeader {
    /// The type code of the attribute.
    pub fn attribute_type(&self) -> (t: u32)
        ensures
            t == self@.common().attribute_type,
    {
        match self {
            AttributeHeader::ResidentUnnamed { common, .. } => common.attribute_type,
            AttributeHeader::ResidentNamed { common, .. } => common.attribute_type,
            AttributeHeader::NonResidentUnnamed { common, .. } => common.attribute_type,
            AttributeHeader::NonResidentNamed { common, .. } => common.attribute_type,
        }
    }

    /// The length of the value of a resident attribute; 0 for a non-resident one.
    pub fn resident_attribute_value_length(&self) -> (len: u32)
        ensures
            len == self@.resident_value_length(),
    {
        match self {
            AttributeHeader::ResidentUnnamed { resident, .. } => resident.attribute_length,
            AttributeHeader::ResidentNamed { resident, .. } => resident.attribute_length,
            _ => 0,
        }
    }

    /// The offset of the value of a resident attribute from the start of the attribute.
    pub fn resident_attribute_offset(&self) -> (offset: Option<u16>)
        ensures
            offset == self@.resident_offset(),
    {
        match self {
            AttributeHeader::ResidentUnnamed { resident, .. } => Some(resident.attritube_offset),
            AttributeHeader::ResidentNamed { resident, .. } => Some(resident.attritube_offset),
            _ => None,
        }
    }

    /// The length of the whole attribute in bytes.
    pub fn total_attribute_length(&self) -> (len: usize)
        ensures
            len == self@.common().length,
    {
        (match self {
            AttributeHeader::ResidentUnnamed { common, .. } => common.length,
            AttributeHeader::ResidentNamed { common, .. } => common.length,
            AttributeHeader::NonResidentUnnamed { common, .. } => common.length,
            AttributeHeader::NonResidentNamed { common, .. } => common.length,
        }) as usize
    }

    /// The name of a named attribute.
    pub fn name(&self) -> (name: Option<&str>)
        ensures
            match self@.name() {
                Some(n) => name matches Some(s) && s@ == n,
                None => name is None,
            },
    {
        match self {
            AttributeHeader::ResidentNamed { name, .. } => Some(name.as_str()),
            AttributeHeader::NonResidentNamed { name, .. } => Some(name.as_str()),
            _ => None,
        }
    }
}

/// The text of the `name_length` UTF-16 units in `w` at `p`, if they are inside `w` and valid.
pub open spec fn spec_name_at(w: Seq<u8>, p: int, name_length: u8) -> Option<Seq<char>> {
    if p + 2 * name_length > w.len() {
        None
    } else {
        spec_utf16_decode(le_units(w.subrange(p, p + 2 * name_length)))
    }
}

/// The attribute header that starts at `p` in `w`, and where it ends: the common part, the
/// resident or non-resident part after it, then the name when there is one.
pub open spec fn spec_attribute_header(w: Seq<u8>, p: int) -> Option<(AttributeHeaderView, int)> {
    match spec_read_at::<CommonAttributeHeader>(w, p, 16) {
        None => None,
        Some(common) => {
            if common.non_resident_flag == 0 {
                match spec_read_at::<ResidentAttributeHeader>(w, p + 16, 8) {
                    None => None,
                    Some(resident) => {
                        if common.name_length > 0 {
                            match spec_name_at(w, p + 24, common.name_length) {
                                None => None,
                                Some(name) => Some(
                                    (
                                        AttributeHeaderView::ResidentNamed {
                                            common,
                                            resident,
                                            name,
                                        },
                                        p + 24 + 2 * common.name_length,
                                    ),
                                ),
                            }
                        } else {
                            Some(
                                (
                                    AttributeHeaderView::ResidentUnnamed { common, resident },
                                    p + 24,
                                ),
                            )
                        }
                    },
                }
            } else {
                match spec_read_at::<NonResidentAttributeHeader>(w, p + 16, 48) {
                    None => None,
                    Some(non_resident) => {
                        if common.name_length > 0 {
                            match spec_name_at(w, p + 64, common.name_length) {
                                None => None,
                                Some(name) => Some(
                                    (
                                        AttributeHeaderView::NonResidentNamed {
                                            common,
                                            non_resident,
                                            name,
                                        },
                                        p + 64 + 2 * common.name_length,
                                    ),
                                ),
                            }
                        } else {
                            Some(
                                (
                                    AttributeHeaderView::NonResidentUnnamed {
                                        common,
                                        non_resident,
                                    },
                                    p + 64,
                                ),
                            )
                        }
                    },
                }
            }
        },
    }
}

/// Whether a read on `disk` changed nothing but the cursor.
pub open spec fn same_window(a: BufferedMappedDisk, b: BufferedMappedDisk) -> bool {
    &&& a.disk_contents() == b.disk_contents()
    &&& a.start() == b.start()
    &&& a.bytes() == b.bytes()
    &&& a.size() == b.size()
    &&& a.window() == b.window()
}

/// Reads the name of an attribute (`name_length` UTF-16 units) at the cursor.
pub fn parse_attribute_name(disk: &mut BufferedMappedDisk, attribute_header: &CommonAttributeHeader) -> (res:
    MappedDiskResult<String>)
    ensures
        same_window(*old(disk), *final(disk)),
        res is Ok <==> spec_name_at(old(disk).window(), old(disk).pos(), attribute_header.name_length)
            is Some,
        res matches Ok(name) ==> spec_name_at(
            old(disk).window(),
            old(disk).pos(),
            attribute_header.name_length,
        ) == Some(name@) && final(disk).pos() == old(disk).pos() + 2 * attribute_header.name_length,
{
    disk.read_string_utf16(attribute_header.name_length as usize * 2usize)
}

/// Reads the header of the attribute at the cursor, and the name that follows it.
pub fn parse_attribute_header(disk: &mut BufferedMappedDisk) -> (res: MappedDiskResult<
    AttributeHeader,
>)
    ensures
        same_window(*old(disk), *final(disk)),
        res is Ok <==> spec_attribute_header(old(disk).window(), old(disk).pos()) is Some,
        res matches Ok(h) ==> spec_attribute_header(old(disk).window(), old(disk).pos()) == Some(
            (h@, final(disk).pos()),
        ),
{
    let attribute_header = disk.read::<CommonAttributeHeader>()?;
    if attribute_header.is_resident() {
        let resident_attribute_header = disk.read::<ResidentAttributeHeader>()?;
        if attribute_header.name_length > 0 {
            let name = parse_attribute_name(disk, &attribute_header)?;
            Ok(
                AttributeHeader::ResidentNamed {
                    common: attribute_header,
                    resident: resident_attribute_header,
                    name,
                },
            )
        } else {
            Ok(
                AttributeHeader::ResidentUnnamed {
                    common: attribute_header,
                    resident: resident_attribute_header,
                },
            )
        }
    } else {
        let non_resident_attribute_header = disk.read::<NonResidentAttributeHeader>()?;
        if attribute_header.name_length > 0 {
            let name = parse_attribute_name(disk, &attribute_header)?;
            Ok(
                AttributeHeader::NonResidentNamed {
                    common: attribute_header,
                    non_resident: non_resident_attribute_header,
                    name,
                },
            )
        } else {
            Ok(
                AttributeHeader::NonResidentUnnamed {
                    common: attribute_header,
                    non_resident: non_resident_attribute_header,
                },
            )
        }
    }
}

/// A run of clusters of a non-resident attribute: its length in clusters, and its start as
/// an offset in clusters from the start of the previous run.
#[derive(Debug, Clone, Copy, PartialEq, Eq)]
pub struct DataRun {
    pub length: u64,
    pub offset: i64,
}

impl View for DataRun {
    type V = DataRun;

    open spec fn view(&self) -> DataRun {
        *self
    }
}

/// The value of the `n`-byte two's complement number whose unsigned value is `v`.
pub open spec fn spec_signed(v: nat, n: nat) -> int {
    if n > 0 && v >= pow256(n) / 2 {
        v - pow256(n)
    } else {
        v as int
    }
}

proof fn lemma_shift_pow256(h: u64)
    requires
        1 <= h <= 7,
    ensures
        (1i64 << (8 * h) as u64) == pow256(h as nat),
        (1i64 << ((8 * h - 1) as u64)) == pow256(h as nat) / 2,
{
    lemma_pow256_values();
    if h == 1 {
        assert((1i64 << 8u64) == 0x100 && (1i64 << 7u64) == 0x80) by (bit_vector);
    } else if h == 2 {
        assert((1i64 << 16u64) == 0x1_0000 && (1i64 << 15u64) == 0x8000) by (bit_vector);
    } else if h == 3 {
        assert((1i64 << 24u64) == 0x100_0000 && (1i64 << 23u64) == 0x80_0000) by (bit_vector);
    } else if h == 4 {
        assert((1i64 << 32u64) == 0x1_0000_0000 && (1i64 << 31u64) == 0x8000_0000)
            by (bit_vector);
    } else if h == 5 {
        assert((1i64 << 40u64) == 0x100_0000_0000 && (1i64 << 39u64) == 0x80_0000_0000)
            by (bit_vector);
    } else if h == 6 {
        assert((1i64 << 48u64) == 0x1_0000_0000_0000 && (1i64 << 47u64) == 0x8000_0000_0000)
            by (bit_vector);
    } else {
        assert((1i64 << 56u64) == 0x100_0000_0000_0000 && (1i64 << 55u64)
            == 0x80_0000_0000_0000) by (bit_vector);
    }
}

/// The bits of `x` below bit `s` split it into a multiple of `2^s` and a remainder, and the
/// sign extension from bit `s - 1` reads that remainder as a signed `s`-bit number.
proof fn lemma_sign_extend_low_bits(x: i64, s: u64)
    by (bit_vector)
    requires
        8 <= s <= 56,
    ensures
        0 <= (x & (((1i64 << s) - 1) as i64)) < (1i64 << s),
        x == (x >> s) * (1i64 << s) + (x & (((1i64 << s) - 1) as i64)),
        (x & (1i64 << ((s - 1) as u64))) != 0 <==> (x & (((1i64 << s) - 1) as i64)) >= (1i64 << ((s
            - 1) as u64)),
        (x & (1i64 << ((s - 1) as u64))) != 0 ==> (x | (!0i64 << s)) == (x & (((1i64 << s) - 1) as i64))
            - (1i64 << s),
{
}

/// Extends the sign of an offset stored in `high_nibble` bytes to 64 bits: when the top bit
/// of those bytes is set, every bit above them is set too. For `n = high_nibble` bytes and
/// `m` the offset modulo `256^n`, the result is `m - 256^n` where `m` has its top bit set, and
/// the offset unchanged otherwise.
pub fn sign_extend(offset: i64, high_nibble: u8) -> (res: i64)
    requires
        high_nibble <= 7,
    ensures
        high_nibble == 0 ==> res == offset,
        high_nibble > 0 ==> {
            let p = pow256(high_nibble as nat) as int;
            let m = (offset as int) % p;
            res == if m >= p / 2 {
                m - p
            } else {
                offset as int
            }
        },
        0 <= offset < pow256(high_nibble as nat) ==> res == spec_signed(
            offset as nat,
            high_nibble as nat,
        ),
{
    let mut offset = offset;
    let shift: u64 = high_nibble as u64 * 8;
    let ghost x = offset;
    proof {
        if high_nibble > 0 {
            lemma_shift_pow256(high_nibble as u64);
            lemma_sign_extend_low_bits(x, shift);
            let p = pow256(high_nibble as nat) as int;
            vstd::arithmetic::div_mod::lemma_fundamental_div_mod_converse(
                x as int,
                p,
                (x >> shift) as int,
                (x & (((1i64 << shift) - 1) as i64)) as int,
            );
            if 0 <= x < p {
                vstd::arithmetic::div_mod::lemma_small_mod(x as nat, p as nat);
            }
        }
    }
    if high_nibble > 0 && (offset & (1i64 << (shift - 1))) != 0 {
        let mask: i64 = !0i64 << shift;
        offset = offset | mask;
    }
    offset
}

/// The data runs listed at `p` in `w`, and where the list ends (its terminating zero byte).
///
/// Each run starts with a header byte whose low nibble is the size of the length field and
/// whose high nibble is the size of the offset field; the two little-endian fields follow.
/// Field sizes above eight bytes, and an eight-byte negative offset, cannot be decoded.
pub open spec fn spec_dataruns(w: Seq<u8>, p: int) -> Option<(Seq<DataRun>, int)>
    decreases w.len() - p,
{
    if p < 0 || p + 1 > w.len() {
        None
    } else if w[p] == 0 {
        Some((seq![], p))
    } else {
        let lo = (w[p] % 16) as int;
        let hi = (w[p] / 16) as int;
        if lo > 8 || hi > 8 || p + 1 + lo + hi > w.len() {
            None
        } else {
            let length = le_at(w, p + 1, lo);
            let v = le_at(w, p + 1 + lo, hi);
            if hi == 8 && v >= pow256(8) / 2 {
                None
            } else {
                match spec_dataruns(w, p + 1 + lo + hi) {
                    None => None,
                    Some((rest, end)) => Some(
                        (
                            seq![
                                DataRun {
                                    length: length as u64,
                                    offset: spec_signed(v, hi as nat) as i64,
                                },
                            ] + rest,
                            end,
                        ),
                    ),
                }
            }
        }
    }
}

/// `r` with `prefix` in front of its list.
pub open spec fn prepend_runs(prefix: Seq<DataRun>, r: Option<(Seq<DataRun>, int)>) -> Option<
    (Seq<DataRun>, int),
> {
    match r {
        Some((rest, end)) => Some((prefix + rest, end)),
        None => None,
    }
}

/// Reads the `n <= 8` bytes at the cursor as a little-endian unsigned integer.
fn read_le_field(disk: &mut BufferedMappedDisk, n: u8) -> (res: MappedDiskResult<u64>)
    requires
        n <= 8,
    ensures
        same_window(*old(disk), *final(disk)),
        res is Ok <==> old(disk).pos() + n <= old(disk).window().len(),
        res matches Ok(v) ==> v == le_at(old(disk).window(), old(disk).pos(), n as int)
            && final(disk).pos() == old(disk).pos() + n,
{
    let ghost w = disk.window();
    let p = disk.current_buffer_offset();
    let bytes = disk.read_bytes(n as usize)?;
    let v = read_le_uint(bytes, 0, n as usize);
    assert(bytes@.subrange(0, n as int) =~= w.subrange(p as int, p + n));
    Ok(v)
}

/// A list of data runs, read straight from its bytes. Where the header byte at `p` is not the
/// terminating zero, its low nibble `lo` is the size of the length field and its high nibble
/// `hi` that of the offset field, and the first run has as length the `lo`-byte little-endian
/// field after the header, and as offset the `hi`-byte field after that read as a
/// two's-complement number of `hi` bytes (negative when its top bit is set). The runs after it
/// are the list that starts just past its two fields, and the list ends where that one ends.
pub proof fn lemma_dataruns_decode(w: Seq<u8>, p: int)
    requires
        0 <= p < w.len(),
        w[p] != 0,
        spec_dataruns(w, p) is Some,
    ensures
        ({
            let (runs, end) = spec_dataruns(w, p)->0;
            let lo = (w[p] % 16) as int;
            let hi = (w[p] / 16) as int;
            let v = le_at(w, p + 1 + lo, hi);
            &&& runs.len() >= 1
            &&& runs[0].length == le_at(w, p + 1, lo)
            &&& runs[0].offset == if hi > 0 && v >= pow256(hi as nat) / 2 {
                v - pow256(hi as nat)
            } else {
                v as int
            }
            &&& spec_dataruns(w, p + 1 + lo + hi) == Some((runs.drop_first(), end))
        }),
{
    let lo = (w[p] % 16) as int;
    let hi = (w[p] / 16) as int;
    let v = le_at(w, p + 1 + lo, hi);
    lemma_le_nat_bound(w.subrange(p + 1, p + 1 + lo));
    lemma_le_nat_bound(w.subrange(p + 1 + lo, p + 1 + lo + hi));
    lemma_pow256_monotone(lo as nat, 8);
    lemma_pow256_monotone(hi as nat, 8);
    lemma_pow256_values();
    let rest = spec_dataruns(w, p + 1 + lo + hi)->0;
    assert((seq![
        DataRun { length: le_at(w, p + 1, lo) as u64, offset: spec_signed(v, hi as nat) as i64 },
    ] + rest.0).drop_first() =~= rest.0);
    if hi > 0 && v >= pow256(hi as nat) / 2 {
        if hi == 8 {
            assert(false);
        }
        lemma_pow256_monotone(hi as nat, 7);
    }
}

/// Reads the list of data runs at the cursor, up to its terminating zero byte, where the
/// cursor is left.
pub fn parse_dataruns(disk: &mut BufferedMappedDisk) -> (res: MappedDiskResult<Vec<DataRun>>)
    ensures
        same_window(*old(disk), *final(disk)),
        res is Ok <==> spec_dataruns(old(disk).window(), old(disk).pos()) is Some,
        res matches Ok(v) ==> spec_dataruns(old(disk).window(), old(disk).pos()) == Some(
            (v@, final(disk).pos()),
        ),
{
    let ghost w = disk.window();
    let ghost p0 = disk.pos();
    let mut dataruns: Vec<DataRun> = Vec::new();
    loop
        invariant
            same_window(*old(disk), *disk),
            w == disk.window(),
            w == old(disk).window(),
            p0 == old(disk).pos(),
            spec_dataruns(w, p0) == prepend_runs(dataruns@, spec_dataruns(w, disk.pos())),
        decreases w.len() - disk.pos(),
    {
        let p = disk.current_buffer_offset();
        proof {
            crate::binary_struct::lemma_int_sizes();
        }
        let first = disk.peek::<u8>()?;
        if first == 0 {
            assert(dataruns@ + seq![] =~= dataruns@);
            return Ok(dataruns);
        }
        let datarun_header_byte = disk.read::<u8>()?;
        assert(disk.pos() == p + 1);
        assert(datarun_header_byte == w[p as int]);
        let high_nibble = datarun_header_byte >> 4;
        let low_nibble = datarun_header_byte & 0b00001111;
        assert(high_nibble == datarun_header_byte / 16 && low_nibble == datarun_header_byte % 16)
            by (bit_vector)
            requires
                high_nibble == datarun_header_byte >> 4,
                low_nibble == datarun_header_byte & 0b00001111,
        ;
        if low_nibble > 8 || high_nibble > 8 {
            return Err(MappedDiskError::Malformed(p));
        }
        let length = read_le_field(disk, low_nibble)?;
        let value = read_le_field(disk, high_nibble)?;
        proof {
            lemma_le_nat_bound(
                w.subrange(p + 1 + low_nibble as int, p + 1 + low_nibble + high_nibble),
            );
            lemma_pow256_values();
            lemma_pow256_monotone_upto8(high_nibble as nat);
        }
        proof {
            if high_nibble < 8 {
                crate::bytes::lemma_pow256_monotone(high_nibble as nat, 7);
            }
        }
        let offset: i64 = if high_nibble == 8 {
            if value >= 0x8000_0000_0000_0000 {
                return Err(MappedDiskError::Malformed(p));
            }
            value as i64
        } else {
            sign_extend(value as i64, high_nibble)
        };
        let run = DataRun { length, offset };
        let ghost next = disk.pos();
        assert(next == p + 1 + low_nibble + high_nibble);
        assert(spec_dataruns(w, p as int) == prepend_runs(seq![run], spec_dataruns(w, next)));
        dataruns.push(run);
        proof {
            match spec_dataruns(w, next) {
                Some((rest, end)) => {
                    assert(dataruns@ + rest =~= (dataruns@.drop_last() + (seq![run] + rest)));
                },
                None => {},
            }
        }
    }
}

proof fn lemma_pow256_monotone_upto8(n: nat)
    requires
        n <= 8,
    ensures
        pow256(n) <= pow256(8),
{
    crate::bytes::lemma_pow256_monotone(n, 8);
}

/// Reads a SID at the cursor. With the access control entry it belongs to, the SID fills the
/// rest of that entry; without one, its size comes from its own sub-authority count.
pub open spec fn spec_sid_read(w: Seq<u8>, p: int, ace: Option<AccessControlEntry>) -> Option<
    (Seq<char>, int),
> {
    match ace {
        Some(ace) => {
            if ace.size < 8 {
                None
            } else {
                match spec_read_at::<SecurityIdentifier>(w, p, ace.size - 8) {
                    Some(text) => Some((text, p + ace.size - 8)),
                    None => None,
                }
            }
        },
        None => {
            if p + 2 > w.len() {
                None
            } else {
                let size = spec_sid_size(w[p + 1]);
                match spec_read_at::<SecurityIdentifier>(w, p, size) {
                    Some(text) => Some((text, p + size)),
                    None => None,
                }
            }
        },
    }
}

/// Reads the SID at the cursor, sized by the access control entry `ace_opt` it belongs to, or
/// by its own sub-authority count when there is none.
pub fn parse_sid(disk: &mut BufferedMappedDisk, ace_opt: Option<&AccessControlEntry>) -> (res:
    MappedDiskResult<SecurityIdentifier>)
    ensures
        same_window(*old(disk), *final(disk)),
        ({
            let ace = match ace_opt {
                Some(a) => Some(*a),
                None => None,
            };
            &&& res is Ok <==> spec_sid_read(old(disk).window(), old(disk).pos(), ace) is Some
            &&& res matches Ok(sid) ==> spec_sid_read(old(disk).window(), old(disk).pos(), ace)
                == Some((sid@, final(disk).pos()))
        }),
{
    match ace_opt {
        Some(ace) => {
            if ace.size < 8 {
                return Err(MappedDiskError::Malformed(disk.current_buffer_offset()));
            }
            disk.read_with_size::<SecurityIdentifier>(ace.size as usize - AccessControlEntry::SIZE)
        },
        None => {
            proof {
                crate::binary_struct::lemma_int_sizes();
            }
            let first_two_bytes_sid = disk.peek::<[u8; 2]>()?;
            let sub_authority_count = first_two_bytes_sid[1];
            disk.read_with_size::<SecurityIdentifier>(
                SecurityIdentifier::calculate_size(sub_authority_count),
            )
        },
    }
}

/// An access control entry with the SID it applies to.
#[derive(Debug)]
pub struct AccessControlEntryWithSID {
    pub entry: AccessControlEntry,
    pub sid: SecurityIdentifier,
}

impl View for AccessControlEntryWithSID {
    type V = (AccessControlEntry, Seq<char>);

    open spec fn view(&self) -> (AccessControlEntry, Seq<char>) {
        (self.entry, self.sid@)
    }
}

/// An access control list: its 8-byte header and its entries.
#[derive(Debug)]
pub struct AccessControlList {
    pub revision: u8,
    pub acl_size: u16,
    pub ace_count: u16,
    pub access_control_entries: Vec<AccessControlEntryWithSID>,
}

/// An `AccessControlList` with its entries taken by their views.
pub struct AccessControlListView {
    pub revision: u8,
    pub acl_size: u16,
    pub ace_count: u16,
    pub access_control_entries: Seq<(AccessControlEntry, Seq<char>)>,
}

impl View for AccessControlList {
    type V = AccessControlListView;

    open spec fn view(&self) -> AccessControlListView {
        AccessControlListView {
            revision: self.revision,
            acl_size: self.acl_size,
            ace_count: self.ace_count,
            access_control_entries: self.access_control_entries@.map_values(
                |e: AccessControlEntryWithSID| e@,
            ),
        }
    }
}

impl BinarySize for AccessControlList {
    const SIZE: usize = 8;
}

impl BinaryParse for AccessControlList {
    /// The header alone: revision at 0, size at 2, entry count at 4; no entries yet.
    open spec fn spec_parse(input: Seq<u8>) -> Option<AccessControlListView> {
        if input.len() < 8 {
            None
        } else {
            Some(
                AccessControlListView {
                    revision: input[0],
                    acl_size: le_at(input, 2, 2) as u16,
                    ace_count: le_at(input, 4, 2) as u16,
                    access_control_entries: seq![],
                },
            )
        }
    }

    fn parse(input: &[u8]) -> (res: Result<AccessControlList, ParseError>) {
        if input.len() < 8 {
            return Err(ParseError::TooShort);
        }
        let acl = AccessControlList {
            revision: input[0],
            acl_size: read_le_uint(input, 2, 2) as u16,
            ace_count: read_le_uint(input, 4, 2) as u16,
            access_control_entries: Vec::new(),
        };
        assert(acl@.access_control_entries =~= seq![]);
        Ok(acl)
    }
}

/// The first `k` access control entries, with their SIDs, that start at `q` in `w`, and where
/// they end.
pub open spec fn spec_aces(w: Seq<u8>, q: int, k: nat) -> Option<
    (Seq<(AccessControlEntry, Seq<char>)>, int),
>
    decreases k,
{
    if k == 0 {
        Some((seq![], q))
    } else {
        match spec_aces(w, q, (k - 1) as nat) {
            None => None,
            Some((entries, q2)) => match spec_read_at::<AccessControlEntry>(w, q2, 8) {
                None => None,
                Some(ace) => match spec_sid_read(w, q2 + 8, Some(ace)) {
                    None => None,
                    Some((sid, q3)) => Some((entries.push((ace, sid)), q3)),
                },
            },
        }
    }
}

proof fn lemma_aces_fail(w: Seq<u8>, q: int, k: nat, n: nat)
    requires
        k <= n,
        spec_aces(w, q, k) is None,
    ensures
        spec_aces(w, q, n) is None,
    decreases n - k,
{
    if n > k {
        lemma_aces_fail(w, q, k, (n - 1) as nat);
    }
}

/// The access control list at `p` in `w` with all its entries, and where it ends.
pub open spec fn spec_acl(w: Seq<u8>, p: int) -> Option<(AccessControlListView, int)> {
    match spec_read_at::<AccessControlList>(w, p, 8) {
        None => None,
        Some(h) => match spec_aces(w, p + 8, h.ace_count as nat) {
            None => None,
            Some((entries, end)) => Some(
                (AccessControlListView { access_control_entries: entries, ..h }, end),
            ),
        },
    }
}

/// Reads the access control list at the cursor and its entries.
pub fn parse_access_control_list(disk: &mut BufferedMappedDisk) -> (res: MappedDiskResult<
    AccessControlList,
>)
    ensures
        same_window(*old(disk), *final(disk)),
        res is Ok <==> spec_acl(old(disk).window(), old(disk).pos()) is Some,
        res matches Ok(acl) ==> spec_acl(old(disk).window(), old(disk).pos()) == Some(
            (acl@, final(disk).pos()),
        ),
{
    let ghost w = disk.window();
    let ghost p = disk.pos();
    let mut acl = disk.read::<AccessControlList>()?;
    let count = acl.ace_count;
    let mut i: u16 = 0;
    while i < count
        invariant
            same_window(*old(disk), *disk),
            w == old(disk).window(),
            p == old(disk).pos(),
            w == disk.window(),
            count == acl.ace_count,
            spec_read_at::<AccessControlList>(w, p, 8) == Some(
                AccessControlListView { access_control_entries: seq![], ..acl@ },
            ),
            i <= count,
            spec_aces(w, p + 8, i as nat) == Some((acl@.access_control_entries, disk.pos())),
        decreases count - i,
    {
        let ace = match disk.read::<AccessControlEntry>() {
            Ok(a) => a,
            Err(e) => {
                proof {
                    lemma_aces_fail(w, p + 8, (i + 1) as nat, count as nat);
                }
                return Err(e);
            },
        };
        let sid = match parse_sid(disk, Some(&ace)) {
            Ok(s) => s,
            Err(e) => {
                proof {
                    lemma_aces_fail(w, p + 8, (i + 1) as nat, count as nat);
                }
                return Err(e);
            },
        };
        let ghost before = acl@.access_control_entries;
        acl.access_control_entries.push(AccessControlEntryWithSID { entry: ace, sid });
        i = i + 1;
        assert(acl@.access_control_entries =~= before.push((ace, sid@)));
    }
    assert(spec_acl(w, p) == Some((acl@, disk.pos())));
    Ok(acl)
}

/// Whether the cursor can be turned into a disk offset and moved by `set_cursor`.
pub open spec fn cursor_usable(disk: BufferedMappedDisk) -> bool {
    &&& disk.size() > 0
    &&& disk.start() + disk.size() <= usize::MAX
    &&& disk.pos() <= disk.size()
}

/// Where `set_cursor` puts the cursor for the disk offset `start + rel`, if that offset fits in
/// a `usize`.
pub open spec fn spec_jump(start: int, rel: int, size: int) -> Option<int> {
    if start + rel > usize::MAX {
        None
    } else {
        Some((start + rel) % size)
    }
}

/// Moves the cursor to the disk offset `base + rel`; an offset past `usize::MAX` is malformed.
fn jump(disk: &mut BufferedMappedDisk, base: usize, rel: usize) -> (res: MappedDiskResult<()>)
    requires
        old(disk).size() > 0,
    ensures
        same_window(*old(disk), *final(disk)),
        res is Ok <==> spec_jump(base as int, rel as int, old(disk).size() as int) is Some,
        res is Ok ==> spec_jump(base as int, rel as int, old(disk).size() as int) == Some(
            final(disk).pos(),
        ),
        res is Err ==> final(disk).pos() == old(disk).pos(),
{
    match base.checked_add(rel) {
        Some(target) => disk.set_cursor(target),
        None => Err(MappedDiskError::Malformed(base)),
    }
}

/// A security descriptor: its header, owner and group SIDs, and its access control lists.
#[derive(Debug)]
pub struct SecurityDescriptor {
    pub header: SecurityDescriptorHeader,
    pub user_sid: SecurityIdentifier,
    pub group_sid: SecurityIdentifier,
    pub dacl: Option<AccessControlList>,
    pub sacl: Option<AccessControlList>,
}

/// A `SecurityDescriptor` taken by the views of its parts.
pub struct SecurityDescriptorView {
    pub header: SecurityDescriptorHeader,
    pub user_sid: Seq<char>,
    pub group_sid: Seq<char>,
    pub dacl: Option<AccessControlListView>,
    pub sacl: Option<AccessControlListView>,
}

/// An optional access control list taken by its view.
pub open spec fn acl_view(acl: Option<AccessControlList>) -> Option<AccessControlListView> {
    match acl {
        Some(a) => Some(a@),
        None => None,
    }
}

impl View for SecurityDescriptor {
    type V = SecurityDescriptorView;

    open spec fn view(&self) -> SecurityDescriptorView {
        SecurityDescriptorView {
            header: self.header,
            user_sid: self.user_sid@,
            group_sid: self.group_sid@,
            dacl: acl_view(self.dacl),
            sacl: acl_view(self.sacl),
        }
    }
}

/// An access control list read after jumping to `rel` bytes from the descriptor's start, when
/// `present`; otherwise none, with the cursor left at `p`.
pub open spec fn spec_optional_acl(
    w: Seq<u8>,
    start: int,
    size: int,
    present: bool,
    rel: int,
    p: int,
) -> Option<(Option<AccessControlListView>, int)> {
    if !present {
        Some((None, p))
    } else {
        match spec_jump(start, rel, size) {
            None => None,
            Some(q) => match spec_acl(w, q) {
                None => None,
                Some((acl, end)) => Some((Some(acl), end)),
            },
        }
    }
}

/// A SID read after jumping to `rel` bytes from the descriptor's start.
pub open spec fn spec_sid_at_offset(w: Seq<u8>, start: int, size: int, rel: int) -> Option<
    (Seq<char>, int),
> {
    match spec_jump(start, rel, size) {
        None => None,
        Some(q) => spec_sid_read(w, q, None),
    }
}

/// The security descriptor at `p` in the window `w` of a disk whose window starts at disk
/// offset `st` and is `size` bytes long: its header, then (each at its offset from the
/// descriptor's start) the DACL and SACL when the control flags mark them present, the owner
/// SID and the group SID.
pub open spec fn spec_security_descriptor(w: Seq<u8>, st: int, size: int, p: int) -> Option<
    (SecurityDescriptorView, int),
> {
    let start = st + p;
    match spec_read_at::<SecurityDescriptorHeader>(w, p, 20) {
        None => None,
        Some(h) => {
            let dacl_present = h.control_flags.bits & ControlFlags::DACLPresent
                == ControlFlags::DACLPresent;
            let sacl_present = h.control_flags.bits & ControlFlags::SACLPresent
                == ControlFlags::SACLPresent;
            match spec_optional_acl(w, start, size, dacl_present, h.dacl_offset as int, p + 20) {
                None => None,
                Some((dacl, p2)) => match spec_optional_acl(
                    w,
                    start,
                    size,
                    sacl_present,
                    h.sacl_offset as int,
                    p2,
                ) {
                    None => None,
                    Some((sacl, _)) => match spec_sid_at_offset(
                        w,
                        start,
                        size,
                        h.user_sid_offset as int,
                    ) {
                        None => None,
                        Some((user_sid, _)) => match spec_sid_at_offset(
                            w,
                            start,
                            size,
                            h.group_sid_offset as int,
                        ) {
                            None => None,
                            Some((group_sid, end)) => Some(
                                (
                                    SecurityDescriptorView {
                                        header: h,
                                        user_sid,
                                        group_sid,
                                        dacl,
                                        sacl,
                                    },
                                    end,
                                ),
                            ),
                        },
                    },
                },
            }
        },
    }
}

/// Reads the security descriptor at the cursor.
pub fn parse_security_descriptor(disk: &mut BufferedMappedDisk) -> (res: MappedDiskResult<
    SecurityDescriptor,
>)
    requires
        cursor_usable(*old(disk)),
    ensures
        same_window(*old(disk), *final(disk)),
        ({
            let spec = spec_security_descriptor(
                old(disk).window(),
                old(disk).start(),
                old(disk).size() as int,
                old(disk).pos(),
            );
            &&& res is Ok <==> spec is Some
            &&& res matches Ok(sd) ==> spec == Some((sd@, final(disk).pos()))
        }),
{
    let ghost w = disk.window();
    let starting_offset_of_security_descriptor = disk.current_offset();
    let security_descriptor_header = disk.read::<SecurityDescriptorHeader>()?;
    let dacl = if security_descriptor_header.control_flags.contains(ControlFlags::DACLPresent) {
        jump(
            disk,
            starting_offset_of_security_descriptor,
            security_descriptor_header.dacl_offset as usize,
        )?;
        Some(parse_access_control_list(disk)?)
    } else {
        None
    };
    let sacl = if security_descriptor_header.control_flags.contains(ControlFlags::SACLPresent) {
        jump(
            disk,
            starting_offset_of_security_descriptor,
            security_descriptor_header.sacl_offset as usize,
        )?;
        Some(parse_access_control_list(disk)?)
    } else {
        None
    };
    jump(
        disk,
        starting_offset_of_security_descriptor,
        security_descriptor_header.user_sid_offset as usize,
    )?;
    let user_sid = parse_sid(disk, None)?;
    jump(
        disk,
        starting_offset_of_security_descriptor,
        security_descriptor_header.group_sid_offset as usize,
    )?;
    let group_sid = parse_sid(disk, None)?;
    Ok(
        SecurityDescriptor {
            header: security_descriptor_header,
            user_sid,
            group_sid,
            dacl,
            sacl,
        },
    )
}

/// A symbolic link or mount point.
#[derive(Debug)]
pub struct ReparsePoint {
    pub tag: ReparseTag,
    pub path_type: SymbolicLinkFlags,
    pub substitute_name: String,
    pub path_name: String,
}

/// A `ReparsePoint` with its names taken as characters.
pub struct ReparsePointView {
    pub tag: ReparseTag,
    pub path_type: SymbolicLinkFlags,
    pub substitute_name: Seq<char>,
    pub path_name: Seq<char>,
}

impl View for ReparsePoint {
    type V = ReparsePointView;

    open spec fn view(&self) -> ReparsePointView {
        ReparsePointView {
            tag: self.tag,
            path_type: self.path_type,
            substitute_name: self.substitute_name@,
            path_name: self.path_name@,
        }
    }
}

/// The UTF-16 text of `len` bytes at `p` in `w`, and where it ends.
pub open spec fn spec_utf16_at(w: Seq<u8>, p: int, len: int) -> Option<(Seq<char>, int)> {
    if p + len > w.len() {
        None
    } else {
        match spec_utf16_decode(le_units(w.subrange(p, p + len))) {
            None => None,
            Some(text) => Some((text, p + len)),
        }
    }
}

/// The reparse point at `p` in the window `w` (which starts at disk offset `st` and is `size`
/// bytes long). Only Microsoft symbolic links and mount points are understood: the data header
/// follows the reparse header, a symbolic link then gives its flags, and the two names lie at
/// their offsets from the end of what was read.
pub open spec fn spec_reparse_point(w: Seq<u8>, st: int, size: int, p: int) -> Option<
    (ReparsePointView, int),
> {
    match spec_read_at::<ReparsePointHeader>(w, p, 8) {
        None => None,
        Some(h) => {
            let tag = h.reparse_tag;
            if tag.bits & ReparseTag::IsMicrosoft != ReparseTag::IsMicrosoft {
                None
            } else if tag.bits & (ReparseTag::SymbolicLink | ReparseTag::MountPoint) == 0 {
                None
            } else {
                let is_symlink = tag.bits & ReparseTag::SymbolicLink == ReparseTag::SymbolicLink;
                match spec_read_at::<ReparseDataHeader>(w, p + 8, 8) {
                    None => None,
                    Some(d) => {
                        let flags = if is_symlink {
                            spec_read_at::<SymbolicLinkFlags>(w, p + 16, 4)
                        } else {
                            Some(SymbolicLinkFlags { bits: SymbolicLinkFlags::Absolute })
                        };
                        let q = if is_symlink {
                            p + 20
                        } else {
                            p + 16
                        };
                        match flags {
                            None => None,
                            Some(path_type) => match spec_jump(
                                st + q,
                                d.substitute_name_offset as int,
                                size,
                            ) {
                                None => None,
                                Some(q1) => match spec_utf16_at(
                                    w,
                                    q1,
                                    d.substitute_name_length as int,
                                ) {
                                    None => None,
                                    Some((substitute_name, _)) => match spec_jump(
                                        st + q,
                                        d.print_name_offset as int,
                                        size,
                                    ) {
                                        None => None,
                                        Some(q2) => match spec_utf16_at(
                                            w,
                                            q2,
                                            d.print_name_length as int,
                                        ) {
                                            None => None,
                                            Some((path_name, end)) => Some(
                                                (
                                                    ReparsePointView {
                                                        tag,
                                                        path_type,
                                                        substitute_name,
                                                        path_name,
                                                    },
                                                    end,
                                                ),
                                            ),
                                        },
                                    },
                                },
                            },
                        }
                    },
                }
            }
        },
    }
}

/// Reads the reparse point at the cursor.
pub fn parse_reparse_point(disk: &mut BufferedMappedDisk) -> (res: MappedDiskResult<ReparsePoint>)
    requires
        cursor_usable(*old(disk)),
    ensures
        same_window(*old(disk), *final(disk)),
        ({
            let spec = spec_reparse_point(
                old(disk).window(),
                old(disk).start(),
                old(disk).size() as int,
                old(disk).pos(),
            );
            &&& res is Ok <==> spec is Some
            &&& res matches Ok(r) ==> spec == Some((r@, final(disk).pos()))
        }),
{
    let reparse_point_header = disk.read::<ReparsePointHeader>()?;
    let tag = reparse_point_header.reparse_tag;
    if !tag.contains(ReparseTag::IsMicrosoft) {
        return Err(MappedDiskError::Malformed(disk.current_buffer_offset()));
    }
    let is_symlink = tag.contains(ReparseTag::SymbolicLink);
    if !tag.intersects(ReparseTag::SymbolicLink | ReparseTag::MountPoint) {
        return Err(MappedDiskError::Malformed(disk.current_buffer_offset()));
    }
    let reparse_data_header = disk.read::<ReparseDataHeader>()?;
    let path_type = if is_symlink {
        disk.read::<SymbolicLinkFlags>()?
    } else {
        SymbolicLinkFlags { bits: SymbolicLinkFlags::Absolute }
    };
    let start_offset = disk.current_offset();
    jump(disk, start_offset, reparse_data_header.substitute_name_offset as usize)?;
    let substitute_name = disk.read_string_utf16(
        reparse_data_header.substitute_name_length as usize,
    )?;
    jump(disk, start_offset, reparse_data_header.print_name_offset as usize)?;
    let path_name = disk.read_string_utf16(reparse_data_header.print_name_length as usize)?;
    Ok(ReparsePoint { tag, path_type, substitute_name, path_name })
}

/// One extended attribute: its name and value.
#[derive(Debug)]
pub struct ExtendedAttribute {
    pub name: String,
    pub value: Vec<u8>,
}

/// An `ExtendedAttribute` with its name taken as characters.
pub struct ExtendedAttributeView {
    pub name: Seq<char>,
    pub value: Seq<u8>,
}

impl View for ExtendedAttribute {
    type V = ExtendedAttributeView;

    open spec fn view(&self) -> ExtendedAttributeView {
        ExtendedAttributeView { name: self.name@, value: self.value@ }
    }
}

/// The extended attributes listed from `p` in the window `w` (which starts at disk offset
/// `st` and is `size` bytes long), where `off` is the disk offset of the current one. Each
/// starts with the offset of the next; a zero there ends the list. The UTF-8 name and the
/// value follow the 8-byte header.
pub open spec fn spec_extended_attributes(
    w: Seq<u8>,
    st: int,
    size: int,
    off: int,
    p: int,
) -> Option<(Seq<ExtendedAttributeView>, int)>
    decreases usize::MAX - off,
{
    match spec_read_at::<u32>(w, p, 4) {
        None => None,
        Some(next) => {
            if next == 0 {
                Some((seq![], p))
            } else {
                match spec_read_at::<ExtendedAttributeHeader>(w, p, 8) {
                    None => None,
                    Some(h) => {
                        let q = p + 8;
                        let r = q + h.name_length;
                        if r > w.len() || !valid_utf8(w.subrange(q, r)) || r + h.value_length
                            > w.len() || h.next_ea_offset == 0 || off + h.next_ea_offset
                            > usize::MAX || off > usize::MAX {
                            None
                        } else {
                            let off2 = off + h.next_ea_offset;
                            match spec_extended_attributes(w, st, size, off2, off2 % size) {
                                None => None,
                                Some((rest, end)) => Some(
                                    (
                                        seq![
                                            ExtendedAttributeView {
                                                name: decode_utf8(w.subrange(q, r)),
                                                value: w.subrange(r, r + h.value_length),
                                            },
                                        ] + rest,
                                        end,
                                    ),
                                ),
                            }
                        }
                    },
                }
            }
        },
    }
}

/// `r` with `prefix` in front of its list.
pub open spec fn prepend_eas(
    prefix: Seq<ExtendedAttributeView>,
    r: Option<(Seq<ExtendedAttributeView>, int)>,
) -> Option<(Seq<ExtendedAttributeView>, int)> {
    match r {
        Some((rest, end)) => Some((prefix + rest, end)),
        None => None,
    }
}

/// Reads the extended attributes at the cursor, up to the one whose next offset is zero.
pub fn parse_extended_attributes(disk: &mut BufferedMappedDisk) -> (res: MappedDiskResult<
    Vec<ExtendedAttribute>,
>)
    requires
        cursor_usable(*old(disk)),
    ensures
        same_window(*old(disk), *final(disk)),
        ({
            let spec = spec_extended_attributes(
                old(disk).window(),
                old(disk).start(),
                old(disk).size() as int,
                old(disk).start() + old(disk).pos(),
                old(disk).pos(),
            );
            &&& res is Ok <==> spec is Some
            &&& res matches Ok(v) ==> spec == Some(
                (v@.map_values(|e: ExtendedAttribute| e@), final(disk).pos()),
            )
        }),
{
    let ghost w = disk.window();
    let ghost st = disk.start();
    let ghost size = disk.size() as int;
    let ghost p0 = disk.pos();
    let mut extended_attributes: Vec<ExtendedAttribute> = Vec::new();
    let mut offset = disk.current_offset();
    proof {
        crate::binary_struct::lemma_int_sizes();
    }
    loop
        invariant
            same_window(*old(disk), *disk),
            w == disk.window(),
            w == old(disk).window(),
            st == old(disk).start(),
            size == old(disk).size(),
            p0 == old(disk).pos(),
            cursor_usable(*disk),
            spec_extended_attributes(w, st, size, st + p0, p0) == prepend_eas(
                extended_attributes@.map_values(|e: ExtendedAttribute| e@),
                spec_extended_attributes(w, st, size, offset as int, disk.pos()),
            ),
        decreases usize::MAX - offset,
    {
        let ghost p = disk.pos();
        let ghost views = extended_attributes@.map_values(|e: ExtendedAttribute| e@);
        proof {
            crate::binary_struct::lemma_int_sizes();
        }
        let next = disk.peek::<u32>()?;
        if next == 0 {
            assert(views + seq![] =~= views);
            return Ok(extended_attributes);
        }
        let extended_attribute = disk.read::<ExtendedAttributeHeader>()?;
        let name_bytes = disk.read_bytes(extended_attribute.name_length as usize)?;
        let name = match string_from_utf8(slice_to_vec(name_bytes)) {
            Some(name) => name,
            None => {
                return Err(MappedDiskError::Malformed(disk.current_buffer_offset()));
            },
        };
        let value = slice_to_vec(disk.read_bytes(extended_attribute.value_length as usize)?);
        if extended_attribute.next_ea_offset == 0 {
            return Err(MappedDiskError::Malformed(disk.current_buffer_offset()));
        }
        let new_offset = match offset.checked_add(extended_attribute.next_ea_offset as usize) {
            Some(o) => o,
            None => {
                return Err(MappedDiskError::Malformed(disk.current_buffer_offset()));
            },
        };
        let ghost q = p + 8;
        let ghost r = q + extended_attribute.name_length;
        let ea = ExtendedAttribute { name, value };
        assert(ea@ == ExtendedAttributeView {
            name: decode_utf8(w.subrange(q, r)),
            value: w.subrange(r, r + extended_attribute.value_length),
        });
        extended_attributes.push(ea);
        offset = new_offset;
        disk.set_cursor(offset)?;
        proof {
            let new_views = extended_attributes@.map_values(|e: ExtendedAttribute| e@);
            assert(new_views =~= views.push(ea@));
            match spec_extended_attributes(w, st, size, offset as int, disk.pos()) {
                Some((rest, end)) => {
                    assert(new_views + rest =~= views + (seq![ea@] + rest));
                },
                None => {},
            }
        }
    }
}


/// The record number of the `$ObjId` file, whose `$O` index holds object identifiers rather
/// than quota owners.
pub const OBJ_ID_RECORD_NUMBER: usize = 25;

/// What the parser knows of the record that an attribute belongs to.
#[derive(Debug)]
pub struct ParsingContext {
    pub record_number: usize,
}

/// An entry of an `$INDEX_ROOT` attribute, by the index it belongs to.
#[derive(Debug)]
pub enum IndexEntry {
    SubNode { attribute_name: String, vcn: u64 },
    Sdh { key: SdhIndexKey, value: SdhIndexValue },
    Sii { key: SiiIndexKey, value: SiiIndexValue },
    FileName(FileName),
    QuotaO { sid: SecurityIdentifier, owner_id: u32 },
    ObjIdO { reference_number: FileReferenceNumber, ids: ObjectIds },
    Q { owner_id: u32, value: QuotaIndexValue, sid: Option<SecurityIdentifier> },
    R { reparse_flags: u32, reference_number: FileReferenceNumber },
}

/// An `IndexEntry` taken by the views of its parts.
pub enum IndexEntryView {
    SubNode { attribute_name: Seq<char>, vcn: u64 },
    Sdh { key: SdhIndexKey, value: SdhIndexValueView },
    Sii { key: SiiIndexKey, value: SiiIndexValue },
    FileName(FileNameView),
    QuotaO { sid: Seq<char>, owner_id: u32 },
    ObjIdO { reference_number: FileReferenceNumber, ids: ObjectIds },
    Q { owner_id: u32, value: QuotaIndexValue, sid: Option<Seq<char>> },
    R { reparse_flags: u32, reference_number: FileReferenceNumber },
}

/// An optional security identifier taken by its text.
pub open spec fn sid_view(sid: Option<SecurityIdentifier>) -> Option<Seq<char>> {
    match sid {
        Some(s) => Some(s@),
        None => None,
    }
}

impl View for IndexEntry {
    type V = IndexEntryView;

    open spec fn view(&self) -> IndexEntryView {
        match self {
            IndexEntry::SubNode { attribute_name, vcn } => IndexEntryView::SubNode {
                attribute_name: attribute_name@,
                vcn: *vcn,
            },
            IndexEntry::Sdh { key, value } => IndexEntryView::Sdh { key: *key, value: value@ },
            IndexEntry::Sii { key, value } => IndexEntryView::Sii { key: *key, value: *value },
            IndexEntry::FileName(f) => IndexEntryView::FileName(f@),
            IndexEntry::QuotaO { sid, owner_id } => IndexEntryView::QuotaO {
                sid: sid@,
                owner_id: *owner_id,
            },
            IndexEntry::ObjIdO { reference_number, ids } => IndexEntryView::ObjIdO {
                reference_number: *reference_number,
                ids: *ids,
            },
            IndexEntry::Q { owner_id, value, sid } => IndexEntryView::Q {
                owner_id: *owner_id,
                value: *value,
                sid: sid_view(*sid),
            },
            IndexEntry::R { reparse_flags, reference_number } => IndexEntryView::R {
                reparse_flags: *reparse_flags,
                reference_number: *reference_number,
            },
        }
    }
}

/// The `$O` entry at `p` of the `$ObjId` file: the object identifier, the reference of the
/// file it names, then the birth volume, birth object and domain identifiers.
pub open spec fn spec_obj_id_entry(w: Seq<u8>, p: int) -> Option<(IndexEntryView, int)> {
    match (
        spec_read_at::<Guid>(w, p, 16),
        spec_read_at::<FileReferenceNumber>(w, p + 16, 8),
        spec_read_at::<Guid>(w, p + 24, 16),
        spec_read_at::<Guid>(w, p + 40, 16),
        spec_read_at::<Guid>(w, p + 56, 16),
    ) {
        (Some(object_id), Some(reference_number), Some(birth_volume_id), Some(birth_object_id), Some(domain_id)) => Some(
            (
                IndexEntryView::ObjIdO {
                    reference_number,
                    ids: ObjectIds { object_id, birth_volume_id, birth_object_id, domain_id },
                },
                p + 72,
            ),
        ),
        _ => None,
    }
}

/// The `$Q` entry at `p`: the owner, the quota values, then the owner's SID unless the entry
/// holds the default limits.
pub open spec fn spec_quota_entry(w: Seq<u8>, p: int) -> Option<(IndexEntryView, int)> {
    match (spec_read_at::<u32>(w, p, 4), spec_read_at::<QuotaIndexValue>(w, p + 4, 48)) {
        (Some(owner_id), Some(value)) => {
            if value.flags.bits & QuotaFlags::DefaultLimits == QuotaFlags::DefaultLimits {
                Some((IndexEntryView::Q { owner_id, value, sid: None }, p + 52))
            } else {
                match spec_sid_read(w, p + 52, None) {
                    None => None,
                    Some((sid, end)) => Some(
                        (IndexEntryView::Q { owner_id, value, sid: Some(sid) }, end),
                    ),
                }
            }
        },
        _ => None,
    }
}

/// The body of the index entry at `p` whose header is `h`, in the index named `name` of the
/// record `record_number`, and where it ends. An index of another name is malformed.
#[verifier::opaque]
pub open spec fn spec_index_entry(
    w: Seq<u8>,
    name: Seq<char>,
    record_number: int,
    h: IndexEntryHeader,
    p: int,
) -> Option<(IndexEntryView, int)> {
    if name == "$SDH"@ {
        match (spec_read_at::<SdhIndexKey>(w, p, 8), spec_read_at::<SdhIndexValue>(w, p + 8, 24)) {
            (Some(key), Some(value)) => Some((IndexEntryView::Sdh { key, value }, p + 32)),
            _ => None,
        }
    } else if name == "$SII"@ {
        match (spec_read_at::<SiiIndexKey>(w, p, 4), spec_read_at::<SiiIndexValue>(w, p + 4, 20)) {
            (Some(key), Some(value)) => Some((IndexEntryView::Sii { key, value }, p + 24)),
            _ => None,
        }
    } else if name == "$I30"@ {
        match spec_read_at::<FileName>(w, p, h.index_entry_length as int) {
            Some(f) => Some((IndexEntryView::FileName(f), p + h.index_entry_length)),
            None => None,
        }
    } else if name == "$O"@ {
        if record_number == OBJ_ID_RECORD_NUMBER {
            spec_obj_id_entry(w, p)
        } else {
            match spec_sid_read(w, p, None) {
                None => None,
                Some((sid, q)) => match spec_read_at::<u32>(w, q, 4) {
                    Some(owner_id) => Some((IndexEntryView::QuotaO { sid, owner_id }, q + 4)),
                    None => None,
                },
            }
        }
    } else if name == "$Q"@ {
        spec_quota_entry(w, p)
    } else if name == "$R"@ {
        match (
            spec_read_at::<u32>(w, p, 4),
            spec_read_at::<FileReferenceNumber>(w, p + 4, 8),
            spec_read_at::<[u8; 4]>(w, p + 12, 4),
        ) {
            (Some(reparse_flags), Some(reference_number), Some(_)) => Some(
                (IndexEntryView::R { reparse_flags, reference_number }, p + 16),
            ),
            _ => None,
        }
    } else {
        None
    }
}

/// Whether `name` is the text of `lit`.
fn name_is(name: &String, lit: &str) -> (res: bool)
    ensures
        res == (name@ == lit@),
{
    *name == String::from_str(lit)
}

/// Reads the body of an index entry whose header is `header`, by the name of its index.
pub fn parse_index_entry(
    disk: &mut BufferedMappedDisk,
    name: &String,
    context: &ParsingContext,
    header: &IndexEntryHeader,
) -> (res: MappedDiskResult<IndexEntry>)
    ensures
        same_window(*old(disk), *final(disk)),
        ({
            let spec = spec_index_entry(
                old(disk).window(),
                name@,
                context.record_number as int,
                *header,
                old(disk).pos(),
            );
            &&& res is Ok <==> spec is Some
            &&& res matches Ok(e) ==> spec == Some((e@, final(disk).pos()))
        }),
{
    proof {
        crate::binary_struct::lemma_int_sizes();
        crate::guid::lemma_guid_size();
        reveal(spec_index_entry);
    }
    if name_is(name, "$SDH") {
        let key = disk.read::<SdhIndexKey>()?;
        let value = disk.read::<SdhIndexValue>()?;
        Ok(IndexEntry::Sdh { key, value })
    } else if name_is(name, "$SII") {
        let key = disk.read::<SiiIndexKey>()?;
        let value = disk.read::<SiiIndexValue>()?;
        Ok(IndexEntry::Sii { key, value })
    } else if name_is(name, "$I30") {
        let file_name = disk.read_with_size::<FileName>(header.index_entry_length as usize)?;
        Ok(IndexEntry::FileName(file_name))
    } else if name_is(name, "$O") {
        if context.record_number == OBJ_ID_RECORD_NUMBER {
            let object_id = disk.read::<Guid>()?;
            let reference_number = disk.read::<FileReferenceNumber>()?;
            let birth_volume_id = disk.read::<Guid>()?;
            let birth_object_id = disk.read::<Guid>()?;
            let domain_id = disk.read::<Guid>()?;
            Ok(
                IndexEntry::ObjIdO {
                    reference_number,
                    ids: ObjectIds { object_id, birth_volume_id, birth_object_id, domain_id },
                },
            )
        } else {
            let sid = parse_sid(disk, None)?;
            let owner_id = disk.read::<u32>()?;
            Ok(IndexEntry::QuotaO { sid, owner_id })
        }
    } else if name_is(name, "$Q") {
        let owner_id = disk.read::<u32>()?;
        let value = disk.read::<QuotaIndexValue>()?;
        let sid = if !value.flags.contains(QuotaFlags::DefaultLimits) {
            Some(parse_sid(disk, None)?)
        } else {
            None
        };
        Ok(IndexEntry::Q { owner_id, value, sid })
    } else if name_is(name, "$R") {
        let reparse_flags = disk.read::<u32>()?;
        let reference_number = disk.read::<FileReferenceNumber>()?;
        let _ = disk.read::<[u8; 4]>()?;
        Ok(IndexEntry::R { reparse_flags, reference_number })
    } else {
        Err(MappedDiskError::Malformed(disk.current_buffer_offset()))
    }
}


/// The sub-node reference that follows an index entry header `h` at `p` when its flags mark
/// one, and where it ends.
pub open spec fn spec_sub_node(w: Seq<u8>, name: Seq<char>, h: IndexEntryHeader, p: int) -> Option<
    (Seq<IndexEntryView>, int),
> {
    if h.flags.bits & IndexEntryFlags::SubNode == IndexEntryFlags::SubNode {
        match spec_read_at::<u64>(w, p, 8) {
            Some(vcn) => Some((seq![IndexEntryView::SubNode { attribute_name: name, vcn }], p + 8)),
            None => None,
        }
    } else {
        Some((seq![], p))
    }
}

/// The index entries from `p` in the window `w` (which starts at disk offset `st` and is `size`
/// bytes long) of the index `name`, where `off` is the disk offset of the current entry. Each
/// entry starts with a header, then the sub-node reference its flags mark; the last entry ends
/// there, the others go on with a body and are `index_entry_length` bytes long. A length of
/// zero, which would read the same entry for ever, is malformed.
pub open spec fn spec_index_entries(
    w: Seq<u8>,
    st: int,
    size: int,
    name: Seq<char>,
    record_number: int,
    off: int,
    p: int,
) -> Option<(Seq<IndexEntryView>, int)>
    decreases usize::MAX - off,
{
    match spec_read_at::<IndexEntryHeader>(w, p, 16) {
        None => None,
        Some(h) => match spec_sub_node(w, name, h, p + 16) {
            None => None,
            Some((head, q)) => {
                if h.flags.bits & IndexEntryFlags::LastIndexEntry == IndexEntryFlags::LastIndexEntry {
                    Some((head, q))
                } else {
                    match spec_index_entry(w, name, record_number, h, q) {
                        None => None,
                        Some((e, _)) => {
                            if h.index_entry_length == 0 || off + h.index_entry_length
                                > usize::MAX {
                                None
                            } else {
                                let off2 = off + h.index_entry_length;
                                match spec_index_entries(
                                    w,
                                    st,
                                    size,
                                    name,
                                    record_number,
                                    off2,
                                    off2 % size,
                                ) {
                                    None => None,
                                    Some((rest, end)) => Some((head.push(e) + rest, end)),
                                }
                            }
                        }
                    }
                }
            },
        },
    }
}

/// The `$INDEX_ROOT` value at `p`: the root header, the node header, then the entries of the
/// index `name`; an unnamed index is malformed.
pub open spec fn spec_index_root(
    w: Seq<u8>,
    st: int,
    size: int,
    name: Option<Seq<char>>,
    record_number: int,
    p: int,
) -> Option<(Seq<IndexEntryView>, int)> {
    match (
        spec_read_at::<IndexRootHeader>(w, p, 16),
        spec_read_at::<IndexNodeHeader>(w, p + 16, 16),
        name,
    ) {
        (Some(_), Some(_), Some(n)) => spec_index_entries(
            w,
            st,
            size,
            n,
            record_number,
            st + p + 32,
            p + 32,
        ),
        _ => None,
    }
}

/// `r` with `prefix` in front of its list.
pub open spec fn prepend_entries(
    prefix: Seq<IndexEntryView>,
    r: Option<(Seq<IndexEntryView>, int)>,
) -> Option<(Seq<IndexEntryView>, int)> {
    match r {
        Some((rest, end)) => Some((prefix + rest, end)),
        None => None,
    }
}

/// An optional string slice taken by its characters.
pub open spec fn str_view(name: Option<&str>) -> Option<Seq<char>> {
    match name {
        Some(n) => Some(n@),
        None => None,
    }
}

/// Reads the sub-node reference that follows `header` when its flags mark one, and adds it
/// to `entries`.
fn parse_sub_node(
    disk: &mut BufferedMappedDisk,
    name: &String,
    header: &IndexEntryHeader,
    entries: &mut Vec<IndexEntry>,
) -> (res: MappedDiskResult<()>)
    ensures
        same_window(*old(disk), *final(disk)),
        match spec_sub_node(old(disk).window(), name@, *header, old(disk).pos()) {
            None => res is Err,
            Some((head, q)) => res is Ok && final(entries)@.map_values(|e: IndexEntry| e@)
                == old(entries)@.map_values(|e: IndexEntry| e@) + head && final(disk).pos() == q,
        },
        res is Ok ==> final(disk).pos() <= final(disk).window().len() || final(disk).pos() == old(
            disk,
        ).pos(),
{
    proof {
        crate::binary_struct::lemma_int_sizes();
    }
    let ghost before = entries@.map_values(|e: IndexEntry| e@);
    if header.flags.contains(IndexEntryFlags::SubNode) {
        let vcn = disk.read::<u64>()?;
        entries.push(IndexEntry::SubNode { attribute_name: String::from_str(name.as_str()), vcn });
        assert(entries@.map_values(|e: IndexEntry| e@) =~= before + seq![
            IndexEntryView::SubNode { attribute_name: name@, vcn },
        ]);
    } else {
        assert(before + seq![] =~= before);
    }
    Ok(())
}

/// Reads the value of an `$INDEX_ROOT` attribute named `attribute_name` at the cursor.
pub fn parse_index_root(
    disk: &mut BufferedMappedDisk,
    attribute_name: Option<&str>,
    context: &ParsingContext,
) -> (res: MappedDiskResult<Vec<IndexEntry>>)
    requires
        cursor_usable(*old(disk)),
    ensures
        same_window(*old(disk), *final(disk)),
        ({
            let spec = spec_index_root(
                old(disk).window(),
                old(disk).start(),
                old(disk).size() as int,
                str_view(attribute_name),
                context.record_number as int,
                old(disk).pos(),
            );
            &&& res is Ok <==> spec is Some
            &&& res matches Ok(v) ==> spec == Some(
                (v@.map_values(|e: IndexEntry| e@), final(disk).pos()),
            )
        }),
        res is Ok ==> final(disk).pos() <= final(disk).size(),
{
    let ghost w = disk.window();
    let ghost st = disk.start();
    let ghost size = disk.size() as int;
    let _index_root_header = disk.read::<IndexRootHeader>()?;
    let _index_header = disk.read::<IndexNodeHeader>()?;
    let name = match attribute_name {
        Some(n) => String::from_str(n),
        None => {
            return Err(MappedDiskError::Malformed(disk.current_buffer_offset()));
        },
    };
    let ghost p0 = disk.pos();
    let mut offset = disk.current_offset();
    let mut index_entries: Vec<IndexEntry> = Vec::new();
    loop
        invariant
            same_window(*old(disk), *disk),
            w == disk.window(),
            w == old(disk).window(),
            st == old(disk).start(),
            size == old(disk).size(),
            p0 == old(disk).pos() + 32,
            cursor_usable(*disk),
            name@ == str_view(attribute_name)->0,
            spec_index_root(
                w,
                st,
                size,
                str_view(attribute_name),
                context.record_number as int,
                p0 - 32,
            ) == spec_index_entries(w, st, size, name@, context.record_number as int, st + p0, p0),
            spec_index_entries(w, st, size, name@, context.record_number as int, st + p0, p0)
                == prepend_entries(
                index_entries@.map_values(|e: IndexEntry| e@),
                spec_index_entries(
                    w,
                    st,
                    size,
                    name@,
                    context.record_number as int,
                    offset as int,
                    disk.pos(),
                ),
            ),
        decreases usize::MAX - offset,
    {
        let ghost views = index_entries@.map_values(|e: IndexEntry| e@);
        let ghost p = disk.pos();
        proof {
            crate::binary_struct::lemma_int_sizes();
        }
        let index_entry_header = disk.read::<IndexEntryHeader>()?;
        parse_sub_node(disk, &name, &index_entry_header, &mut index_entries)?;
        let ghost head = index_entries@.map_values(|e: IndexEntry| e@).skip(views.len() as int);
        assert(index_entries@.map_values(|e: IndexEntry| e@) =~= views + head);
        if index_entry_header.flags.contains(IndexEntryFlags::LastIndexEntry) {
            proof {
                let h = index_entry_header;
                assert(spec_read_at::<IndexEntryHeader>(w, p, 16) == Some(h));
                match spec_sub_node(w, name@, h, p + 16) {
                    Some((hd, q)) => {
                        assert(hd =~= head);
                        assert(q == disk.pos());
                        assert(spec_index_entries(
                            w,
                            st,
                            size,
                            name@,
                            context.record_number as int,
                            offset as int,
                            p,
                        ) == Some((head, q)));
                    },
                    None => {},
                }
            }
            return Ok(index_entries);
        }
        let index_entry = parse_index_entry(disk, &name, context, &index_entry_header)?;
        if index_entry_header.index_entry_length == 0 {
            return Err(MappedDiskError::Malformed(disk.current_buffer_offset()));
        }
        let new_offset = match offset.checked_add(index_entry_header.index_entry_length as usize) {
            Some(o) => o,
            None => {
                return Err(MappedDiskError::Malformed(disk.current_buffer_offset()));
            },
        };
        let ghost e = index_entry@;
        index_entries.push(index_entry);
        offset = new_offset;
        disk.set_cursor(offset)?;
        proof {
            let new_views = index_entries@.map_values(|e: IndexEntry| e@);
            assert(new_views =~= (views + head).push(e));
            match spec_index_entries(
                w,
                st,
                size,
                name@,
                context.record_number as int,
                offset as int,
                disk.pos(),
            ) {
                Some((rest, end)) => {
                    assert(new_views + rest =~= views + (head.push(e) + rest));
                },
                None => {},
            }
        }
    }
}


/// The value of an attribute of a file record, by the attribute's type.
#[derive(Debug)]
pub enum Attribute {
    StandardInfomation(StandardInformation),
    FileName(FileName),
    ObjectId(ObjectIds),
    Data(Vec<DataRun>),
    BitMap(Vec<DataRun>),
    SecurityDescriptor(SecurityDescriptor),
    VolumeName(String),
    VolumeInformation(VolumeInformation),
    IndexRoot(Vec<IndexEntry>),
    IndexAllocation((Option<String>, Vec<DataRun>)),
    ReparsePoint(ReparsePoint),
    EAInformation(ExtendedAttributeInformation),
    ExtendedAttributes(Vec<ExtendedAttribute>),
}

/// An `Attribute` taken by the views of its parts.
pub enum AttributeView {
    StandardInfomation(StandardInformation),
    FileName(FileNameView),
    ObjectId(ObjectIds),
    Data(Seq<DataRun>),
    BitMap(Seq<DataRun>),
    SecurityDescriptor(SecurityDescriptorView),
    VolumeName(Seq<char>),
    VolumeInformation(VolumeInformation),
    IndexRoot(Seq<IndexEntryView>),
    IndexAllocation((Option<Seq<char>>, Seq<DataRun>)),
    ReparsePoint(ReparsePointView),
    EAInformation(ExtendedAttributeInformation),
    ExtendedAttributes(Seq<ExtendedAttributeView>),
}

/// An optional string taken by its characters.
pub open spec fn string_view(s: Option<String>) -> Option<Seq<char>> {
    match s {
        Some(t) => Some(t@),
        None => None,
    }
}

impl View for Attribute {
    type V = AttributeView;

    open spec fn view(&self) -> AttributeView {
        match self {
            Attribute::StandardInfomation(v) => AttributeView::StandardInfomation(*v),
            Attribute::FileName(v) => AttributeView::FileName(v@),
            Attribute::ObjectId(v) => AttributeView::ObjectId(*v),
            Attribute::Data(v) => AttributeView::Data(v@),
            Attribute::BitMap(v) => AttributeView::BitMap(v@),
            Attribute::SecurityDescriptor(v) => AttributeView::SecurityDescriptor(v@),
            Attribute::VolumeName(v) => AttributeView::VolumeName(v@),
            Attribute::VolumeInformation(v) => AttributeView::VolumeInformation(*v),
            Attribute::IndexRoot(v) => AttributeView::IndexRoot(
                v@.map_values(|e: IndexEntry| e@),
            ),
            Attribute::IndexAllocation((name, runs)) => AttributeView::IndexAllocation(
                (string_view(*name), runs@),
            ),
            Attribute::ReparsePoint(v) => AttributeView::ReparsePoint(v@),
            Attribute::EAInformation(v) => AttributeView::EAInformation(*v),
            Attribute::ExtendedAttributes(v) => AttributeView::ExtendedAttributes(
                v@.map_values(|e: ExtendedAttribute| e@),
            ),
        }
    }
}

/// `value`, with the cursor left at `end`, when both are there.
pub open spec fn finish(value: Option<AttributeView>, end: Option<int>) -> Option<
    (Option<AttributeView>, int),
> {
    match (value, end) {
        (Some(v), Some(e)) => Some((Some(v), e)),
        _ => None,
    }
}

/// The value of the attribute with header `h` that starts at disk offset `base`, read from `q`
/// in the window `w` (which starts at disk offset `st` and is `size` bytes long), and where the
/// cursor is left: at the end of the attribute (`length` bytes from `base`), where the next
/// attribute starts. A type that is not understood has no value; an attribute list is
/// malformed.
#[verifier::opaque]
pub open spec fn spec_attribute_value(
    w: Seq<u8>,
    st: int,
    size: int,
    record_number: int,
    h: AttributeHeaderView,
    base: int,
    q: int,
) -> Option<(Option<AttributeView>, int)> {
    let t = h.common().attribute_type;
    let end = spec_jump(base, h.common().length as int, size);
    if t == 0x10 {
        finish(
            match spec_read_at::<StandardInformation>(w, q, 48) {
                Some(v) => Some(AttributeView::StandardInfomation(v)),
                None => None,
            },
            end,
        )
    } else if t == 0x20 {
        None
    } else if t == 0x30 {
        finish(
            match spec_read_at::<FileName>(w, q, h.resident_value_length() as int) {
                Some(v) => Some(AttributeView::FileName(v)),
                None => None,
            },
            end,
        )
    } else if t == 0x40 {
        finish(
            match spec_read_at::<ObjectIds>(w, q, 64) {
                Some(v) => Some(AttributeView::ObjectId(v)),
                None => None,
            },
            end,
        )
    } else if t == 0x50 {
        finish(
            match spec_security_descriptor(w, st, size, q) {
                Some((v, _)) => Some(AttributeView::SecurityDescriptor(v)),
                None => None,
            },
            end,
        )
    } else if t == 0x60 {
        let len = h.resident_value_length();
        finish(
            if len == 0 {
                Some(AttributeView::VolumeName(Seq::empty()))
            } else {
                match spec_utf16_at(w, q, len as int) {
                    Some((v, _)) => Some(AttributeView::VolumeName(v)),
                    None => None,
                }
            },
            end,
        )
    } else if t == 0x70 {
        finish(
            match spec_read_at::<VolumeInformation>(w, q, 16) {
                Some(v) => Some(AttributeView::VolumeInformation(v)),
                None => None,
            },
            end,
        )
    } else if t == 0x80 {
        finish(
            match spec_dataruns(w, q) {
                Some((v, _)) => Some(AttributeView::Data(v)),
                None => None,
            },
            end,
        )
    } else if t == 0x90 {
        finish(
            match spec_index_root(w, st, size, h.name(), record_number, q) {
                Some((v, _)) => Some(AttributeView::IndexRoot(v)),
                None => None,
            },
            end,
        )
    } else if t == 0xA0 {
        finish(
            match spec_dataruns(w, q) {
                Some((v, _)) => Some(AttributeView::IndexAllocation((h.name(), v))),
                None => None,
            },
            end,
        )
    } else if t == 0xB0 {
        finish(
            match spec_dataruns(w, q) {
                Some((v, _)) => Some(AttributeView::BitMap(v)),
                None => None,
            },
            end,
        )
    } else if t == 0xC0 {
        finish(
            match spec_reparse_point(w, st, size, q) {
                Some((v, _)) => Some(AttributeView::ReparsePoint(v)),
                None => None,
            },
            end,
        )
    } else if t == 0xD0 {
        finish(
            match spec_read_at::<ExtendedAttributeInformation>(w, q, 8) {
                Some(v) => Some(AttributeView::EAInformation(v)),
                None => None,
            },
            end,
        )
    } else if t == 0xE0 {
        finish(
            match spec_extended_attributes(w, st, size, st + q, q) {
                Some((v, _)) => Some(AttributeView::ExtendedAttributes(v)),
                None => None,
            },
            end,
        )
    } else {
        match end {
            Some(e) => Some((None, e)),
            None => None,
        }
    }
}

/// The attribute at `p` in the window `w` (which starts at disk offset `st` and is `size`
/// bytes long): its header, then, for a resident attribute, a jump to its value at the offset
/// the header gives, then the value.
pub open spec fn spec_attribute(w: Seq<u8>, st: int, size: int, record_number: int, p: int) -> Option<
    (Option<AttributeView>, int),
> {
    match spec_attribute_header(w, p) {
        None => None,
        Some((h, q)) => {
            let q1 = match h.resident_offset() {
                Some(ao) => spec_jump(st + p, ao as int, size),
                None => Some(q),
            };
            match q1 {
                None => None,
                Some(q1) => spec_attribute_value(w, st, size, record_number, h, st + p, q1),
            }
        },
    }
}

/// The value, read at the cursor, of the attribute with header `header` that starts at disk
/// offset `base`.
fn parse_attribute_value(
    disk: &mut BufferedMappedDisk,
    header: &AttributeHeader,
    base: usize,
    context: &ParsingContext,
) -> (res: MappedDiskResult<Option<Attribute>>)
    requires
        cursor_usable(*old(disk)),
    ensures
        same_window(*old(disk), *final(disk)),
        ({
            let spec = spec_attribute_value(
                old(disk).window(),
                old(disk).start(),
                old(disk).size() as int,
                context.record_number as int,
                header@,
                base as int,
                old(disk).pos(),
            );
            &&& res is Ok <==> spec is Some
            &&& res matches Ok(a) ==> spec == Some(
                (
                    match a {
                        Some(v) => Some(v@),
                        None => None,
                    },
                    final(disk).pos(),
                ),
            )
        }),
        res is Ok ==> final(disk).pos() <= final(disk).size(),
{
    proof {
        reveal(spec_attribute_value);
    }
    let end = header.total_attribute_length();
    match header.attribute_type() {
        0x10 => {
            let std_info = disk.read::<StandardInformation>()?;
            jump(disk, base, end)?;
            Ok(Some(Attribute::StandardInfomation(std_info)))
        },
        0x20 => Err(MappedDiskError::Malformed(disk.current_buffer_offset())),
        0x30 => {
            let file_name = disk.read_with_size::<FileName>(
                header.resident_attribute_value_length() as usize,
            )?;
            jump(disk, base, end)?;
            Ok(Some(Attribute::FileName(file_name)))
        },
        0x40 => {
            let object_ids = disk.read::<ObjectIds>()?;
            jump(disk, base, end)?;
            Ok(Some(Attribute::ObjectId(object_ids)))
        },
        0x50 => {
            let security_descriptor = parse_security_descriptor(disk)?;
            jump(disk, base, end)?;
            Ok(Some(Attribute::SecurityDescriptor(security_descriptor)))
        },
        0x60 => {
            let name_length = header.resident_attribute_value_length();
            let volume_name = if name_length != 0 {
                disk.read_string_utf16(name_length as usize)?
            } else {
                String::new()
            };
            jump(disk, base, end)?;
            Ok(Some(Attribute::VolumeName(volume_name)))
        },
        0x70 => {
            let volume_information = disk.read::<VolumeInformation>()?;
            jump(disk, base, end)?;
            Ok(Some(Attribute::VolumeInformation(volume_information)))
        },
        0x80 => {
            let dataruns = parse_dataruns(disk)?;
            jump(disk, base, end)?;
            Ok(Some(Attribute::Data(dataruns)))
        },
        0x90 => {
            let index_entries = parse_index_root(disk, header.name(), context)?;
            jump(disk, base, end)?;
            Ok(Some(Attribute::IndexRoot(index_entries)))
        },
        0xA0 => {
            let name = match header.name() {
                Some(n) => Some(String::from_str(n)),
                None => None,
            };
            let dataruns = parse_dataruns(disk)?;
            jump(disk, base, end)?;
            Ok(Some(Attribute::IndexAllocation((name, dataruns))))
        },
        0xB0 => {
            let dataruns = parse_dataruns(disk)?;
            jump(disk, base, end)?;
            Ok(Some(Attribute::BitMap(dataruns)))
        },
        0xC0 => {
            let reparse_point = parse_reparse_point(disk)?;
            jump(disk, base, end)?;
            Ok(Some(Attribute::ReparsePoint(reparse_point)))
        },
        0xD0 => {
            let ea_information = disk.read::<ExtendedAttributeInformation>()?;
            jump(disk, base, end)?;
            Ok(Some(Attribute::EAInformation(ea_information)))
        },
        0xE0 => {
            let extended_attributes = parse_extended_attributes(disk)?;
            jump(disk, base, end)?;
            Ok(Some(Attribute::ExtendedAttributes(extended_attributes)))
        },
        _ => {
            jump(disk, base, end)?;
            Ok(None)
        },
    }
}

/// Reads the attribute at the cursor; `None` for a type that is not understood.
pub fn parse_attribute(disk: &mut BufferedMappedDisk, context: &ParsingContext) -> (res:
    MappedDiskResult<Option<Attribute>>)
    requires
        cursor_usable(*old(disk)),
    ensures
        same_window(*old(disk), *final(disk)),
        ({
            let spec = spec_attribute(
                old(disk).window(),
                old(disk).start(),
                old(disk).size() as int,
                context.record_number as int,
                old(disk).pos(),
            );
            &&& res is Ok <==> spec is Some
            &&& res matches Ok(a) ==> spec == Some(
                (
                    match a {
                        Some(v) => Some(v@),
                        None => None,
                    },
                    final(disk).pos(),
                ),
            )
        }),
        res is Ok ==> final(disk).pos() <= final(disk).size(),
{
    let offset_of_attribute_header = disk.current_offset();
    let attribute_header = parse_attribute_header(disk)?;
    if let Some(attribute_offset) = attribute_header.resident_attribute_offset() {
        jump(disk, offset_of_attribute_header, attribute_offset as usize)?;
    }
    parse_attribute_value(disk, &attribute_header, offset_of_attribute_header, context)
}


/// The NTFS type code of each kind of attribute value: `$STANDARD_INFORMATION` 0x10,
/// `$FILE_NAME` 0x30, `$OBJECT_ID` 0x40, `$SECURITY_DESCRIPTOR` 0x50, `$VOLUME_NAME` 0x60,
/// `$VOLUME_INFORMATION` 0x70, `$DATA` 0x80, `$INDEX_ROOT` 0x90, `$INDEX_ALLOCATION` 0xA0,
/// `$BITMAP` 0xB0, `$REPARSE_POINT` 0xC0, `$EA_INFORMATION` 0xD0, `$EA` 0xE0.
pub open spec fn attribute_type_code(v: AttributeView) -> u32 {
    match v {
        AttributeView::StandardInfomation(_) => 0x10,
        AttributeView::FileName(_) => 0x30,
        AttributeView::ObjectId(_) => 0x40,
        AttributeView::SecurityDescriptor(_) => 0x50,
        AttributeView::VolumeName(_) => 0x60,
        AttributeView::VolumeInformation(_) => 0x70,
        AttributeView::Data(_) => 0x80,
        AttributeView::IndexRoot(_) => 0x90,
        AttributeView::IndexAllocation(_) => 0xA0,
        AttributeView::BitMap(_) => 0xB0,
        AttributeView::ReparsePoint(_) => 0xC0,
        AttributeView::EAInformation(_) => 0xD0,
        AttributeView::ExtendedAttributes(_) => 0xE0,
    }
}

/// Whether `t` is the type code of a kind of attribute that is read into a value.
pub open spec fn is_known_attribute_type(t: int) -> bool {
    t == 0x10 || t == 0x30 || t == 0x40 || t == 0x50 || t == 0x60 || t == 0x70 || t == 0x80
        || t == 0x90 || t == 0xA0 || t == 0xB0 || t == 0xC0 || t == 0xD0 || t == 0xE0
}

/// The kind of value read for an attribute is the one its type code names: the
/// little-endian 32-bit type at the start of the attribute is the code of the value's kind
/// (so `$BITMAP`, 0xB0, gives a bitmap and `$DATA`, 0x80, data runs), and an attribute
/// without a value has a type code that names no kind.
pub proof fn lemma_attribute_kind_matches_type(
    w: Seq<u8>,
    st: int,
    size: int,
    record_number: int,
    p: int,
)
    requires
        0 <= p,
        spec_attribute(w, st, size, record_number, p) is Some,
    ensures
        match spec_attribute(w, st, size, record_number, p) {
            Some((Some(v), _)) => attribute_type_code(v) == le_at(w, p, 4),
            Some((None, _)) => !is_known_attribute_type(le_at(w, p, 4) as int),
            None => false,
        },
{
    let (h, q) = spec_attribute_header(w, p)->0;
    let b = w.subrange(p, p + 16);
    assert(b.subrange(0, 4) =~= w.subrange(p, p + 4));
    lemma_le_nat_bound(w.subrange(p, p + 4));
    lemma_pow256_values();
    assert(h.common() == spec_common_attribute_header(b));
    assert(h.common().attribute_type == le_at(w, p, 4));
    reveal(spec_attribute_value);
}

/// `a` as a list of at most one value.
pub open spec fn optional_seq(a: Option<AttributeView>) -> Seq<AttributeView> {
    match a {
        Some(v) => seq![v],
        None => seq![],
    }
}

/// The attributes from `p` in the window `w` (which starts at disk offset `st` and is `size`
/// bytes long), up to the end marker `0xFFFFFFFF`, leaving out those whose type is not
/// understood; at most `fuel` more are read. The attribute read at a position depends on that
/// position alone, and a position from which four bytes can be read lies below `size`; so a
/// list that has not ended after `size` attributes has come back to a position it read
/// before, would repeat for ever, and is malformed.
pub open spec fn spec_file_attributes(
    w: Seq<u8>,
    st: int,
    size: int,
    record_number: int,
    p: int,
    fuel: nat,
) -> Option<(Seq<AttributeView>, int)>
    decreases fuel,
{
    match spec_read_at::<u32>(w, p, 4) {
        None => None,
        Some(marker) => {
            if marker == u32::MAX {
                Some((seq![], p))
            } else if fuel == 0 {
                None
            } else {
                match spec_attribute(w, st, size, record_number, p) {
                    None => None,
                    Some((a, q)) => match spec_file_attributes(
                        w,
                        st,
                        size,
                        record_number,
                        q,
                        (fuel - 1) as nat,
                    ) {
                        None => None,
                        Some((rest, end)) => Some((optional_seq(a) + rest, end)),
                    },
                }
            }
        },
    }
}

/// `r` with `prefix` in front of its list.
pub open spec fn prepend_attributes(
    prefix: Seq<AttributeView>,
    r: Option<(Seq<AttributeView>, int)>,
) -> Option<(Seq<AttributeView>, int)> {
    match r {
        Some((rest, end)) => Some((prefix + rest, end)),
        None => None,
    }
}

/// Reads the attributes of a file record, from the disk offset `starting_byte_offset` up to
/// the end marker.
pub fn parse_file_attributes(
    disk: &mut BufferedMappedDisk,
    starting_byte_offset: usize,
    context: ParsingContext,
) -> (res: MappedDiskResult<Vec<Attribute>>)
    requires
        cursor_usable(*old(disk)),
    ensures
        same_window(*old(disk), *final(disk)),
        ({
            let spec = spec_file_attributes(
                old(disk).window(),
                old(disk).start(),
                old(disk).size() as int,
                context.record_number as int,
                starting_byte_offset as int % old(disk).size() as int,
                old(disk).size() as nat,
            );
            &&& res is Ok <==> spec is Some
            &&& res matches Ok(v) ==> spec == Some(
                (v@.map_values(|a: Attribute| a@), final(disk).pos()),
            )
        }),
{
    let ghost w = disk.window();
    let ghost st = disk.start();
    let ghost size = disk.size() as int;
    disk.set_cursor(starting_byte_offset)?;
    let ghost p0 = disk.pos();
    let mut attributes: Vec<Attribute> = Vec::new();
    let mut steps: usize = 0;
    loop
        invariant
            same_window(*old(disk), *disk),
            w == disk.window(),
            w == old(disk).window(),
            st == old(disk).start(),
            size == old(disk).size(),
            p0 == starting_byte_offset as int % size,
            cursor_usable(*disk),
            steps <= size,
            spec_file_attributes(w, st, size, context.record_number as int, p0, size as nat)
                == prepend_attributes(
                attributes@.map_values(|a: Attribute| a@),
                spec_file_attributes(
                    w,
                    st,
                    size,
                    context.record_number as int,
                    disk.pos(),
                    (size - steps) as nat,
                ),
            ),
        decreases size - steps,
    {
        let ghost views = attributes@.map_values(|a: Attribute| a@);
        proof {
            crate::binary_struct::lemma_int_sizes();
        }
        let marker = disk.peek::<u32>()?;
        if marker == u32::MAX {
            assert(views + seq![] =~= views);
            return Ok(attributes);
        }
        if steps >= disk.window_size() {
            return Err(MappedDiskError::Malformed(disk.current_buffer_offset()));
        }
        let attribute = parse_attribute(disk, &context)?;
        let ghost a = match &attribute {
            Some(v) => Some(v@),
            None => None,
        };
        if let Some(attr) = attribute {
            attributes.push(attr);
        }
        steps = steps + 1;
        proof {
            let new_views = attributes@.map_values(|a: Attribute| a@);
            assert(new_views =~= views + optional_seq(a));
            match spec_file_attributes(
                w,
                st,
                size,
                context.record_number as int,
                disk.pos(),
                (size - steps) as nat,
            ) {
                Some((rest, end)) => {
                    assert(new_views + rest =~= views + (optional_seq(a) + rest));
                },
                None => {},
            }
        }
    }
}


/// The buffer `b` after the fix-up of sector `s` (each `ss` bytes long): when the last two bytes
/// of the sector hold the update sequence number `usn`, the two bytes at 510 bytes from the
/// sector's start take the sector's entry of the update sequence array `usa`. A sector that
/// the buffer does not hold, or an entry that the array lacks, is malformed.
pub open spec fn spec_patch_sector(b: Seq<u8>, ss: int, usn: u16, usa: Seq<u8>, s: int) -> Option<
    Seq<u8>,
> {
    let o = ss * s;
    if ss < 2 || ss + o > b.len() {
        None
    } else if le_at(b, ss - 2 + o, 2) != usn {
        Some(b)
    } else if 2 * s + 2 > usa.len() || 512 + o > b.len() {
        None
    } else {
        Some(b.update(510 + o, usa[2 * s]).update(511 + o, usa[2 * s + 1]))
    }
}

/// The buffer `b` after the fix-up of its first `k` sectors, in order.
pub open spec fn spec_patch(b: Seq<u8>, ss: int, usn: u16, usa: Seq<u8>, k: nat) -> Option<
    Seq<u8>,
>
    decreases k,
{
    if k == 0 {
        Some(b)
    } else {
        match spec_patch(b, ss, usn, usa, (k - 1) as nat) {
            None => None,
            Some(b2) => spec_patch_sector(b2, ss, usn, usa, k - 1),
        }
    }
}

/// Whether `i` is one of the two bytes at 510 bytes from the start of sector `s`, for sectors of
/// `ss` bytes.
pub open spec fn is_fixup_byte(ss: int, s: int, i: int) -> bool {
    i == 510 + ss * s || i == 511 + ss * s
}

/// The fix-up changes no byte but the two at 510 bytes from the start of one of the sectors
/// it went through, and keeps the length of the buffer.
pub proof fn lemma_patch_touches_only_fixup_bytes(
    b: Seq<u8>,
    ss: int,
    usn: u16,
    usa: Seq<u8>,
    k: nat,
)
    requires
        spec_patch(b, ss, usn, usa, k) is Some,
    ensures
        spec_patch(b, ss, usn, usa, k)->0.len() == b.len(),
        forall|i: int|
            0 <= i < b.len() && #[trigger] spec_patch(b, ss, usn, usa, k)->0[i] != b[i]
                ==> exists|s: int| 0 <= s < k && #[trigger] is_fixup_byte(ss, s, i),
    decreases k,
{
    if k > 0 {
        let prev = spec_patch(b, ss, usn, usa, (k - 1) as nat);
        lemma_patch_touches_only_fixup_bytes(b, ss, usn, usa, (k - 1) as nat);
        let mid = prev->0;
        let after = spec_patch(b, ss, usn, usa, k)->0;
        assert forall|i: int|
            0 <= i < b.len() && after[i] != b[i] implies exists|s: int|
                0 <= s < k && #[trigger] is_fixup_byte(ss, s, i) by {
            if mid[i] != b[i] {
                let s = choose|s: int| 0 <= s < k - 1 && #[trigger] is_fixup_byte(ss, s, i);
                assert(0 <= s < k && is_fixup_byte(ss, s, i));
            } else {
                let s = k - 1;
                assert(is_fixup_byte(ss, s, i));
            }
        }
    }
}

/// Once a sector fails, the fix-up of any longer run of sectors fails.
proof fn lemma_patch_fails(b: Seq<u8>, ss: int, usn: u16, usa: Seq<u8>, k: nat, n: nat)
    requires
        k <= n,
        spec_patch(b, ss, usn, usa, k) is None,
    ensures
        spec_patch(b, ss, usn, usa, n) is None,
    decreases n,
{
    if k < n {
        lemma_patch_fails(b, ss, usn, usa, k, (n - 1) as nat);
    }
}

/// Applies the update sequence fix-up to each sector of the buffer: the window size divided
/// by `sector_size` sectors, in order.
pub fn patch_update_sequence(
    disk: &mut BufferedMappedDisk,
    sector_size: usize,
    update_sequence_number: u16,
    update_sequence_array: &[u8],
) -> (res: MappedDiskResult<()>)
    ensures
        final(disk).disk_contents() == old(disk).disk_contents(),
        final(disk).start() == old(disk).start(),
        final(disk).size() == old(disk).size(),
        final(disk).pos() == old(disk).pos(),
        old(disk).window() == old(disk).bytes() ==> final(disk).window() == final(disk).bytes(),
        ({
            let spec = if sector_size == 0 {
                None
            } else {
                spec_patch(
                    old(disk).bytes(),
                    sector_size as int,
                    update_sequence_number,
                    update_sequence_array@,
                    (old(disk).size() / sector_size) as nat,
                )
            };
            &&& res is Ok <==> spec is Some
            &&& res is Ok ==> spec == Some(final(disk).bytes())
        }),
{
    if sector_size == 0 {
        return Err(MappedDiskError::Malformed(0));
    }
    let ghost b0 = disk.bytes();
    let ghost whole = disk.window() == disk.bytes();
    let number_of_sectors = disk.window_size() / sector_size;
    for sector_index in 0..number_of_sectors
        invariant
            sector_size > 0,
            number_of_sectors == old(disk).size() / sector_size,
            disk.disk_contents() == old(disk).disk_contents(),
            disk.start() == old(disk).start(),
            disk.size() == old(disk).size(),
            disk.pos() == old(disk).pos(),
            b0 == old(disk).bytes(),
            whole == (old(disk).window() == old(disk).bytes()),
            whole ==> disk.window() == disk.bytes(),
            spec_patch(
                b0,
                sector_size as int,
                update_sequence_number,
                update_sequence_array@,
                sector_index as nat,
            ) == Some(disk.bytes()),
    {
        let ghost b = disk.bytes();
        assert(sector_size * sector_index + sector_size <= number_of_sectors * sector_size)
            by (nonlinear_arith)
            requires
                sector_index < number_of_sectors,
        ;
        assert(number_of_sectors * sector_size <= disk.size()) by (nonlinear_arith)
            requires
                number_of_sectors == disk.size() / sector_size,
                sector_size > 0,
        ;
        let offset_to_update_sequence = sector_size * sector_index;
        let buffer_len = disk.buffer_len();
        if sector_size < 2 || offset_to_update_sequence > buffer_len || sector_size > buffer_len
            - offset_to_update_sequence {
            proof {
                lemma_patch_fails(
                    b0,
                    sector_size as int,
                    update_sequence_number,
                    update_sequence_array@,
                    (sector_index + 1) as nat,
                    number_of_sectors as nat,
                );
            }
            return Err(MappedDiskError::Malformed(offset_to_update_sequence));
        }
        let lo = disk.buffer_byte(offset_to_update_sequence + sector_size - 2);
        let hi = disk.buffer_byte(offset_to_update_sequence + sector_size - 1);
        let buffer_update_sequence_number = lo as u16 + hi as u16 * 256;
        proof {
            let i = sector_size - 2 + offset_to_update_sequence;
            let sub = b.subrange(i, i + 2);
            assert(sub.drop_first().drop_first() =~= Seq::<u8>::empty());
            assert(le_at(b, i, 2) == lo + 256 * hi) by {
                reveal_with_fuel(le_nat, 3);
            }
        }
        if buffer_update_sequence_number == update_sequence_number {
            assert(2 * sector_index <= sector_size * sector_index) by (nonlinear_arith)
                requires
                    sector_size >= 2,
            ;
            let update_sequence_array_offset = sector_index * 2;
            if update_sequence_array_offset + 2 > update_sequence_array.len()
                || buffer_len < 512 || offset_to_update_sequence > buffer_len - 512 {
                proof {
                    lemma_patch_fails(
                        b0,
                        sector_size as int,
                        update_sequence_number,
                        update_sequence_array@,
                        (sector_index + 1) as nat,
                        number_of_sectors as nat,
                    );
                }
                return Err(MappedDiskError::Malformed(offset_to_update_sequence));
            }
            let first = update_sequence_array[update_sequence_array_offset];
            let second = update_sequence_array[update_sequence_array_offset + 1];
            disk.set_buffer_byte(510 + offset_to_update_sequence, first);
            disk.set_buffer_byte(511 + offset_to_update_sequence, second);
        }
    }
    Ok(())
}


/// Reads the file system of an NTFS volume: the disk image and the geometry that the boot
/// record gives.
pub struct NtfsReader<'a> {
    disk: MappedDisk<'a>,
    sector_size: usize,
    sectors_per_cluster: usize,
    starting_lba_of_filesystem: usize,
}

impl<'a> NtfsReader<'a> {
    /// The disk image, with its cursor.
    pub closed spec fn disk(self) -> MappedDisk<'a> {
        self.disk
    }

    /// Bytes per sector.
    pub closed spec fn sector_size(self) -> usize {
        self.sector_size
    }

    /// Sectors per cluster.
    pub closed spec fn sectors_per_cluster(self) -> usize {
        self.sectors_per_cluster
    }

    /// The sector at which the volume starts.
    pub closed spec fn starting_lba_of_filesystem(self) -> usize {
        self.starting_lba_of_filesystem
    }

    /// A reader of the volume that starts at sector `starting_lba_of_filesystem` of `disk`,
    /// with the sector and cluster sizes of `pbr`.
    pub fn new(
        disk: &MappedDisk<'a>,
        pbr: &NtfsPartitionBootRecord,
        starting_lba_of_filesystem: usize,
    ) -> (reader: Self)
        ensures
            reader.disk() == *disk,
            reader.sector_size() == pbr.sector_size,
            reader.sectors_per_cluster() == pbr.sectors_per_cluster,
            reader.starting_lba_of_filesystem() == starting_lba_of_filesystem,
    {
        NtfsReader {
            disk: *disk,
            sector_size: pbr.sector_size() as usize,
            sectors_per_cluster: pbr.sectors_per_cluster() as usize,
            starting_lba_of_filesystem,
        }
    }

    /// The byte offset of sector `lba`.
    pub fn byte_offset_from_lba(&self, lba: usize) -> (offset: usize)
        requires
            lba * self.sector_size() <= usize::MAX,
        ensures
            offset == lba * self.sector_size(),
    {
        lba * self.sector_size
    }

    /// The byte offset of cluster `lcn`.
    pub fn byte_offset_from_lcn(&self, lcn: usize) -> (offset: usize)
        requires
            lcn * self.sector_size() <= usize::MAX,
            lcn * self.sector_size() * self.sectors_per_cluster() <= usize::MAX,
        ensures
            offset == lcn * self.sector_size() * self.sectors_per_cluster(),
    {
        lcn * self.sector_size * self.sectors_per_cluster
    }
}


/// A file record of the MFT that is in use: its number, its header and its attributes.
#[derive(Debug)]
pub struct MftEntry {
    pub record_number: usize,
    pub file_record: MftFileRecord,
    pub attributes: Vec<Attribute>,
}

/// An `MftEntry` taken by the views of its parts.
pub struct MftEntryView {
    pub record_number: int,
    pub file_record: MftFileRecordView,
    pub attributes: Seq<AttributeView>,
}

impl View for MftEntry {
    type V = MftEntryView;

    open spec fn view(&self) -> MftEntryView {
        MftEntryView {
            record_number: self.record_number as int,
            file_record: self.file_record@,
            attributes: self.attributes@.map_values(|a: Attribute| a@),
        }
    }
}

/// The record of `mft_size` bytes at the disk offset `current` of the image `d`, in an MFT that
/// starts at `mft_start`: none unless its signature is `FILE`. The update sequence number and
/// array lie at the offset the header gives; the record's bytes are fixed up sector by sector
/// (`ss` bytes each), then its attributes are read from the offset of the first one.
#[verifier::opaque]
pub open spec fn spec_mft_entry(d: Seq<u8>, mft_start: int, mft_size: int, ss: int, current: int) -> Option<
    Option<MftEntryView>,
> {
    match spec_read_at::<MftFileRecord>(d, current, 42) {
        None => None,
        Some(fd) => {
            if fd.signature != "FILE"@ {
                Some(None)
            } else {
                let record_number = (current - mft_start) / mft_size;
                let us = current + fd.offest_of_update_seq;
                match spec_read_at::<u16>(d, us, 2) {
                    None => None,
                    Some(usn) => {
                        let len = (fd.size_of_update_seq - 1) * 2;
                        let first = current + fd.offset_first_attribute;
                        if us > usize::MAX || fd.size_of_update_seq == 0 || us + 2 + len > d.len()
                            || current + mft_size > d.len() || ss == 0 || first > usize::MAX {
                            None
                        } else {
                            let usa = d.subrange(us + 2, us + 2 + len);
                            let buf = d.subrange(current, current + mft_size);
                            match spec_patch(buf, ss, usn, usa, (mft_size / ss) as nat) {
                                None => None,
                                Some(b) => match spec_file_attributes(
                                    b,
                                    current,
                                    mft_size,
                                    record_number,
                                    first % mft_size,
                                    mft_size as nat,
                                ) {
                                    None => None,
                                    Some((attributes, _)) => Some(
                                        Some(
                                            MftEntryView {
                                                record_number,
                                                file_record: fd,
                                                attributes,
                                            },
                                        ),
                                    ),
                                },
                            }
                        }
                    },
                }
            }
        },
    }
}

/// The records in use from the disk offset `current`, one every `mft_size` bytes, while a
/// whole record fits before `end`. A size of zero, which would read the same record for ever,
/// is malformed.
pub open spec fn spec_mft_entries(
    d: Seq<u8>,
    mft_start: int,
    end: int,
    mft_size: int,
    ss: int,
    current: int,
) -> Option<Seq<MftEntryView>>
    decreases end - current,
{
    if current + mft_size > end {
        Some(seq![])
    } else if mft_size <= 0 {
        None
    } else {
        match spec_mft_entry(d, mft_start, mft_size, ss, current) {
            None => None,
            Some(e) => match spec_mft_entries(
                d,
                mft_start,
                end,
                mft_size,
                ss,
                current + mft_size,
            ) {
                None => None,
                Some(rest) => Some(
                    match e {
                        Some(v) => seq![v],
                        None => seq![],
                    } + rest,
                ),
            },
        }
    }
}

/// The records in use of the MFT of a volume with boot record `pbr`, that starts at sector
/// `first_lba` of the image `d` with sectors of `sector_size` bytes. The boot record must be
/// that of an NTFS volume; the MFT starts `logical_cluster_number_of_mft` clusters into the
/// volume, and the records run up to the end of the volume.
pub open spec fn spec_mft(
    d: Seq<u8>,
    first_lba: int,
    sector_size: int,
    pbr: NtfsPartitionBootRecordView,
) -> Option<Seq<MftEntryView>> {
    let mft_lba = first_lba + pbr.logical_cluster_number_of_mft * pbr.sectors_per_cluster;
    if !is_ntfs_oem_id(pbr.oem_id) || mft_lba > u64::MAX || !mft_size_computable(pbr) {
        None
    } else {
        let start = (mft_lba as usize) * sector_size;
        let end = (pbr.number_of_sectors_in_volume as usize) * sector_size;
        if start > usize::MAX || end > usize::MAX {
            None
        } else {
            spec_mft_entries(d, start, end, spec_mft_size(pbr), pbr.sector_size as int, start)
        }
    }
}

/// `r` with `prefix` in front of its list.
pub open spec fn prepend_mft_entries(prefix: Seq<MftEntryView>, r: Option<Seq<MftEntryView>>) -> Option<
    Seq<MftEntryView>,
> {
    match r {
        Some(rest) => Some(prefix + rest),
        None => None,
    }
}

/// Reads the record at the disk offset `current`: none unless it is in use.
fn parse_mft_entry(
    disk: &mut MappedDisk,
    mft_start: usize,
    mft_size: usize,
    sector_size: usize,
    current: usize,
) -> (res: MappedDiskResult<Option<MftEntry>>)
    requires
        mft_size > 0,
        mft_start <= current,
        current + mft_size <= usize::MAX,
    ensures
        final(disk).contents() == old(disk).contents(),
        ({
            let spec = spec_mft_entry(
                old(disk).contents(),
                mft_start as int,
                mft_size as int,
                sector_size as int,
                current as int,
            );
            &&& res is Ok <==> spec is Some
            &&& res matches Ok(e) ==> spec == Some(
                match e {
                    Some(v) => Some(v@),
                    None => None,
                },
            )
        }),
{
    let ghost d = disk.contents();
    proof {
        crate::binary_struct::lemma_int_sizes();
        reveal(spec_mft_entry);
    }
    disk.set_cursor(current)?;
    let file_descriptor = disk.read::<MftFileRecord>()?;
    if !name_is(&file_descriptor.signature, "FILE") {
        return Ok(None);
    }
    let record_number = (current - mft_start) / mft_size;
    let update_sequence_offset = match current.checked_add(
        file_descriptor.offest_of_update_seq as usize,
    ) {
        Some(o) => o,
        None => {
            return Err(MappedDiskError::Malformed(current));
        },
    };
    disk.set_cursor(update_sequence_offset)?;
    let update_sequence_number = disk.read::<u16>()?;
    if file_descriptor.size_of_update_seq == 0 {
        return Err(MappedDiskError::Malformed(current));
    }
    let update_sequence_array = disk.read_bytes(
        (file_descriptor.size_of_update_seq as usize - 1) * 2,
    )?;
    let mut buffered_mapped_disk = BufferedMappedDisk::new(disk, mft_size);
    buffered_mapped_disk.fill_buffer_at(current)?;
    if sector_size == 0 {
        return Err(MappedDiskError::Malformed(current));
    }
    patch_update_sequence(
        &mut buffered_mapped_disk,
        sector_size,
        update_sequence_number,
        update_sequence_array,
    )?;
    let first_attribute = match current.checked_add(
        file_descriptor.offset_first_attribute as usize,
    ) {
        Some(o) => o,
        None => {
            return Err(MappedDiskError::Malformed(current));
        },
    };
    let attributes = parse_file_attributes(
        &mut buffered_mapped_disk,
        first_attribute,
        ParsingContext { record_number },
    )?;
    Ok(Some(MftEntry { record_number, file_record: file_descriptor, attributes }))
}

/// Reads the records in use of the MFT of the volume, from the MFT's first record to the end
/// of the volume.
pub fn parse_mft(fs_reader: &mut NtfsReader, partition_boot_record: &NtfsPartitionBootRecord) -> (res:
    MappedDiskResult<Vec<MftEntry>>)
    ensures
        final(fs_reader).disk().contents() == old(fs_reader).disk().contents(),
        final(fs_reader).sector_size() == old(fs_reader).sector_size(),
        final(fs_reader).sectors_per_cluster() == old(fs_reader).sectors_per_cluster(),
        final(fs_reader).starting_lba_of_filesystem() == old(
            fs_reader,
        ).starting_lba_of_filesystem(),
        ({
            let spec = spec_mft(
                old(fs_reader).disk().contents(),
                old(fs_reader).starting_lba_of_filesystem() as int,
                old(fs_reader).sector_size() as int,
                partition_boot_record@,
            );
            &&& res is Ok <==> spec is Some
            &&& res matches Ok(v) ==> spec == Some(v@.map_values(|e: MftEntry| e@))
        }),
{
    let ghost d = fs_reader.disk.contents();
    let first_lba = fs_reader.starting_lba_of_filesystem as u64;
    let mft_offset = match partition_boot_record.logical_cluster_number_of_mft.checked_mul(
        partition_boot_record.sectors_per_cluster as u64,
    ) {
        Some(o) => o,
        None => {
            return Err(MappedDiskError::Malformed(0));
        },
    };
    if mft_offset > u64::MAX - first_lba {
        return Err(MappedDiskError::Malformed(0));
    }
    let starting_lba = match validate_pbr(partition_boot_record, first_lba) {
        Ok(lba) => lba,
        Err(_) => {
            return Err(MappedDiskError::Malformed(0));
        },
    };
    let mft_start = match starting_lba.checked_mul(fs_reader.sector_size) {
        Some(o) => o,
        None => {
            return Err(MappedDiskError::Malformed(0));
        },
    };
    let end = match partition_boot_record.number_of_sectors_in_volume().checked_mul(
        fs_reader.sector_size,
    ) {
        Some(o) => o,
        None => {
            return Err(MappedDiskError::Malformed(0));
        },
    };
    if partition_boot_record.mft_size < 0 && partition_boot_record.mft_size <= -32 {
        return Err(MappedDiskError::Malformed(0));
    }
    let mft_size = partition_boot_record.mft_size();
    let sector_size = partition_boot_record.sector_size() as usize;
    let mut current_offset = mft_start;
    let mut entries: Vec<MftEntry> = Vec::new();
    while current_offset <= end && mft_size <= end - current_offset
        invariant
            d == fs_reader.disk.contents(),
            fs_reader.sector_size == old(fs_reader).sector_size(),
            fs_reader.sectors_per_cluster == old(fs_reader).sectors_per_cluster(),
            fs_reader.starting_lba_of_filesystem == old(fs_reader).starting_lba_of_filesystem(),
            d == old(fs_reader).disk().contents(),
            mft_start <= current_offset,
            mft_size == spec_mft_size(partition_boot_record@),
            sector_size == partition_boot_record.sector_size,
            spec_mft(
                d,
                old(fs_reader).starting_lba_of_filesystem() as int,
                old(fs_reader).sector_size() as int,
                partition_boot_record@,
            ) == spec_mft_entries(
                d,
                mft_start as int,
                end as int,
                mft_size as int,
                sector_size as int,
                mft_start as int,
            ),
            spec_mft_entries(d, mft_start as int, end as int, mft_size as int, sector_size as int, mft_start as int)
                == prepend_mft_entries(
                entries@.map_values(|e: MftEntry| e@),
                spec_mft_entries(
                    d,
                    mft_start as int,
                    end as int,
                    mft_size as int,
                    sector_size as int,
                    current_offset as int,
                ),
            ),
        decreases end - current_offset,
    {
        if mft_size == 0 {
            return Err(MappedDiskError::Malformed(current_offset));
        }
        let ghost views = entries@.map_values(|e: MftEntry| e@);
        let entry = parse_mft_entry(
            &mut fs_reader.disk,
            mft_start,
            mft_size,
            sector_size,
            current_offset,
        )?;
        let ghost e = match &entry {
            Some(v) => Some(v@),
            None => None,
        };
        if let Some(entry) = entry {
            entries.push(entry);
        }
        let ghost head: Seq<MftEntryView> = match e {
            Some(v) => seq![v],
            None => seq![],
        };
        let ghost prev = current_offset as int;
        current_offset = current_offset + mft_size;
        proof {
            let new_views = entries@.map_values(|e: MftEntry| e@);
            assert(new_views =~= views + head);
            match spec_mft_entries(
                d,
                mft_start as int,
                end as int,
                mft_size as int,
                sector_size as int,
                current_offset as int,
            ) {
                Some(rest) => {
                    assert(new_views + rest =~= views + (head + rest));
                },
                None => {},
            }
        }
    }
    proof {
        assert(entries@.map_values(|e: MftEntry| e@) + seq![] =~= entries@.map_values(
            |e: MftEntry| e@,
        ));
    }
    Ok(entries)
}

} // verus!
