//! Units in which NTFS addresses data: bytes, sectors (LBA) and clusters (VCN).
use vstd::prelude::*;
use vstd::std_specs::ops::AddSpecImpl;

verus! {

/// A number of bytes.
#[derive(Debug, Clone, Copy, PartialEq, Eq, Structural, PartialOrd, Ord)]
pub struct Bytes(pub usize);

impl core::ops::Add<Bytes> for Bytes {
    type Output = Bytes;

    fn add(self, rhs: Bytes) -> (sum: Bytes) {
        Bytes(self.0 + rhs.0)
    }
}

impl AddSpecImpl<Bytes> for Bytes {
    open spec fn obeys_add_spec() -> bool {
        true
    }

    open spec fn add_req(self, rhs: Bytes) -> bool {
        self.0 + rhs.0 <= usize::MAX
    }

    open spec fn add_spec(self, rhs: Bytes) -> Bytes {
        Bytes((self.0 + rhs.0) as usize)
    }
}

/// A logical block (sector) address.
#[derive(Debug, Clone, Copy, PartialEq, Eq, Structural, PartialOrd, Ord)]
pub struct Lba(pub usize);

impl Lba {
    /// Byte offset of the sector, for sectors of `sector_size` bytes.
    pub fn to_bytes(self, sector_size: usize) -> (offset: usize)
        requires
            self.0 * sector_size <= usize::MAX,
        ensures
            offset == self.0 * sector_size,
    {
        self.0 * sector_size
    }
}

impl core::ops::Add<Lba> for Lba {
    type Output = Lba;

    fn add(self, rhs: Lba) -> (sum: Lba) {
        Lba(self.0 + rhs.0)
    }
}

impl AddSpecImpl<Lba> for Lba {
    open spec fn obeys_add_spec() -> bool {
        true
    }

    open spec fn add_req(self, rhs: Lba) -> bool {
        self.0 + rhs.0 <= usize::MAX
    }

    open spec fn add_spec(self, rhs: Lba) -> Lba {
        Lba((self.0 + rhs.0) as usize)
    }
}

/// A virtual cluster number.
#[derive(Debug, Clone, Copy, PartialEq, Eq, Structural, PartialOrd, Ord)]
pub struct Vcn(pub usize);

impl Vcn {
    /// Byte offset of the cluster, for clusters of `cluster_size` bytes.
    pub fn to_bytes(self, cluster_size: usize) -> (offset: usize)
        requires
            self.0 * cluster_size <= usize::MAX,
        ensures
            offset == self.0 * cluster_size,
    {
        self.0 * cluster_size
    }
}

impl core::ops::Add<Vcn> for Vcn {
    type Output = Vcn;

    fn add(self, rhs: Vcn) -> (sum: Vcn) {
        Vcn(self.0 + rhs.0)
    }
}

impl AddSpecImpl<Vcn> for Vcn {
    open spec fn obeys_add_spec() -> bool {
        true
    }

    open spec fn add_req(self, rhs: Vcn) -> bool {
        self.0 + rhs.0 <= usize::MAX
    }

    open spec fn add_spec(self, rhs: Vcn) -> Vcn {
        Vcn((self.0 + rhs.0) as usize)
    }
}

} // verus!
