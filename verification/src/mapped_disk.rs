//! A disk image held in memory, read through a byte cursor.
use vstd::prelude::*;
use vstd::slice::slice_to_vec;
use vstd::utf8::{decode_utf8, valid_utf8};

use crate::binary_struct::{BinaryParse, BinaryType};
use crate::bytes::{le_units, read_le_units};
use crate::text::{spec_utf16_decode, string_from_utf16, string_from_utf8};

verus! {

/// The size in bytes of a disk sector.
pub const SECTOR_SIZE: usize = 512;

/// Why a read from a disk image failed.
#[derive(Debug, Clone, Copy, PartialEq, Eq)]
pub enum MappedDiskError {
    /// The read reaches past the end of the data; the offset at which it was attempted.
    OutOfBounds(usize),
    /// The data at this offset holds something that cannot be decoded or followed.
    Malformed(usize),
}

/// The outcome of a read from a disk image.
pub type MappedDiskResult<T> = Result<T, MappedDiskError>;

/// The value of type `T` that the `size` bytes of `bytes` at `offset` hold, if they are
/// inside `bytes` and hold one.
pub open spec fn spec_read_at<T: BinaryParse>(bytes: Seq<u8>, offset: int, size: int) -> Option<
    T::V,
> {
    if offset + size > bytes.len() {
        None
    } else {
        T::spec_parse(bytes.subrange(offset, offset + size))
    }
}

/// A disk image and a cursor into it.
#[derive(Clone, Copy)]
pub struct MappedDisk<'a> {
    data: &'a [u8],
    cursor: usize,
}

impl<'a> MappedDisk<'a> {
    #[verifier::type_invariant]
    spec fn inv(self) -> bool {
        self.cursor <= self.data@.len()
    }

    /// The bytes of the image.
    pub closed spec fn contents(self) -> Seq<u8> {
        self.data@
    }

    /// The cursor, in bytes from the start of the image.
    pub closed spec fn pos(self) -> int {
        self.cursor as int
    }

    /// A disk over the bytes of an image, with the cursor at its start.
    pub fn new(data: &'a [u8]) -> (disk: Self)
        ensures
            disk.contents() == data@,
            disk.pos() == 0,
    {
        MappedDisk { data, cursor: 0 }
    }

    /// Size of the image in bytes.
    pub fn len(&self) -> (n: usize)
        ensures
            n == self.contents().len(),
            self.pos() <= n,
    {
        proof {
            use_type_invariant(self);
        }
        self.data.len()
    }

    /// Read `size` bytes starting from `offset` without moving the cursor.
    pub fn read_bytes_at(&self, offset: usize, size: usize) -> (res: MappedDiskResult<&'a [u8]>)
        ensures
            res is Ok <==> offset + size <= self.contents().len(),
            res matches Ok(b) ==> b@ == self.contents().subrange(offset as int, offset + size),
            res matches Err(e) ==> e == MappedDiskError::OutOfBounds(offset),
    {
        let data: &'a [u8] = self.data;
        if offset > data.len() || size > data.len() - offset {
            Err(MappedDiskError::OutOfBounds(offset))
        } else {
            Ok(&data[offset..offset + size])
        }
    }

    /// Read `num_sectors` sectors starting at sector `offset_lba` without moving the cursor;
    /// both are counted in sectors (LBAs).
    pub fn read_bytes_starting_at_sector(&self, offset_lba: usize, num_sectors: usize) -> (res:
        MappedDiskResult<&'a [u8]>)
        requires
            offset_lba * SECTOR_SIZE <= usize::MAX,
            num_sectors * SECTOR_SIZE <= usize::MAX,
        ensures
            res is Ok <==> (offset_lba + num_sectors) * SECTOR_SIZE <= self.contents().len(),
            res matches Ok(b) ==> b@ == self.contents().subrange(
                offset_lba * SECTOR_SIZE,
                (offset_lba + num_sectors) * SECTOR_SIZE,
            ),
            res matches Err(e) ==> e == MappedDiskError::OutOfBounds(
                (offset_lba * SECTOR_SIZE) as usize,
            ),
    {
        self.read_sectors_at(offset_lba, num_sectors)
    }

    /// Read `num_sectors` sectors starting at sector `offset_lba` without moving the cursor.
    pub fn read_sectors_at(&self, offset_lba: usize, num_sectors: usize) -> (res: MappedDiskResult<
        &'a [u8],
    >)
        requires
            offset_lba * SECTOR_SIZE <= usize::MAX,
            num_sectors * SECTOR_SIZE <= usize::MAX,
        ensures
            res is Ok <==> (offset_lba + num_sectors) * SECTOR_SIZE <= self.contents().len(),
            res matches Ok(b) ==> b@ == self.contents().subrange(
                offset_lba * SECTOR_SIZE,
                (offset_lba + num_sectors) * SECTOR_SIZE,
            ),
            res matches Err(e) ==> e == MappedDiskError::OutOfBounds(
                (offset_lba * SECTOR_SIZE) as usize,
            ),
    {
        let offset = offset_lba * SECTOR_SIZE;
        let size = num_sectors * SECTOR_SIZE;
        self.read_bytes_at(offset, size)
    }

    /// Read a `T` from the bytes at `offset` without moving the cursor.
    fn read_at<T: BinaryType>(&self, offset: usize) -> (res: MappedDiskResult<T>)
        ensures
            res is Ok <==> spec_read_at::<T>(self.contents(), offset as int, T::SIZE as int) is Some,
            res matches Ok(v) ==> spec_read_at::<T>(self.contents(), offset as int, T::SIZE as int)
                == Some(v@),
            res matches Err(e) ==> e == MappedDiskError::OutOfBounds(offset),
    {
        let bytes = self.read_bytes_at(offset, T::SIZE)?;
        match T::parse(bytes) {
            Ok(v) => Ok(v),
            Err(_) => Err(MappedDiskError::OutOfBounds(offset)),
        }
    }

    /// Read `size` bytes starting at the cursor, and move the cursor past them.
    pub fn read_bytes(&mut self, size: usize) -> (res: MappedDiskResult<&'a [u8]>)
        ensures
            final(self).contents() == old(self).contents(),
            res is Ok <==> old(self).pos() + size <= old(self).contents().len(),
            res matches Ok(b) ==> b@ == old(self).contents().subrange(
                old(self).pos(),
                old(self).pos() + size,
            ) && final(self).pos() == old(self).pos() + size,
            res matches Err(e) ==> e == MappedDiskError::OutOfBounds(old(self).pos() as usize)
                && final(self).pos() == old(self).pos(),
    {
        let offset = self.cursor;
        let bytes = self.read_bytes_at(offset, size)?;
        assert(offset + size <= self.data.len());
        self.cursor = offset + size;
        Ok(bytes)
    }

    /// Read the byte at the cursor and move the cursor past it.
    pub fn read_byte(&mut self) -> (res: MappedDiskResult<u8>)
        ensures
            final(self).contents() == old(self).contents(),
            res is Ok <==> old(self).pos() < old(self).contents().len(),
            res matches Ok(b) ==> b == old(self).contents()[old(self).pos()] && final(self).pos()
                == old(self).pos() + 1,
            res matches Err(e) ==> e == MappedDiskError::OutOfBounds(old(self).pos() as usize)
                && final(self).pos() == old(self).pos(),
    {
        let offset = self.cursor;
        if offset >= self.data.len() {
            Err(MappedDiskError::OutOfBounds(offset))
        } else {
            self.cursor = offset + 1;
            Ok(self.data[offset])
        }
    }

    /// The byte at the cursor; the cursor does not move.
    pub fn peek_byte(&self) -> (res: MappedDiskResult<u8>)
        ensures
            res is Ok <==> self.pos() < self.contents().len(),
            res matches Ok(b) ==> b == self.contents()[self.pos()],
            res matches Err(e) ==> e == MappedDiskError::OutOfBounds(self.pos() as usize),
    {
        let offset = self.cursor;
        if offset >= self.data.len() {
            Err(MappedDiskError::OutOfBounds(offset))
        } else {
            Ok(self.data[offset])
        }
    }

    /// Read `size` bytes at the cursor, move past them, and parse a `T` out of them.
    pub fn read_with_size<T: BinaryParse>(&mut self, size: usize) -> (res: MappedDiskResult<T>)
        ensures
            final(self).contents() == old(self).contents(),
            res is Ok <==> spec_read_at::<T>(old(self).contents(), old(self).pos(), size as int)
                is Some,
            res matches Ok(v) ==> spec_read_at::<T>(old(self).contents(), old(self).pos(), size as int)
                == Some(v@),
            old(self).pos() + size <= old(self).contents().len() ==> final(self).pos() == old(
                self,
            ).pos() + size,
            old(self).pos() + size > old(self).contents().len() ==> final(self).pos() == old(
                self,
            ).pos(),
            res matches Err(e) ==> e == MappedDiskError::OutOfBounds(final(self).pos() as usize),
    {
        let bytes = self.read_bytes(size)?;
        match T::parse(bytes) {
            Ok(v) => Ok(v),
            Err(_) => Err(MappedDiskError::OutOfBounds(self.cursor)),
        }
    }

    /// Read `size` bytes at the cursor as UTF-8 text, and move past them.
    pub fn read_string_utf8(&mut self, size: usize) -> (res: MappedDiskResult<String>)
        ensures
            final(self).contents() == old(self).contents(),
            ({
                let bytes = old(self).contents().subrange(old(self).pos(), old(self).pos() + size);
                &&& res is Ok <==> old(self).pos() + size <= old(self).contents().len()
                    && valid_utf8(bytes)
                &&& res matches Ok(s) ==> s@ == decode_utf8(bytes)
                &&& old(self).pos() + size > old(self).contents().len() ==> res == Err::<
                    String,
                    _,
                >(MappedDiskError::OutOfBounds(old(self).pos() as usize))
                &&& old(self).pos() + size <= old(self).contents().len() && !valid_utf8(bytes)
                    ==> res == Err::<String, _>(
                    MappedDiskError::Malformed(old(self).pos() as usize),
                )
            }),
    {
        let offset = self.cursor;
        let bytes = self.read_bytes(size)?;
        match string_from_utf8(slice_to_vec(bytes)) {
            Some(s) => Ok(s),
            None => Err(MappedDiskError::Malformed(offset)),
        }
    }

    /// Read `size` bytes at the cursor as UTF-16 text (little-endian units), and move past
    /// them.
    pub fn read_string_utf16(&mut self, size: usize) -> (res: MappedDiskResult<String>)
        ensures
            final(self).contents() == old(self).contents(),
            ({
                let bytes = old(self).contents().subrange(old(self).pos(), old(self).pos() + size);
                &&& res is Ok <==> old(self).pos() + size <= old(self).contents().len()
                    && spec_utf16_decode(le_units(bytes)) is Some
                &&& res matches Ok(s) ==> spec_utf16_decode(le_units(bytes)) == Some(s@)
                &&& old(self).pos() + size > old(self).contents().len() ==> res == Err::<
                    String,
                    _,
                >(MappedDiskError::OutOfBounds(old(self).pos() as usize))
                &&& old(self).pos() + size <= old(self).contents().len() && spec_utf16_decode(
                    le_units(bytes),
                ) is None ==> res == Err::<String, _>(
                    MappedDiskError::Malformed(old(self).pos() as usize),
                )
            }),
    {
        let offset = self.cursor;
        let bytes = self.read_bytes(size)?;
        let units = read_le_units(bytes);
        match string_from_utf16(units.as_slice()) {
            Some(s) => Ok(s),
            None => Err(MappedDiskError::Malformed(offset)),
        }
    }

    /// Read a `T` at the cursor and move the cursor past it.
    pub fn read<T: BinaryType>(&mut self) -> (res: MappedDiskResult<T>)
        ensures
            final(self).contents() == old(self).contents(),
            res is Ok <==> spec_read_at::<T>(old(self).contents(), old(self).pos(), T::SIZE as int)
                is Some,
            res matches Ok(v) ==> spec_read_at::<T>(
                old(self).contents(),
                old(self).pos(),
                T::SIZE as int,
            ) == Some(v@),
            old(self).pos() + T::SIZE <= old(self).contents().len() ==> final(self).pos() == old(
                self,
            ).pos() + T::SIZE,
            old(self).pos() + T::SIZE > old(self).contents().len() ==> final(self).pos() == old(
                self,
            ).pos(),
            res matches Err(e) ==> e == MappedDiskError::OutOfBounds(final(self).pos() as usize),
    {
        let bytes = self.read_bytes(T::SIZE)?;
        match T::parse(bytes) {
            Ok(v) => Ok(v),
            Err(_) => Err(MappedDiskError::OutOfBounds(self.cursor)),
        }
    }

    /// Read a `T` at the cursor; the cursor does not move.
    pub fn peek<T: BinaryType>(&self) -> (res: MappedDiskResult<T>)
        ensures
            res is Ok <==> spec_read_at::<T>(self.contents(), self.pos(), T::SIZE as int) is Some,
            res matches Ok(v) ==> spec_read_at::<T>(self.contents(), self.pos(), T::SIZE as int)
                == Some(v@),
            res matches Err(e) ==> e == MappedDiskError::OutOfBounds(self.pos() as usize),
    {
        let offset = self.cursor;
        self.read_at::<T>(offset)
    }

    /// Set the cursor to `offset` bytes from the start of the image.
    pub fn set_cursor(&mut self, offset: usize) -> (res: MappedDiskResult<()>)
        ensures
            final(self).contents() == old(self).contents(),
            res is Ok <==> offset <= old(self).contents().len(),
            res is Ok ==> final(self).pos() == offset,
            res matches Err(e) ==> e == MappedDiskError::OutOfBounds(offset) && final(self).pos()
                == old(self).pos(),
    {
        if offset > self.data.len() {
            Err(MappedDiskError::OutOfBounds(offset))
        } else {
            self.cursor = offset;
            Ok(())
        }
    }

    /// Set the cursor to the start of sector `lba`.
    pub fn set_cursor_from_lba(&mut self, lba: usize) -> (res: MappedDiskResult<()>)
        requires
            lba * SECTOR_SIZE <= usize::MAX,
        ensures
            final(self).contents() == old(self).contents(),
            res is Ok <==> lba * SECTOR_SIZE <= old(self).contents().len(),
            res is Ok ==> final(self).pos() == lba * SECTOR_SIZE,
            res matches Err(e) ==> e == MappedDiskError::OutOfBounds((lba * SECTOR_SIZE) as usize)
                && final(self).pos() == old(self).pos(),
    {
        let offset = lba * SECTOR_SIZE;
        self.set_cursor(offset)
    }

    /// Move the cursor `offset` bytes forward.
    pub fn set_cursor_relative(&mut self, offset: usize) -> (res: MappedDiskResult<()>)
        requires
            old(self).pos() + offset <= usize::MAX,
        ensures
            final(self).contents() == old(self).contents(),
            res is Ok <==> old(self).pos() + offset <= old(self).contents().len(),
            res is Ok ==> final(self).pos() == old(self).pos() + offset,
            res matches Err(e) ==> e == MappedDiskError::OutOfBounds(
                (old(self).pos() + offset) as usize,
            ) && final(self).pos() == old(self).pos(),
    {
        let target = self.current_offset() + offset;
        self.set_cursor(target)
    }

    /// The cursor, in bytes from the start of the image.
    pub fn current_offset(&self) -> (offset: usize)
        ensures
            offset == self.pos(),
            offset <= self.contents().len(),
    {
        proof {
            use_type_invariant(self);
        }
        self.cursor
    }
}

/// A window of `buffer_size` bytes copied out of a disk image, read through its own cursor.
///
/// The cursor is an index into the window; `set_cursor` takes a disk offset and keeps it
/// modulo the window size.
pub struct BufferedMappedDisk<'a> {
    disk: MappedDisk<'a>,
    buffer_start_offset: usize,
    pub buffer_size: usize,
    pub buffer: Vec<u8>,
    cursor: usize,
}

impl<'a> BufferedMappedDisk<'a> {
    /// The disk image the window is copied from.
    pub closed spec fn disk_contents(self) -> Seq<u8> {
        self.disk.contents()
    }

    /// Disk offset of the first byte of the window.
    pub closed spec fn start(self) -> int {
        self.buffer_start_offset as int
    }

    /// The cursor, as an index into the window.
    pub closed spec fn pos(self) -> int {
        self.cursor as int
    }

    /// The cursor is never negative.
    pub broadcast proof fn lemma_pos_nonneg(self)
        ensures
            #[trigger] self.pos() >= 0,
    {
    }

    /// Reads never reach past the window size.
    pub broadcast proof fn lemma_window_len(self)
        ensures
            #[trigger] self.window().len() <= self.size(),
    {
    }

    /// The size of the window.
    pub closed spec fn size(self) -> usize {
        self.buffer_size
    }

    /// The bytes copied into the buffer.
    pub closed spec fn bytes(self) -> Seq<u8> {
        self.buffer@
    }

    /// The bytes that reads can reach: the buffer, up to `buffer_size` bytes of it.
    pub closed spec fn window(self) -> Seq<u8> {
        if self.buffer_size <= self.buffer@.len() {
            self.buffer@.take(self.buffer_size as int)
        } else {
            self.buffer@
        }
    }

    /// A buffered view of `disk` with a window of `buffer_size` bytes, starting at the disk's
    /// cursor; the window is empty until it is filled.
    pub fn new(disk: &MappedDisk<'a>, buffer_size: usize) -> (res: Self)
        requires
            buffer_size > 0,
        ensures
            res.disk_contents() == disk.contents(),
            res.start() == disk.pos(),
            res.pos() == disk.pos() % (buffer_size as int),
            res.size() == buffer_size,
            res.bytes() == Seq::<u8>::empty(),
    {
        BufferedMappedDisk {
            disk: *disk,
            buffer_start_offset: disk.current_offset(),
            buffer_size,
            buffer: Vec::new(),
            cursor: disk.current_offset() % buffer_size,
        }
    }

    /// Copy the `buffer_size` bytes of the disk at `offset` into the window.
    pub fn fill_buffer_at(&mut self, offset: usize) -> (res: MappedDiskResult<()>)
        ensures
            final(self).disk_contents() == old(self).disk_contents(),
            final(self).size() == old(self).size(),
            final(self).pos() == old(self).pos(),
            res is Ok <==> offset + old(self).size() <= old(self).disk_contents().len(),
            res is Ok ==> final(self).window() == final(self).bytes(),
            res is Err ==> final(self).window() == old(self).window(),
            res is Ok ==> final(self).bytes() == old(self).disk_contents().subrange(
                offset as int,
                offset + old(self).size(),
            ) && final(self).start() == offset,
            res matches Err(e) ==> e == MappedDiskError::OutOfBounds(offset) && final(self).bytes()
                == old(self).bytes() && final(self).start() == old(self).start(),
    {
        let bytes = self.disk.read_bytes_at(offset, self.buffer_size)?;
        self.buffer_start_offset = offset;
        self.buffer = slice_to_vec(bytes);
        assert(self.buffer@.take(self.buffer_size as int) =~= self.buffer@);
        Ok(())
    }

    /// `size` bytes of the window from `offset`; the cursor does not move.
    pub fn read_bytes_at(&self, offset: usize, size: usize) -> (res: MappedDiskResult<&[u8]>)
        ensures
            res is Ok <==> offset + size <= self.window().len(),
            res matches Ok(b) ==> b@ == self.window().subrange(offset as int, offset + size),
            res matches Err(e) ==> e == MappedDiskError::OutOfBounds(offset),
    {
        let limit = if self.buffer_size <= self.buffer.len() {
            self.buffer_size
        } else {
            self.buffer.len()
        };
        if offset > limit || size > limit - offset {
            Err(MappedDiskError::OutOfBounds(offset))
        } else {
            Ok(&self.buffer.as_slice()[offset..offset + size])
        }
    }

    /// Where the cursor stands after reading `size` bytes from `pos`: moved past them, unless
    /// that position does not fit in a `usize`.
    pub open spec fn advanced(pos: int, size: int) -> int {
        if pos + size <= usize::MAX {
            pos + size
        } else {
            pos
        }
    }

    /// `size` bytes of the window at the cursor; the cursor moves past them even when they
    /// are not all inside the window.
    pub fn read_bytes(&mut self, size: usize) -> (res: MappedDiskResult<&[u8]>)
        ensures
            final(self).disk_contents() == old(self).disk_contents(),
            final(self).start() == old(self).start(),
            final(self).bytes() == old(self).bytes(),
            final(self).size() == old(self).size(),
            final(self).window() == old(self).window(),
            final(self).pos() == Self::advanced(old(self).pos(), size as int),
            res is Ok ==> final(self).pos() == old(self).pos() + size,
            res is Ok <==> old(self).pos() + size <= old(self).window().len(),
            res matches Ok(b) ==> b@ == old(self).window().subrange(
                old(self).pos(),
                old(self).pos() + size,
            ),
            res matches Err(e) ==> e == MappedDiskError::OutOfBounds(old(self).pos() as usize),
    {
        let offset = self.cursor;
        match offset.checked_add(size) {
            Some(end) => {
                self.cursor = end;
            },
            None => {
                return Err(MappedDiskError::OutOfBounds(offset));
            },
        }
        self.read_bytes_at(offset, size)
    }

    /// `size` bytes at the cursor as UTF-8 text; the cursor moves past them.
    pub fn read_string_utf8(&mut self, size: usize) -> (res: MappedDiskResult<String>)
        ensures
            final(self).disk_contents() == old(self).disk_contents(),
            final(self).start() == old(self).start(),
            final(self).bytes() == old(self).bytes(),
            final(self).size() == old(self).size(),
            final(self).window() == old(self).window(),
            final(self).pos() == Self::advanced(old(self).pos(), size as int),
            res is Ok ==> final(self).pos() == old(self).pos() + size,
            ({
                let bytes = old(self).window().subrange(old(self).pos(), old(self).pos() + size);
                &&& res is Ok <==> old(self).pos() + size <= old(self).window().len() && valid_utf8(
                    bytes,
                )
                &&& res matches Ok(s) ==> s@ == decode_utf8(bytes)
                &&& res matches Err(e) ==> (if old(self).pos() + size <= old(self).window().len() {
                    e == MappedDiskError::Malformed(old(self).pos() as usize)
                } else {
                    e == MappedDiskError::OutOfBounds(old(self).pos() as usize)
                })
            }),
    {
        let offset = self.cursor;
        let bytes = self.read_bytes(size)?;
        match string_from_utf8(slice_to_vec(bytes)) {
            Some(s) => Ok(s),
            None => Err(MappedDiskError::Malformed(offset)),
        }
    }

    /// `size` bytes at the cursor as UTF-16 text (little-endian units); the cursor moves past
    /// them.
    pub fn read_string_utf16(&mut self, size: usize) -> (res: MappedDiskResult<String>)
        ensures
            final(self).disk_contents() == old(self).disk_contents(),
            final(self).start() == old(self).start(),
            final(self).bytes() == old(self).bytes(),
            final(self).size() == old(self).size(),
            final(self).window() == old(self).window(),
            final(self).pos() == Self::advanced(old(self).pos(), size as int),
            res is Ok ==> final(self).pos() == old(self).pos() + size,
            ({
                let bytes = old(self).window().subrange(old(self).pos(), old(self).pos() + size);
                &&& res is Ok <==> old(self).pos() + size <= old(self).window().len()
                    && spec_utf16_decode(le_units(bytes)) is Some
                &&& res matches Ok(s) ==> spec_utf16_decode(le_units(bytes)) == Some(s@)
                &&& res matches Err(e) ==> (if old(self).pos() + size <= old(self).window().len() {
                    e == MappedDiskError::Malformed(old(self).pos() as usize)
                } else {
                    e == MappedDiskError::OutOfBounds(old(self).pos() as usize)
                })
            }),
    {
        let offset = self.cursor;
        let bytes = self.read_bytes(size)?;
        let units = read_le_units(bytes);
        match string_from_utf16(units.as_slice()) {
            Some(s) => Ok(s),
            None => Err(MappedDiskError::Malformed(offset)),
        }
    }

    /// A `T` at the cursor; the cursor moves past it even when the read fails.
    pub fn read<T: BinaryType>(&mut self) -> (res: MappedDiskResult<T>)
        ensures
            final(self).disk_contents() == old(self).disk_contents(),
            final(self).start() == old(self).start(),
            final(self).bytes() == old(self).bytes(),
            final(self).size() == old(self).size(),
            final(self).window() == old(self).window(),
            final(self).pos() == Self::advanced(old(self).pos(), T::SIZE as int),
            res is Ok ==> final(self).pos() == old(self).pos() + T::SIZE,
            res is Ok <==> spec_read_at::<T>(old(self).window(), old(self).pos(), T::SIZE as int)
                is Some,
            res matches Ok(v) ==> spec_read_at::<T>(old(self).window(), old(self).pos(), T::SIZE as int)
                == Some(v@),
            res matches Err(e) ==> e == MappedDiskError::OutOfBounds(
                if old(self).pos() + T::SIZE <= old(self).window().len() {
                    (old(self).pos() + T::SIZE) as usize
                } else {
                    old(self).pos() as usize
                },
            ),
    {
        let bytes = self.read_bytes(T::SIZE)?;
        match T::parse(bytes) {
            Ok(v) => Ok(v),
            Err(_) => Err(MappedDiskError::OutOfBounds(self.current_buffer_offset())),
        }
    }

    /// A `T` parsed out of `size` bytes at the cursor; the cursor moves past them.
    pub fn read_with_size<T: BinaryParse>(&mut self, size: usize) -> (res: MappedDiskResult<T>)
        ensures
            final(self).disk_contents() == old(self).disk_contents(),
            final(self).start() == old(self).start(),
            final(self).bytes() == old(self).bytes(),
            final(self).size() == old(self).size(),
            final(self).window() == old(self).window(),
            final(self).pos() == Self::advanced(old(self).pos(), size as int),
            res is Ok ==> final(self).pos() == old(self).pos() + size,
            res is Ok <==> spec_read_at::<T>(old(self).window(), old(self).pos(), size as int) is Some,
            res matches Ok(v) ==> spec_read_at::<T>(old(self).window(), old(self).pos(), size as int)
                == Some(v@),
            res matches Err(e) ==> e == MappedDiskError::OutOfBounds(
                if old(self).pos() + size <= old(self).window().len() {
                    (old(self).pos() + size) as usize
                } else {
                    old(self).pos() as usize
                },
            ),
    {
        let bytes = self.read_bytes(size)?;
        match T::parse(bytes) {
            Ok(v) => Ok(v),
            Err(_) => Err(MappedDiskError::OutOfBounds(self.current_buffer_offset())),
        }
    }

    /// A `T` at the cursor; the cursor does not move.
    pub fn peek<T: BinaryType>(&self) -> (res: MappedDiskResult<T>)
        ensures
            res is Ok <==> spec_read_at::<T>(self.window(), self.pos(), T::SIZE as int) is Some,
            res matches Ok(v) ==> spec_read_at::<T>(self.window(), self.pos(), T::SIZE as int)
                == Some(v@),
            res matches Err(e) ==> e == MappedDiskError::OutOfBounds(self.pos() as usize),
    {
        let offset = self.current_buffer_offset();
        self.read_at::<T>(offset)
    }

    /// Set the cursor from a disk offset: the offset modulo the window size.
    pub fn set_cursor(&mut self, offset: usize) -> (res: MappedDiskResult<()>)
        requires
            old(self).size() > 0,
        ensures
            final(self).disk_contents() == old(self).disk_contents(),
            final(self).start() == old(self).start(),
            final(self).bytes() == old(self).bytes(),
            final(self).size() == old(self).size(),
            final(self).window() == old(self).window(),
            final(self).pos() == (offset % old(self).size()) as int,
            res is Ok,
    {
        self.cursor = offset % self.buffer_size;
        Ok(())
    }

    /// Move the cursor `offset` bytes forward.
    pub fn set_cursor_relative(&mut self, offset: usize) -> (res: MappedDiskResult<()>)
        requires
            old(self).pos() + offset <= usize::MAX,
        ensures
            final(self).disk_contents() == old(self).disk_contents(),
            final(self).start() == old(self).start(),
            final(self).bytes() == old(self).bytes(),
            final(self).size() == old(self).size(),
            final(self).window() == old(self).window(),
            final(self).pos() == old(self).pos() + offset,
            res is Ok,
    {
        self.cursor = self.cursor + offset;
        Ok(())
    }

    /// The disk offset of the cursor: the start of the window plus the cursor.
    pub fn current_offset(&self) -> (offset: usize)
        requires
            self.start() + self.pos() <= usize::MAX,
        ensures
            offset == self.start() + self.pos(),
    {
        self.buffer_start_offset + self.current_buffer_offset()
    }

    fn read_at<T: BinaryType>(&self, offset: usize) -> (res: MappedDiskResult<T>)
        ensures
            res is Ok <==> spec_read_at::<T>(self.window(), offset as int, T::SIZE as int) is Some,
            res matches Ok(v) ==> spec_read_at::<T>(self.window(), offset as int, T::SIZE as int)
                == Some(v@),
            res matches Err(e) ==> e == MappedDiskError::OutOfBounds(offset),
    {
        let bytes = self.read_bytes_at(offset, T::SIZE)?;
        match T::parse(bytes) {
            Ok(v) => Ok(v),
            Err(_) => Err(MappedDiskError::OutOfBounds(offset)),
        }
    }

    /// The size of the window.
    pub fn window_size(&self) -> (n: usize)
        ensures
            n == self.size(),
    {
        self.buffer_size
    }

    /// The number of bytes in the buffer.
    pub(crate) fn buffer_len(&self) -> (n: usize)
        ensures
            n == self.bytes().len(),
    {
        self.buffer.len()
    }

    /// The byte of the buffer at `index`.
    pub(crate) fn buffer_byte(&self, index: usize) -> (b: u8)
        requires
            index < self.bytes().len(),
        ensures
            b == self.bytes()[index as int],
    {
        self.buffer[index]
    }

    /// Overwrite the byte of the buffer at `index`; the window keeps covering the whole buffer
    /// when it did.
    pub(crate) fn set_buffer_byte(&mut self, index: usize, byte: u8)
        requires
            index < old(self).bytes().len(),
        ensures
            final(self).disk_contents() == old(self).disk_contents(),
            final(self).start() == old(self).start(),
            final(self).size() == old(self).size(),
            final(self).pos() == old(self).pos(),
            final(self).bytes() == old(self).bytes().update(index as int, byte),
            old(self).window() == old(self).bytes() ==> final(self).window() == final(self).bytes(),
    {
        self.buffer.set(index, byte);
    }

    /// The position of the cursor within the window.
    pub(crate) fn current_buffer_offset(&self) -> (offset: usize)
        ensures
            offset == self.pos(),
    {
        self.cursor
    }
}

} // verus!
