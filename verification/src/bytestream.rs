//! A stream over a disk image: a buffer of bytes copied out of the image, read through a
//! cursor, and the position in the image that the next copy starts from.
use vstd::prelude::*;
use vstd::slice::slice_to_vec;

use crate::binary_struct::ParseError;
use crate::bytes::{be_at, le_at, le_units, lemma_le_nat_bound, lemma_pow256_values, read_le_units};
use crate::text::{spec_utf16_decode, string_from_utf16};

verus! {

/// Bytes per sector.
pub const SECTOR_SIZE: usize = 512;

/// Why a read from the stream failed.
#[derive(Debug, Clone, Copy, PartialEq, Eq)]
pub enum StreamError {
    /// The image or the buffer ends before the bytes asked for.
    UnexpectedEof,
    /// The bytes do not hold what they should.
    InvalidData,
}

/// The byte order of a multi-byte integer.
#[derive(Debug, Clone, Copy, PartialEq, Eq)]
pub enum Endianness {
    Little,
    Big,
}

/// The unsigned integer that the `n` bytes of `b` at `p` hold in the byte order `order`.
pub open spec fn ordered_at(b: Seq<u8>, p: int, n: int, order: Endianness) -> nat {
    match order {
        Endianness::Little => le_at(b, p, n),
        Endianness::Big => be_at(b, p, n),
    }
}

/// Calls `byteorder::LittleEndian::read_u16`. Trusted: the crate reads the first two bytes
/// of `buf` with `u16::from_le_bytes`; it panics on a shorter `buf`, which `requires` leaves out.
#[verifier::external_body]
fn le_read_u16(buf: &[u8]) -> (v: u16)
    requires
        buf@.len() >= 2,
    ensures
        v == le_at(buf@, 0, 2),
{
    <byteorder::LittleEndian as byteorder::ByteOrder>::read_u16(buf)
}

/// Calls `byteorder::LittleEndian::read_u32`. Trusted: the first four bytes of `buf`, read
/// with `u32::from_le_bytes`.
#[verifier::external_body]
fn le_read_u32(buf: &[u8]) -> (v: u32)
    requires
        buf@.len() >= 4,
    ensures
        v == le_at(buf@, 0, 4),
{
    <byteorder::LittleEndian as byteorder::ByteOrder>::read_u32(buf)
}

/// Calls `byteorder::LittleEndian::read_u64`. Trusted: the first eight bytes of `buf`, read
/// with `u64::from_le_bytes`.
#[verifier::external_body]
fn le_read_u64(buf: &[u8]) -> (v: u64)
    requires
        buf@.len() >= 8,
    ensures
        v == le_at(buf@, 0, 8),
{
    <byteorder::LittleEndian as byteorder::ByteOrder>::read_u64(buf)
}

/// Calls `byteorder::BigEndian::read_u16`. Trusted: the first two bytes of `buf`, read with
/// `u16::from_be_bytes`.
#[verifier::external_body]
fn be_read_u16(buf: &[u8]) -> (v: u16)
    requires
        buf@.len() >= 2,
    ensures
        v == be_at(buf@, 0, 2),
{
    <byteorder::BigEndian as byteorder::ByteOrder>::read_u16(buf)
}

/// Calls `byteorder::BigEndian::read_u32`. Trusted: the first four bytes of `buf`, read with
/// `u32::from_be_bytes`.
#[verifier::external_body]
fn be_read_u32(buf: &[u8]) -> (v: u32)
    requires
        buf@.len() >= 4,
    ensures
        v == be_at(buf@, 0, 4),
{
    <byteorder::BigEndian as byteorder::ByteOrder>::read_u32(buf)
}

/// Calls `byteorder::BigEndian::read_u64`. Trusted: the first eight bytes of `buf`, read with
/// `u64::from_be_bytes`.
#[verifier::external_body]
fn be_read_u64(buf: &[u8]) -> (v: u64)
    requires
        buf@.len() >= 8,
    ensures
        v == be_at(buf@, 0, 8),
{
    <byteorder::BigEndian as byteorder::ByteOrder>::read_u64(buf)
}

/// A stream over the disk image `image`.
pub struct ByteStream<'a> {
    image: &'a [u8],
    reader: usize,
    buffer: Vec<u8>,
    cursor: usize,
}

/// Whether the stream changed nothing but its cursor.
pub open spec fn same_source(a: ByteStream, b: ByteStream) -> bool {
    &&& a.image() == b.image()
    &&& a.reader() == b.reader()
    &&& a.buffer() == b.buffer()
}

impl<'a> ByteStream<'a> {
    #[verifier::type_invariant]
    spec fn inv(self) -> bool {
        self.cursor <= self.buffer@.len()
    }

    /// The disk image.
    pub closed spec fn image(self) -> Seq<u8> {
        self.image@
    }

    /// Where in the image the next copy into the buffer starts.
    pub closed spec fn reader(self) -> int {
        self.reader as int
    }

    /// The bytes copied into the buffer.
    pub closed spec fn buffer(self) -> Seq<u8> {
        self.buffer@
    }

    /// The cursor into the buffer.
    pub closed spec fn cursor(self) -> int {
        self.cursor as int
    }

    /// The cursor is never negative.
    pub broadcast proof fn lemma_cursor_nonneg(self)
        ensures
            0 <= #[trigger] self.cursor(),
    {
    }

    /// A stream whose buffer holds the `size` bytes from sector `offset` of `image`.
    pub fn new(image: &'a [u8], size: usize, offset: u64) -> (res: Result<Self, StreamError>)
        requires
            offset * (SECTOR_SIZE as u64) <= u64::MAX,
        ensures
            res is Ok <==> offset * SECTOR_SIZE + size <= image@.len(),
            res matches Ok(s) ==> {
                &&& s.image() == image@
                &&& s.buffer() == image@.subrange(
                    offset * SECTOR_SIZE,
                    offset * SECTOR_SIZE + size,
                )
                &&& s.cursor() == 0
                &&& s.reader() == offset * SECTOR_SIZE + size
            },
            res matches Err(e) ==> e == StreamError::UnexpectedEof,
    {
        let start = offset * (SECTOR_SIZE as u64);
        let buffer = read_exact_at(image, start, size)?;
        Ok(ByteStream { image, reader: start as usize + size, buffer, cursor: 0 })
    }

    /// A stream whose buffer holds the `size` bytes from the start of the sector that holds
    /// byte `offset` of `image`, with the cursor moved to `offset` (or to the end of the
    /// buffer, when `offset` lies past it).
    pub fn from_byte_offset(image: &'a [u8], size: usize, offset: u64) -> (res: Result<
        Self,
        StreamError,
    >)
        ensures
            ({
                let start = (offset / (SECTOR_SIZE as u64)) * SECTOR_SIZE;
                &&& res is Ok <==> start + size <= image@.len()
                &&& res matches Ok(s) ==> {
                    &&& s.image() == image@
                    &&& s.buffer() == image@.subrange(start, start + size)
                    &&& s.cursor() == if offset - start <= size {
                        offset - start
                    } else {
                        size as int
                    }
                    &&& s.reader() == start + size
                }
                &&& res matches Err(e) ==> e == StreamError::UnexpectedEof
            }),
    {
        let sector_num = offset / (SECTOR_SIZE as u64);
        assert(sector_num * 512 <= offset) by (nonlinear_arith)
            requires
                sector_num == offset / 512,
        ;
        let start = sector_num * (SECTOR_SIZE as u64);
        let byte_offset = offset - start;
        let buffer = read_exact_at(image, start, size)?;
        let mut stream = ByteStream { image, reader: start as usize + size, buffer, cursor: 0 };
        stream.skip_bytes(byte_offset)?;
        Ok(stream)
    }

    /// The length of the image.
    pub fn image_len(&self) -> (n: usize)
        ensures
            n == self.image().len(),
    {
        self.image.len()
    }

    /// The position of the reader in the image plus the cursor.
    pub fn get_byte_offset(&mut self) -> (res: Result<u64, StreamError>)
        requires
            old(self).reader() + old(self).cursor() <= u64::MAX,
        ensures
            *final(self) == *old(self),
            res == Ok::<u64, StreamError>((old(self).reader() + old(self).cursor()) as u64),
    {
        proof {
            use_type_invariant(&*self);
        }
        Ok(self.reader as u64 + self.cursor as u64)
    }

    /// The next `amount` bytes of the buffer.
    pub fn read_raw(&mut self, amount: usize) -> (res: Result<Vec<u8>, StreamError>)
        ensures
            same_source(*old(self), *final(self)),
            res is Ok <==> old(self).cursor() + amount <= old(self).buffer().len(),
            res matches Ok(v) ==> v@ == old(self).buffer().subrange(
                old(self).cursor(),
                old(self).cursor() + amount,
            ) && final(self).cursor() == old(self).cursor() + amount,
            res matches Err(e) ==> e == StreamError::UnexpectedEof,
    {
        proof {
            use_type_invariant(&*self);
        }
        if amount > self.buffer.len() - self.cursor {
            return Err(StreamError::UnexpectedEof);
        }
        let start = self.cursor;
        let bytes = slice_to_vec(&self.buffer.as_slice()[start..start + amount]);
        self.cursor = start + amount;
        Ok(bytes)
    }

    /// The `amount` sectors of the image from sector `from`; the stream does not move.
    pub fn read_raw_sectors_from_file(&mut self, from: usize, amount: usize) -> (res: Result<
        Vec<u8>,
        StreamError,
    >)
        requires
            from * SECTOR_SIZE <= usize::MAX,
            amount * SECTOR_SIZE <= usize::MAX,
        ensures
            *final(self) == *old(self),
            res is Ok <==> from * SECTOR_SIZE + amount * SECTOR_SIZE <= old(self).image().len(),
            res matches Ok(v) ==> v@ == old(self).image().subrange(
                from * SECTOR_SIZE,
                from * SECTOR_SIZE + amount * SECTOR_SIZE,
            ),
            res matches Err(e) ==> e == StreamError::UnexpectedEof,
    {
        let start = from * SECTOR_SIZE;
        let amt = amount * SECTOR_SIZE;
        self.read_raw_bytes_from_file(start, amt)
    }

    /// The `amount` bytes of the image from byte `from`; the stream does not move.
    pub fn read_raw_bytes_from_file(&mut self, from: usize, amount: usize) -> (res: Result<
        Vec<u8>,
        StreamError,
    >)
        ensures
            *final(self) == *old(self),
            res is Ok <==> from + amount <= old(self).image().len(),
            res matches Ok(v) ==> v@ == old(self).image().subrange(from as int, from + amount),
            res matches Err(e) ==> e == StreamError::UnexpectedEof,
    {
        read_exact_at(self.image, from as u64, amount)
    }

    /// A `T` read at the cursor in little-endian order; the cursor does not move.
    pub fn peek_le<T: ReadableEndianness>(&mut self) -> (res: Result<T, StreamError>)
        ensures
            same_source(*old(self), *final(self)),
            res is Ok <==> old(self).cursor() + T::read_len() <= old(self).buffer().len(),
            res matches Ok(v) ==> v == T::decode(
                old(self).buffer(),
                old(self).cursor(),
                Endianness::Little,
            ) && final(self).cursor() == old(self).cursor(),
            res matches Err(e) ==> e == StreamError::UnexpectedEof,
    {
        let current_index = self.cursor;
        let result = self.read_le::<T>()?;
        self.cursor = current_index;
        Ok(result)
    }

    /// A `T` read at the cursor.
    pub fn read<T: Readable>(&mut self) -> (res: Result<T, StreamError>)
        ensures
            same_source(*old(self), *final(self)),
            res is Ok <==> T::decode(old(self).buffer(), old(self).cursor()) is Some,
            res matches Ok(v) ==> T::decode(old(self).buffer(), old(self).cursor()) == Some(
                (v@, final(self).cursor()),
            ),
            res matches Err(e) ==> e == T::decode_error(old(self).buffer(), old(self).cursor()),
    {
        T::read(self)
    }

    /// A `T` read at the cursor in little-endian order.
    pub fn read_le<T: ReadableEndianness>(&mut self) -> (res: Result<T, StreamError>)
        ensures
            same_source(*old(self), *final(self)),
            res is Ok <==> old(self).cursor() + T::read_len() <= old(self).buffer().len(),
            res matches Ok(v) ==> v == T::decode(
                old(self).buffer(),
                old(self).cursor(),
                Endianness::Little,
            ) && final(self).cursor() == old(self).cursor() + T::read_len(),
            res matches Err(e) ==> e == StreamError::UnexpectedEof,
    {
        T::read(self, Endianness::Little)
    }

    /// A `T` read at the cursor in big-endian order.
    pub fn read_be<T: ReadableEndianness>(&mut self) -> (res: Result<T, StreamError>)
        ensures
            same_source(*old(self), *final(self)),
            res is Ok <==> old(self).cursor() + T::read_len() <= old(self).buffer().len(),
            res matches Ok(v) ==> v == T::decode(
                old(self).buffer(),
                old(self).cursor(),
                Endianness::Big,
            ) && final(self).cursor() == old(self).cursor() + T::read_len(),
            res matches Err(e) ==> e == StreamError::UnexpectedEof,
    {
        T::read(self, Endianness::Big)
    }

    /// One `T` read at the cursor, repeated `S` times.
    pub fn read_array<T: Readable + Copy, const S: usize>(&mut self) -> (res: Result<
        [T; S],
        StreamError,
    >)
        ensures
            same_source(*old(self), *final(self)),
            res is Ok <==> T::decode(old(self).buffer(), old(self).cursor()) is Some,
            res matches Ok(a) ==> T::decode(old(self).buffer(), old(self).cursor()) matches Some(
                (v, end),
            ) && end == final(self).cursor() && forall|i: int| 0 <= i < S ==> #[trigger] a@[i]@ == v,
            res matches Err(e) ==> e == T::decode_error(old(self).buffer(), old(self).cursor()),
    {
        let value = T::read(self)?;
        let buffer = vstd::array::array_fill_for_copy_types::<T, S>(value);
        proof {
            assert forall|i: int| 0 <= i < S implies #[trigger] buffer@[i]@ == value@ by {
                assert(buffer[i] == value);
            }
        }
        Ok(buffer)
    }

    /// The next `S` bytes of the buffer.
    pub fn read_byte_array<const S: usize>(&mut self) -> (res: Result<[u8; S], StreamError>)
        ensures
            same_source(*old(self), *final(self)),
            res is Ok <==> old(self).cursor() + S <= old(self).buffer().len(),
            res matches Ok(a) ==> a@ == old(self).buffer().subrange(
                old(self).cursor(),
                old(self).cursor() + S,
            ) && final(self).cursor() == old(self).cursor() + S,
            res matches Err(e) ==> e == StreamError::UnexpectedEof,
    {
        proof {
            use_type_invariant(&*self);
        }
        if S > self.buffer.len() - self.cursor {
            return Err(StreamError::UnexpectedEof);
        }
        let start = self.cursor;
        let bytes = crate::binary_struct::copy_array::<S>(self.buffer.as_slice(), start);
        self.cursor = start + S;
        Ok(bytes)
    }

    /// Moves the cursor `amount` bytes on, or to the end of the buffer when fewer are left.
    pub fn skip_bytes(&mut self, amount: u64) -> (res: Result<(), StreamError>)
        ensures
            same_source(*old(self), *final(self)),
            res is Ok,
            final(self).cursor() == if old(self).cursor() + amount <= old(self).buffer().len() {
                old(self).cursor() + amount
            } else {
                old(self).buffer().len() as int
            },
    {
        proof {
            use_type_invariant(&*self);
        }
        let left = self.buffer.len() - self.cursor;
        if amount <= left as u64 {
            self.cursor = self.cursor + amount as usize;
        } else {
            self.cursor = self.buffer.len();
        }
        Ok(())
    }

    /// Moves the reader to sector `amount` and fills the buffer with that sector.
    pub fn jump_to_sector(&mut self, amount: u64) -> (res: Result<(), StreamError>)
        requires
            amount * (SECTOR_SIZE as u64) <= u64::MAX,
        ensures
            final(self).image() == old(self).image(),
            res is Ok <==> amount * SECTOR_SIZE + SECTOR_SIZE <= old(self).image().len(),
            res is Ok ==> {
                &&& final(self).buffer() == old(self).image().subrange(
                    amount * SECTOR_SIZE,
                    amount * SECTOR_SIZE + SECTOR_SIZE,
                )
                &&& final(self).cursor() == 0
                &&& final(self).reader() == amount * SECTOR_SIZE + SECTOR_SIZE
            },
            res matches Err(e) ==> e == StreamError::UnexpectedEof,
    {
        self.jump_to_byte(amount * (SECTOR_SIZE as u64))
    }

    /// Moves the reader to byte `amount` of the image and fills the buffer with the sector's
    /// worth of bytes there.
    pub fn jump_to_byte(&mut self, amount: u64) -> (res: Result<(), StreamError>)
        ensures
            final(self).image() == old(self).image(),
            res is Ok <==> amount + SECTOR_SIZE <= old(self).image().len(),
            res is Ok ==> {
                &&& final(self).buffer() == old(self).image().subrange(
                    amount as int,
                    amount + SECTOR_SIZE,
                )
                &&& final(self).cursor() == 0
                &&& final(self).reader() == amount + SECTOR_SIZE
            },
            res matches Err(e) ==> e == StreamError::UnexpectedEof,
    {
        self.refill_buffer(amount)
    }

    fn refill_buffer(&mut self, position: u64) -> (res: Result<(), StreamError>)
        ensures
            final(self).image() == old(self).image(),
            res is Ok <==> position + SECTOR_SIZE <= old(self).image().len(),
            res is Ok ==> {
                &&& final(self).buffer() == old(self).image().subrange(
                    position as int,
                    position + SECTOR_SIZE,
                )
                &&& final(self).cursor() == 0
                &&& final(self).reader() == position + SECTOR_SIZE
            },
            res matches Err(e) ==> e == StreamError::UnexpectedEof,
    {
        let buffer = read_exact_at(self.image, position, SECTOR_SIZE)?;
        self.cursor = 0;
        self.buffer = buffer;
        self.reader = position as usize + SECTOR_SIZE;
        Ok(())
    }
}

/// The `size` bytes of `image` from byte `start`.
fn read_exact_at(image: &[u8], start: u64, size: usize) -> (res: Result<Vec<u8>, StreamError>)
    ensures
        res is Ok <==> start + size <= image@.len(),
        res is Ok ==> start + size <= usize::MAX,
        res matches Ok(v) ==> v@ == image@.subrange(start as int, start + size),
        res matches Err(e) ==> e == StreamError::UnexpectedEof,
{
    let len = image.len();
    if start > len as u64 || size > len - start as usize {
        return Err(StreamError::UnexpectedEof);
    }
    let from = start as usize;
    Ok(slice_to_vec(&image[from..from + size]))
}

/// A value read out of the buffer of a stream, byte by byte.
///
/// `decode` is the meaning of the buffer `b` from `p`: the value, taken by its view, and where
/// it ends; `None` where the bytes hold none.
pub trait Readable: Sized + View {
    /// The value at `p` of the buffer `b`, and the position just past it.
    spec fn decode(b: Seq<u8>, p: int) -> Option<(Self::V, int)>;

    /// Why reading at `p` of `b` fails, where `decode` has no value there.
    spec fn decode_error(b: Seq<u8>, p: int) -> StreamError;

    fn read(reader: &mut ByteStream) -> (res: Result<Self, StreamError>)
        ensures
            same_source(*old(reader), *final(reader)),
            res is Ok <==> Self::decode(old(reader).buffer(), old(reader).cursor()) is Some,
            res matches Ok(v) ==> Self::decode(old(reader).buffer(), old(reader).cursor())
                == Some((v@, final(reader).cursor())),
            res matches Err(e) ==> e == Self::decode_error(
                old(reader).buffer(),
                old(reader).cursor(),
            ),
    ;
}

/// An integer read out of the buffer of a stream in a given byte order.
pub trait ReadableEndianness: Sized {
    spec fn read_len() -> nat;

    spec fn decode(b: Seq<u8>, p: int, order: Endianness) -> Self;

    fn read(reader: &mut ByteStream, order: Endianness) -> (res: Result<Self, StreamError>)
        ensures
            same_source(*old(reader), *final(reader)),
            res is Ok <==> old(reader).cursor() + Self::read_len() <= old(reader).buffer().len(),
            res matches Ok(v) ==> v == Self::decode(old(reader).buffer(), old(reader).cursor(), order)
                && final(reader).cursor() == old(reader).cursor() + Self::read_len(),
            res matches Err(e) ==> e == StreamError::UnexpectedEof,
    ;
}

impl Readable for u8 {
    open spec fn decode(b: Seq<u8>, p: int) -> Option<(u8, int)> {
        if 0 <= p < b.len() {
            Some((b[p], p + 1))
        } else {
            None
        }
    }

    open spec fn decode_error(b: Seq<u8>, p: int) -> StreamError {
        StreamError::UnexpectedEof
    }

    fn read(reader: &mut ByteStream) -> (res: Result<u8, StreamError>) {
        let bytes = reader.read_byte_array::<1>()?;
        Ok(bytes[0])
    }
}

impl Readable for i8 {
    open spec fn decode(b: Seq<u8>, p: int) -> Option<(i8, int)> {
        if 0 <= p < b.len() {
            Some((b[p] as i8, p + 1))
        } else {
            None
        }
    }

    open spec fn decode_error(b: Seq<u8>, p: int) -> StreamError {
        StreamError::UnexpectedEof
    }

    fn read(reader: &mut ByteStream) -> (res: Result<i8, StreamError>) {
        let bytes = reader.read_byte_array::<1>()?;
        Ok(bytes[0] as i8)
    }
}

impl ReadableEndianness for u16 {
    open spec fn read_len() -> nat {
        2
    }

    open spec fn decode(b: Seq<u8>, p: int, order: Endianness) -> u16 {
        ordered_at(b, p, 2, order) as u16
    }

    fn read(reader: &mut ByteStream, order: Endianness) -> (res: Result<u16, StreamError>) {
        let bytes = reader.read_byte_array::<2>()?;
        let ghost b = bytes@;
        proof {
            assert(b.subrange(0, 2) =~= b);
        }
        Ok(
            match order {
                Endianness::Little => le_read_u16(&bytes),
                Endianness::Big => be_read_u16(&bytes),
            },
        )
    }
}

impl ReadableEndianness for u32 {
    open spec fn read_len() -> nat {
        4
    }

    open spec fn decode(b: Seq<u8>, p: int, order: Endianness) -> u32 {
        ordered_at(b, p, 4, order) as u32
    }

    fn read(reader: &mut ByteStream, order: Endianness) -> (res: Result<u32, StreamError>) {
        let bytes = reader.read_byte_array::<4>()?;
        let ghost b = bytes@;
        proof {
            assert(b.subrange(0, 4) =~= b);
        }
        Ok(
            match order {
                Endianness::Little => le_read_u32(&bytes),
                Endianness::Big => be_read_u32(&bytes),
            },
        )
    }
}

impl ReadableEndianness for u64 {
    open spec fn read_len() -> nat {
        8
    }

    open spec fn decode(b: Seq<u8>, p: int, order: Endianness) -> u64 {
        ordered_at(b, p, 8, order) as u64
    }

    fn read(reader: &mut ByteStream, order: Endianness) -> (res: Result<u64, StreamError>) {
        let bytes = reader.read_byte_array::<8>()?;
        let ghost b = bytes@;
        proof {
            assert(b.subrange(0, 8) =~= b);
        }
        Ok(
            match order {
                Endianness::Little => le_read_u64(&bytes),
                Endianness::Big => be_read_u64(&bytes),
            },
        )
    }
}

/// The 16-bit unit whose low byte is `first` and high byte `second`: two bytes in
/// little-endian order.
pub fn bytes_to_u16(first: u8, second: u8) -> (unit: u16)
    ensures
        unit == first + 256 * second,
{
    let unit = ((second as u16) << 8) | first as u16;
    assert(((second as u16) << 8) | first as u16 == first + 256 * second) by (bit_vector);
    unit
}

/// The text of `name_bytes` read as UTF-16 in little-endian units.
pub fn interpret_bytes_as_utf16(name_bytes: &[u8]) -> (res: Result<String, ParseError>)
    requires
        name_bytes@.len() % 2 == 0,
    ensures
        res is Ok <==> spec_utf16_decode(le_units(name_bytes@)) is Some,
        res matches Ok(s) ==> spec_utf16_decode(le_units(name_bytes@)) == Some(s@),
        res matches Err(e) ==> e == ParseError::InvalidUtf16,
{
    let num_bytes = name_bytes.len();
    let mut unicode_symbols: Vec<u16> = Vec::with_capacity(num_bytes / 2);
    let mut index: usize = 0;
    while index < num_bytes
        invariant
            num_bytes == name_bytes@.len(),
            num_bytes % 2 == 0,
            index % 2 == 0,
            index <= num_bytes,
            unicode_symbols@.len() == index / 2,
            forall|i: int|
                0 <= i < index / 2 ==> #[trigger] unicode_symbols@[i] == le_units(name_bytes@)[i],
        decreases num_bytes - index,
    {
        let first = name_bytes[index];
        let second = name_bytes[index + 1];
        let unit = bytes_to_u16(first, second);
        proof {
            let sub = name_bytes@.subrange(index as int, index + 2);
            assert(sub.drop_first().drop_first() =~= Seq::<u8>::empty());
            assert(le_at(name_bytes@, index as int, 2) == first + 256 * second) by {
                reveal_with_fuel(crate::bytes::le_nat, 3);
            }
        }
        unicode_symbols.push(unit);
        index = index + 2;
    }
    proof {
        assert(unicode_symbols@ =~= le_units(name_bytes@));
    }
    match string_from_utf16(unicode_symbols.as_slice()) {
        Some(s) => Ok(s),
        None => Err(ParseError::InvalidUtf16),
    }
}

} // verus!
