//! How fixed-layout values are read out of raw little-endian bytes.
use vstd::prelude::*;

use crate::bytes::{le_at, lemma_le_nat_bound, lemma_pow256_values, read_le_uint};

verus! {

/// Why a value could not be read out of a byte slice.
#[derive(Debug, Clone, Copy, PartialEq, Eq)]
pub enum ParseError {
    /// The slice holds fewer bytes than the value needs.
    TooShort,
    /// A text field does not hold valid UTF-16.
    InvalidUtf16,
}

/// Number of bytes a value of the type occupies on disk.
pub trait BinarySize {
    const SIZE: usize;
}

/// Reading a value of the type out of the bytes at the start of a slice.
///
/// `spec_parse` is the meaning of the bytes: the value they hold, taken by its view,
/// or `None` where they hold none.
pub trait BinaryParse: Sized + View {
    spec fn spec_parse(input: Seq<u8>) -> Option<Self::V>;

    fn parse(input: &[u8]) -> (res: Result<Self, ParseError>)
        ensures
            res is Ok <==> Self::spec_parse(input@) is Some,
            res matches Ok(v) ==> Self::spec_parse(input@) == Some(v@),
    ;
}

/// A value that has a fixed size and can be parsed.
pub trait BinaryType: BinaryParse + BinarySize {

}

impl<T: BinaryParse + BinarySize> BinaryType for T {

}

/// The sizes of the integer types.
pub proof fn lemma_int_sizes()
    ensures
        <u8 as BinarySize>::SIZE == 1,
        <i8 as BinarySize>::SIZE == 1,
        <u16 as BinarySize>::SIZE == 2,
        <u32 as BinarySize>::SIZE == 4,
        <u64 as BinarySize>::SIZE == 8,
        <[u8; 2] as BinarySize>::SIZE == 2,
        <[u8; 4] as BinarySize>::SIZE == 4,
{
}

/// `N` bytes of a layout that carry nothing and are stepped over.
#[derive(Debug, Clone, Copy, Default)]
pub struct Skip<const N: usize>;

impl BinarySize for u8 {
    const SIZE: usize = 1;
}

impl BinaryParse for u8 {
    open spec fn spec_parse(input: Seq<u8>) -> Option<u8> {
        if input.len() < 1 {
            None
        } else {
            Some(input[0])
        }
    }

    fn parse(input: &[u8]) -> (res: Result<u8, ParseError>) {
        if input.len() < 1 {
            return Err(ParseError::TooShort);
        }
        Ok(input[0])
    }
}

impl BinarySize for i8 {
    const SIZE: usize = 1;
}

impl BinaryParse for i8 {
    open spec fn spec_parse(input: Seq<u8>) -> Option<i8> {
        if input.len() < 1 {
            None
        } else {
            Some(input[0] as i8)
        }
    }

    fn parse(input: &[u8]) -> (res: Result<i8, ParseError>) {
        if input.len() < 1 {
            return Err(ParseError::TooShort);
        }
        Ok(input[0] as i8)
    }
}

impl BinarySize for u16 {
    const SIZE: usize = 2;
}

impl BinaryParse for u16 {
    open spec fn spec_parse(input: Seq<u8>) -> Option<u16> {
        if input.len() < 2 {
            None
        } else {
            Some(le_at(input, 0, 2) as u16)
        }
    }

    fn parse(input: &[u8]) -> (res: Result<u16, ParseError>) {
        if input.len() < 2 {
            return Err(ParseError::TooShort);
        }
        let v = read_le_uint(input, 0, 2);
        proof {
            lemma_le_nat_bound(input@.subrange(0, 2));
            lemma_pow256_values();
        }
        Ok(v as u16)
    }
}

impl BinarySize for u32 {
    const SIZE: usize = 4;
}

impl BinaryParse for u32 {
    open spec fn spec_parse(input: Seq<u8>) -> Option<u32> {
        if input.len() < 4 {
            None
        } else {
            Some(le_at(input, 0, 4) as u32)
        }
    }

    fn parse(input: &[u8]) -> (res: Result<u32, ParseError>) {
        if input.len() < 4 {
            return Err(ParseError::TooShort);
        }
        let v = read_le_uint(input, 0, 4);
        proof {
            lemma_le_nat_bound(input@.subrange(0, 4));
            lemma_pow256_values();
        }
        Ok(v as u32)
    }
}

impl BinarySize for u64 {
    const SIZE: usize = 8;
}

impl BinaryParse for u64 {
    open spec fn spec_parse(input: Seq<u8>) -> Option<u64> {
        if input.len() < 8 {
            None
        } else {
            Some(le_at(input, 0, 8) as u64)
        }
    }

    fn parse(input: &[u8]) -> (res: Result<u64, ParseError>) {
        if input.len() < 8 {
            return Err(ParseError::TooShort);
        }
        Ok(read_le_uint(input, 0, 8))
    }
}

impl<const N: usize> BinarySize for [u8; N] {
    const SIZE: usize = N;
}

impl<const N: usize> BinaryParse for [u8; N] {
    open spec fn spec_parse(input: Seq<u8>) -> Option<Seq<u8>> {
        if input.len() < N {
            None
        } else {
            Some(input.take(N as int))
        }
    }

    fn parse(input: &[u8]) -> (res: Result<[u8; N], ParseError>) {
        if input.len() < N {
            return Err(ParseError::TooShort);
        }
        Ok(copy_array::<N>(input, 0))
    }
}

/// The `N` bytes of `input` that start at `pos`, as an array.
pub fn copy_array<const N: usize>(input: &[u8], pos: usize) -> (out: [u8; N])
    requires
        pos + N <= input@.len(),
    ensures
        out@ == input@.subrange(pos as int, pos + N),
{
    let mut out = [0u8; N];
    let mut i: usize = 0;
    while i < N
        invariant
            i <= N,
            pos + N <= input.len(),
            out@.len() == N,
            forall|j: int| 0 <= j < i ==> out@[j] == input@[pos + j],
        decreases N - i,
    {
        out[i] = input[pos + i];
        i = i + 1;
    }
    assert(out@ =~= input@.subrange(pos as int, pos + N));
    out
}

} // verus!
