//! GUIDs as Windows stores them on disk.
use vstd::prelude::*;

use crate::binary_struct::{BinaryParse, BinarySize, ParseError};
use crate::bytes::{be_nat, le_at, lemma_be_nat_bound, lemma_pow256_values, read_be_uint, read_le_uint};
use crate::text::{push_char, push_hex, spec_hex};

verus! {

/// A GUID in the mixed-endian layout of RFC 4122, section 4.1.2, as Windows stores it.
#[derive(Debug, Clone, Copy, PartialEq, Eq)]
pub struct Guid {
    /// The low field of the timestamp.
    pub time_low: u32,
    /// The middle field of the timestamp.
    pub time_mid: u16,
    /// The high field of the timestamp multiplexed with the version number.
    pub time_high_and_version: u16,
    /// The high field of the clock sequence multiplexed with the variant.
    pub clock_seq_high_and_reserved: u8,
    /// The low field of the clock sequence.
    pub clock_seq_low: u8,
    /// The spatially unique node identifier.
    pub node_identifier: [u8; 6],
}

impl View for Guid {
    type V = Guid;

    open spec fn view(&self) -> Guid {
        *self
    }
}

/// The `Guid` that the first 16 bytes of `b` hold.
pub open spec fn spec_guid(b: Seq<u8>) -> Guid {
    Guid {
        time_low: le_at(b, 0, 4) as u32,
        time_mid: le_at(b, 4, 2) as u16,
        time_high_and_version: le_at(b, 6, 2) as u16,
        clock_seq_high_and_reserved: b[8],
        clock_seq_low: b[9],
        node_identifier: [b[10], b[11], b[12], b[13], b[14], b[15]],
    }
}

impl BinarySize for Guid {
    const SIZE: usize = 16;
}

/// A GUID takes 16 bytes.
pub proof fn lemma_guid_size()
    ensures
        <Guid as BinarySize>::SIZE == 16,
{
}

impl BinaryParse for Guid {
    open spec fn spec_parse(input: Seq<u8>) -> Option<Guid> {
        if input.len() < 16 {
            None
        } else {
            Some(spec_guid(input))
        }
    }

    fn parse(input: &[u8]) -> (res: Result<Guid, ParseError>) {
        if input.len() < 16 {
            return Err(ParseError::TooShort);
        }
        Ok(
            Guid {
                time_low: read_le_uint(input, 0, 4) as u32,
                time_mid: read_le_uint(input, 4, 2) as u16,
                time_high_and_version: read_le_uint(input, 6, 2) as u16,
                clock_seq_high_and_reserved: input[8],
                clock_seq_low: input[9],
                node_identifier: [input[10], input[11], input[12], input[13], input[14], input[15]],
            },
        )
    }
}

/// The GUID held by the 16 bytes of `input` at `off`.
pub fn guid_at(input: &[u8], off: usize) -> (g: Guid)
    requires
        off + 16 <= input.len(),
    ensures
        g == spec_guid(input@.subrange(off as int, off + 16)),
{
    let bytes = &input[off..off + 16];
    match Guid::parse(bytes) {
        Ok(g) => g,
        Err(_) => {
            assert(false);
            Guid {
                time_low: 0,
                time_mid: 0,
                time_high_and_version: 0,
                clock_seq_high_and_reserved: 0,
                clock_seq_low: 0,
                node_identifier: [0u8; 6],
            }
        },
    }
}

/// The text of a GUID: its five groups in upper-case hexadecimal (8, 4, 4, 4 and 12 digits)
/// separated by hyphens; the clock sequence and the node are read big-endian.
pub open spec fn spec_guid_string(g: Guid) -> Seq<char> {
    spec_hex(g.time_low as nat, 8, true) + seq!['-'] + spec_hex(g.time_mid as nat, 4, true) + seq![
        '-',
    ] + spec_hex(g.time_high_and_version as nat, 4, true) + seq!['-'] + spec_hex(
        g.clock_seq_high_and_reserved as nat * 256 + g.clock_seq_low as nat,
        4,
        true,
    ) + seq!['-'] + spec_hex(be_nat(g.node_identifier@), 12, true)
}

impl Guid {
    /// The text of the GUID, as in `EBD0A0A2-B9E5-4433-87C0-68B6B72699C7`.
    pub fn to_string(&self) -> (s: String)
        ensures
            s@ == spec_guid_string(*self),
    {
        let clock_seq: u64 = self.clock_seq_high_and_reserved as u64 * 256
            + self.clock_seq_low as u64;
        let node = read_be_uint(self.node_identifier.as_slice(), 0, 6);
        assert(self.node_identifier@.subrange(0, 6) =~= self.node_identifier@);
        let mut s = String::new();
        push_hex(&mut s, self.time_low as u64, 8, true);
        push_char(&mut s, '-');
        push_hex(&mut s, self.time_mid as u64, 4, true);
        push_char(&mut s, '-');
        push_hex(&mut s, self.time_high_and_version as u64, 4, true);
        push_char(&mut s, '-');
        push_hex(&mut s, clock_seq, 4, true);
        push_char(&mut s, '-');
        push_hex(&mut s, node, 12, true);
        assert(s@ =~= spec_guid_string(*self));
        s
    }
}

} // verus!
