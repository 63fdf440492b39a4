//! The MBR as a tree: each partition entry of the master boot record, with the entries of the
//! extended boot records that an extended partition leads to below it, read through a
//! `ByteStream`.
use vstd::prelude::*;

use crate::bytes::le_at;
use crate::bytestream::{
    ByteStream, Endianness, Readable, ReadableEndianness, SECTOR_SIZE, StreamError, same_source,
};
use crate::partition_tables::mbr::{distinct_within, lemma_path_bound, spec_partition_type_name};
use crate::text::{decimal_string, push_decimal, push_hex, spec_decimal, spec_hex};

verus! {

broadcast use ByteStream::lemma_cursor_nonneg;

/// Length of the boot code before the partition table.
const BOOTSTRAPER_LENGTH: u64 = 446;

/// Bits of the sector number in the second byte of a CHS address.
const CHS_SECTOR_BIT_SIZE: u8 = 6;

/// The bits of the second byte of a CHS address that belong to the cylinder.
const FIRST_TWO_BITS_MASK: u16 = 0b11000000;

/// The signature that ends a boot record.
pub const BOOT_SIGNATURE: [u8; 2] = [0x55, 0xAA];

/// The partition type of the protective entry of a GPT disk.
pub const GPT_PARTITION_TYPE: u8 = 0xee;

/// One entry of a partition table.
#[derive(Debug, Clone, Copy)]
pub struct MbrPartitionTableEntry {
    pub bootable: u8,
    pub starting_chs: [u8; 3],
    pub partition_type: u8,
    pub ending_chs: [u8; 3],
    pub lba_start: u32,
    pub num_sectors: u32,
}

impl View for MbrPartitionTableEntry {
    type V = MbrPartitionTableEntry;

    open spec fn view(&self) -> MbrPartitionTableEntry {
        *self
    }
}

/// The entry that the 16 bytes of `b` at `p` hold.
pub open spec fn spec_entry(b: Seq<u8>, p: int) -> MbrPartitionTableEntry {
    MbrPartitionTableEntry {
        bootable: b[p],
        starting_chs: [b[p + 1], b[p + 2], b[p + 3]],
        partition_type: b[p + 4],
        ending_chs: [b[p + 5], b[p + 6], b[p + 7]],
        lba_start: le_at(b, p + 8, 4) as u32,
        num_sectors: le_at(b, p + 12, 4) as u32,
    }
}

impl Readable for MbrPartitionTableEntry {
    open spec fn decode(b: Seq<u8>, p: int) -> Option<(MbrPartitionTableEntry, int)> {
        if 0 <= p && p + 16 <= b.len() {
            Some((spec_entry(b, p), p + 16))
        } else {
            None
        }
    }

    open spec fn decode_error(b: Seq<u8>, p: int) -> StreamError {
        StreamError::UnexpectedEof
    }

    fn read(reader: &mut ByteStream) -> (res: Result<MbrPartitionTableEntry, StreamError>) {
        let ghost b = reader.buffer();
        let ghost p = reader.cursor();
        let bootable = u8::read(reader)?;
        let starting_chs = reader.read_byte_array::<3>()?;
        let partition_type = u8::read(reader)?;
        let ending_chs = reader.read_byte_array::<3>()?;
        let lba_start = reader.read_le::<u32>()?;
        let num_sectors = reader.read_le::<u32>()?;
        let entry = MbrPartitionTableEntry {
            bootable,
            starting_chs,
            partition_type,
            ending_chs,
            lba_start,
            num_sectors,
        };
        proof {
            assert(starting_chs@ =~= seq![b[p + 1], b[p + 2], b[p + 3]]);
            assert(ending_chs@ =~= seq![b[p + 5], b[p + 6], b[p + 7]]);
            assert(entry.starting_chs == spec_entry(b, p).starting_chs);
            assert(entry.ending_chs == spec_entry(b, p).ending_chs);
        }
        Ok(entry)
    }
}

/// A CHS address as text: `(cylinder, head, sector)`.
pub open spec fn spec_chs_text(chs: [u8; 3]) -> Seq<char> {
    "("@ + spec_decimal(((chs@[1] / 64) * 256 + chs@[2]) as nat) + ", "@ + spec_decimal(
        chs@[0] as nat,
    ) + ", "@ + spec_decimal((chs@[1] % 64) as nat) + ")"@
}

/// The row of the partition listing for `e`, read from the table at sector `offset`: whether
/// it boots, its first sector (from the start of the image), its last sector, its size in
/// sectors and its type; with its CHS addresses after the first and last sector when
/// `show_chs`.
pub open spec fn spec_table_row(e: MbrPartitionTableEntry, offset: int, show_chs: bool) -> Seq<
    Seq<char>,
> {
    let start = offset + e.lba_start;
    let size = e.num_sectors as int;
    let row = seq![
        if e.bootable == 0x80 {
            "Yes"@
        } else {
            "No"@
        },
        spec_decimal(start as nat),
        spec_decimal((start + size - 1) as nat),
        spec_decimal(size as nat),
        "0x"@ + spec_hex(e.partition_type as nat, 2, false) + " :: "@ + spec_partition_type_name(
            e.partition_type,
        ),
    ];
    if show_chs {
        row.insert(2, spec_chs_text(e.starting_chs)).insert(4, spec_chs_text(e.ending_chs))
    } else {
        row
    }
}

/// The texts of a row as a vector of strings.
pub open spec fn row_view(row: Seq<String>) -> Seq<Seq<char>> {
    row.map_values(|s: String| s@)
}

impl MbrPartitionTableEntry {
    /// Whether every field of the entry is zero.
    pub fn is_empty(&self) -> (res: bool)
        ensures
            res == (self.bootable == 0 && self.starting_chs@ == seq![0u8, 0u8, 0u8]
                && self.partition_type == 0 && self.ending_chs@ == seq![0u8, 0u8, 0u8]
                && self.lba_start == 0 && self.num_sectors == 0),
    {
        let res = self.bootable == 0 && self.starting_chs[0] == 0 && self.starting_chs[1] == 0
            && self.starting_chs[2] == 0 && self.partition_type == 0 && self.ending_chs[0] == 0
            && self.ending_chs[1] == 0 && self.ending_chs[2] == 0 && self.lba_start == 0
            && self.num_sectors == 0;
        proof {
            if res {
                assert(self.starting_chs@ =~= seq![0u8, 0u8, 0u8]);
                assert(self.ending_chs@ =~= seq![0u8, 0u8, 0u8]);
            }
        }
        res
    }

    /// Whether the entry is an extended partition (type `0x05` or `0x0F`).
    pub fn is_extended_partition(&self) -> (res: bool)
        ensures
            res == (self.partition_type == 0x05 || self.partition_type == 0x0F),
    {
        self.partition_type == 0x05 || self.partition_type == 0x0F
    }

    /// The first sector of the partition, relative to the table that holds the entry.
    pub fn starting_lba(&self) -> (lba: u32)
        ensures
            lba == self.lba_start,
    {
        self.lba_start
    }

    /// The size of the partition in sectors.
    pub fn num_sectors(&self) -> (n: u32)
        ensures
            n == self.num_sectors,
    {
        self.num_sectors
    }

    /// The row of the partition listing for the entry, read from the table at sector
    /// `image_offset_sectors`.
    pub fn table_row(&self, image_offset_sectors: u64, show_chs: bool) -> (row: Vec<String>)
        requires
            1 <= image_offset_sectors + self.lba_start + self.num_sectors <= u64::MAX,
        ensures
            row_view(row@) == spec_table_row(*self, image_offset_sectors as int, show_chs),
    {
        let partition_table_starting_lba = image_offset_sectors + self.starting_lba() as u64;
        let size = self.num_sectors() as u64;
        let bootable = if self.bootable == 0x80 {
            String::from_str("Yes")
        } else {
            String::from_str("No")
        };
        let mut kind = String::from_str("0x");
        push_hex(&mut kind, self.partition_type as u64, 2, false);
        kind.append(" :: ");
        let name = lookup_partition_type(self.partition_type);
        kind.append(name.as_str());
        let mut row = vec![
            bootable,
            decimal_string(partition_table_starting_lba),
            decimal_string(partition_table_starting_lba + size - 1),
            decimal_string(size),
            kind,
        ];
        let ghost base = row@;
        proof {
            assert(row_view(base) =~= spec_table_row(*self, image_offset_sectors as int, false));
        }
        if show_chs {
            let starting_chs = self.parse_starting_chs();
            let ending_chs = self.parse_ending_chs();
            row.insert(2, chs_text(starting_chs));
            row.insert(4, chs_text(ending_chs));
            proof {
                assert(row_view(row@) =~= row_view(base).insert(
                    2,
                    spec_chs_text(self.starting_chs),
                ).insert(4, spec_chs_text(self.ending_chs)));
            }
        }
        row
    }

    /// The cylinder, head and sector of the first sector of the partition.
    pub fn parse_starting_chs(&self) -> (chs: (u16, u8, u8))
        ensures
            chs == (
                ((self.starting_chs@[1] / 64) * 256 + self.starting_chs@[2]) as u16,
                self.starting_chs@[0],
                self.starting_chs@[1] % 64,
            ),
    {
        (
            Self::chs_cylinder(self.starting_chs),
            Self::chs_head(self.starting_chs),
            Self::chs_sector(self.starting_chs),
        )
    }

    /// The cylinder, head and sector of the last sector of the partition.
    pub fn parse_ending_chs(&self) -> (chs: (u16, u8, u8))
        ensures
            chs == (
                ((self.ending_chs@[1] / 64) * 256 + self.ending_chs@[2]) as u16,
                self.ending_chs@[0],
                self.ending_chs@[1] % 64,
            ),
    {
        (
            Self::chs_cylinder(self.ending_chs),
            Self::chs_head(self.ending_chs),
            Self::chs_sector(self.ending_chs),
        )
    }

    /// The head of a CHS address: its first byte.
    pub fn chs_head(chs: [u8; 3]) -> (head: u8)
        ensures
            head == chs@[0],
    {
        chs[0]
    }

    /// The sector of a CHS address: the low six bits of its second byte.
    pub fn chs_sector(chs: [u8; 3]) -> (sector: u8)
        ensures
            sector == chs@[1] % 64,
    {
        let b = chs[1];
        let shifted: u8 = 1u8 << CHS_SECTOR_BIT_SIZE;
        assert(shifted == 64) by (bit_vector)
            requires
                shifted == 1u8 << 6u8,
        ;
        let mask: u8 = shifted - 1;
        assert(b & 63 == b % 64) by (bit_vector);
        b & mask
    }

    /// The cylinder of a CHS address: the high two bits of its second byte above its third.
    pub fn chs_cylinder(chs: [u8; 3]) -> (cylinder: u16)
        ensures
            cylinder == (chs@[1] / 64) * 256 + chs@[2],
    {
        let b1 = chs[1];
        let b2 = chs[2];
        assert((((b1 as u16) & FIRST_TWO_BITS_MASK) << 2u16) | (b2 as u16) == (b1 / 64) as u16
            * 256 + b2 as u16) by (bit_vector);
        (((b1 as u16) & FIRST_TWO_BITS_MASK) << 2u16) | (b2 as u16)
    }
}

/// The text of a CHS address `(cylinder, head, sector)`.
fn chs_text(chs: (u16, u8, u8)) -> (s: String)
    ensures
        s@ == "("@ + spec_decimal(chs.0 as nat) + ", "@ + spec_decimal(chs.1 as nat) + ", "@
            + spec_decimal(chs.2 as nat) + ")"@,
{
    let mut s = String::from_str("(");
    push_decimal(&mut s, chs.0 as u64);
    s.append(", ");
    push_decimal(&mut s, chs.1 as u64);
    s.append(", ");
    push_decimal(&mut s, chs.2 as u64);
    s.append(")");
    s
}

/// The name of an MBR partition type.
pub fn lookup_partition_type(partition_type: u8) -> (name: String)
    ensures
        name@ == spec_partition_type_name(partition_type),
{
    String::from_str(crate::partition_tables::mbr::lookup_partition_type(partition_type))
}


/// A partition entry with the entries of the boot record it leads to, when it is an extended
/// partition; the root has no entry and holds the entries of the MBR.
#[derive(Debug, Default)]
pub struct MbrPartitionTableEntryNode {
    pub partition_table_entry: Option<MbrPartitionTableEntry>,
    pub children: Option<Vec<MbrPartitionTableEntryNode>>,
    pub image_offset_sectors: u64,
}

/// An `MbrPartitionTableEntryNode` with its children taken by their views.
pub struct MbrNodeView {
    pub partition_table_entry: Option<MbrPartitionTableEntry>,
    pub children: Option<Seq<MbrNodeView>>,
    pub image_offset_sectors: u64,
}

/// The view of a node, and of the nodes below it.
pub open spec fn node_view(n: MbrPartitionTableEntryNode) -> MbrNodeView
    decreases n,
{
    MbrNodeView {
        partition_table_entry: n.partition_table_entry,
        children: match n.children {
            Some(v) => Some(
                Seq::new(
                    v@.len(),
                    |i: int|
                        if 0 <= i < v@.len() {
                            node_view(v@[i])
                        } else {
                            MbrNodeView {
                                partition_table_entry: None,
                                children: None,
                                image_offset_sectors: 0,
                            }
                        },
                ),
            ),
            None => None,
        },
        image_offset_sectors: n.image_offset_sectors,
    }
}

impl View for MbrPartitionTableEntryNode {
    type V = MbrNodeView;

    open spec fn view(&self) -> MbrNodeView {
        node_view(*self)
    }
}


/// The view of a node with an entry and no children.
pub open spec fn leaf_view(e: MbrPartitionTableEntry, offset: u64) -> MbrNodeView {
    MbrNodeView { partition_table_entry: Some(e), children: None, image_offset_sectors: offset }
}

/// `nodes` as the children of a node: none when there are none.
pub open spec fn children_view(nodes: Seq<MbrNodeView>) -> Option<Seq<MbrNodeView>> {
    if nodes.len() == 0 {
        None
    } else {
        Some(nodes)
    }
}

/// The views of a vector of nodes.
pub open spec fn nodes_view(v: Seq<MbrPartitionTableEntryNode>) -> Seq<MbrNodeView> {
    Seq::new(v.len(), |i: int| node_view(v[i]))
}

/// Whether the row of a node, when it has an entry, can be computed: its last sector is at
/// least 0 and at most `u64::MAX`.
pub open spec fn row_computable(n: MbrNodeView) -> bool {
    match n.partition_table_entry {
        Some(e) => 1 <= n.image_offset_sectors + e.lba_start + e.num_sectors <= u64::MAX,
        None => true,
    }
}

/// The row of a node: that of its entry, or none.
pub open spec fn spec_node_row(n: MbrNodeView) -> Seq<Seq<char>> {
    match n.partition_table_entry {
        Some(e) => spec_table_row(e, n.image_offset_sectors as int, false),
        None => seq![],
    }
}

/// Whether a node holds the protective entry of a GPT disk.
pub open spec fn is_gpt_entry(n: MbrNodeView) -> bool {
    match n.partition_table_entry {
        Some(e) => e.partition_type == GPT_PARTITION_TYPE,
        None => false,
    }
}

/// Whether a node is an extended partition.
pub open spec fn spec_node_is_extended(n: MbrNodeView) -> bool {
    match n.partition_table_entry {
        Some(e) => e.partition_type == 0x05 || e.partition_type == 0x0F,
        None => false,
    }
}

impl MbrPartitionTableEntryNode {
    /// A node for `partition_table_entry`, read from the table at sector
    /// `image_offset_sectors`, with no children yet.
    pub fn new(partition_table_entry: MbrPartitionTableEntry, image_offset_sectors: u64) -> (node:
        Self)
        ensures
            node@ == leaf_view(partition_table_entry, image_offset_sectors),
    {
        MbrPartitionTableEntryNode {
            partition_table_entry: Some(partition_table_entry),
            children: None,
            image_offset_sectors,
        }
    }

    /// Adds `node` after the children of the node.
    pub fn add_child(&mut self, node: MbrPartitionTableEntryNode)
        ensures
            final(self)@ == (MbrNodeView {
                children: Some(
                    match old(self)@.children {
                        Some(cs) => cs,
                        None => Seq::empty(),
                    }.push(node@),
                ),
                ..old(self)@
            }),
    {
        let ghost before = old(self)@;
        let ghost added = node@;
        match self.children.take() {
            Some(mut children) => {
                let ghost old_children = children@;
                children.push(node);
                self.children = Some(children);
                proof {
                    assert(nodes_view(children@) =~= nodes_view(old_children).push(added));
                    assert(self@.children->0 =~= nodes_view(children@));
                    assert(before.children->0 =~= nodes_view(old_children));
                }
            },
            None => {
                let children = vec![node];
                self.children = Some(children);
                proof {
                    assert(self@.children->0 =~= seq![added]);
                }
            },
        }
    }

    /// The row of the node's entry, or none when it has no entry.
    pub fn create_row(&self, show_chs: bool) -> (row: Vec<String>)
        requires
            row_computable(self@),
        ensures
            row_view(row@) == match self@.partition_table_entry {
                Some(e) => spec_table_row(e, self@.image_offset_sectors as int, show_chs),
                None => seq![],
            },
    {
        match &self.partition_table_entry {
            Some(entry) => entry.table_row(self.image_offset_sectors, show_chs),
            None => {
                let row: Vec<String> = Vec::new();
                assert(row_view(row@) =~= seq![]);
                row
            },
        }
    }

    /// Whether the node's entry is an extended partition.
    pub fn is_extended_partition(&self) -> (res: bool)
        ensures
            res == spec_node_is_extended(self@),
    {
        match &self.partition_table_entry {
            Some(entry) => entry.is_extended_partition(),
            None => false,
        }
    }

    /// Whether one of the node's children is the protective entry of a GPT disk.
    pub fn is_gpt(&self) -> (res: bool)
        ensures
            res == match self@.children {
                Some(cs) => exists|i: int| 0 <= i < cs.len() && #[trigger] is_gpt_entry(cs[i]),
                None => false,
            },
    {
        match &self.children {
            Some(children) => {
                let ghost cs = nodes_view(children@);
                assert(self@.children == Some(cs));
                let mut found = false;
                let mut i: usize = 0;
                while i < children.len() && !found
                    invariant
                        i <= children@.len(),
                        cs == nodes_view(children@),
                        found ==> exists|k: int| 0 <= k < cs.len() && #[trigger] is_gpt_entry(cs[k]),
                        !found ==> forall|j: int| 0 <= j < i ==> !#[trigger] is_gpt_entry(cs[j]),
                    decreases children@.len() - i,
                {
                    let child = &children[i];
                    assert(cs[i as int] == node_view(children@[i as int]));
                    match &child.partition_table_entry {
                        Some(entry) => {
                            if entry.partition_type == GPT_PARTITION_TYPE {
                                assert(is_gpt_entry(cs[i as int]));
                                found = true;
                            }
                        },
                        None => {},
                    }
                    i = i + 1;
                }
                found
            },
            None => false,
        }
    }

    /// The first sector of the node's entry, relative to its table; 0 when it has none.
    pub fn starting_lba(&self) -> (lba: u32)
        ensures
            lba == match self@.partition_table_entry {
                Some(e) => e.lba_start,
                None => 0u32,
            },
    {
        match &self.partition_table_entry {
            Some(entry) => entry.starting_lba(),
            None => 0,
        }
    }
}


/// The rows of the listing of the tree below `n`: the rows of the nodes below it, in order,
/// each extended partition of the top level first given its own row when `is_first`; a node
/// without children gives its own row.
pub open spec fn spec_rows(n: MbrNodeView, is_first: bool) -> Seq<Seq<Seq<char>>>
    decreases n, 0nat,
{
    match n.children {
        Some(cs) => spec_rows_list(cs, is_first, cs.len()),
        None => seq![spec_node_row(n)],
    }
}

/// The rows of the first `k` nodes of `cs`.
pub open spec fn spec_rows_list(cs: Seq<MbrNodeView>, is_first: bool, k: nat) -> Seq<
    Seq<Seq<char>>,
>
    decreases cs, k + 1,
{
    if k == 0 || k > cs.len() {
        seq![]
    } else {
        let c = cs[k - 1];
        spec_rows_list(cs, is_first, (k - 1) as nat) + if spec_node_is_extended(c) && is_first {
            seq![spec_node_row(c)]
        } else {
            seq![]
        } + spec_rows(c, false)
    }
}

/// Whether the rows of every node of the tree below `n` can be computed.
pub open spec fn rows_computable(n: MbrNodeView) -> bool
    decreases n, 0nat,
{
    &&& row_computable(n)
    &&& match n.children {
        Some(cs) => list_computable(cs, cs.len()),
        None => true,
    }
}

/// Whether the rows of every node below the first `k` nodes of `cs` can be computed.
pub open spec fn list_computable(cs: Seq<MbrNodeView>, k: nat) -> bool
    decreases cs, k + 1,
{
    if k == 0 || k > cs.len() {
        true
    } else {
        list_computable(cs, (k - 1) as nat) && rows_computable(cs[k - 1])
    }
}

proof fn lemma_list_computable(cs: Seq<MbrNodeView>, k: nat, j: int)
    requires
        k <= cs.len(),
        list_computable(cs, k),
        0 <= j < k,
    ensures
        rows_computable(cs[j]),
    decreases k,
{
    if j < k - 1 {
        lemma_list_computable(cs, (k - 1) as nat, j);
    }
}

/// The texts of a list of rows.
pub open spec fn rows_view(rows: Seq<Vec<String>>) -> Seq<Seq<Seq<char>>> {
    rows.map_values(|r: Vec<String>| row_view(r@))
}

/// The rows of the partition listing of the tree below `node`.
pub fn format_partition_table_rows(node: MbrPartitionTableEntryNode, is_first: bool) -> (rows: Vec<
    Vec<String>,
>)
    requires
        rows_computable(node@),
    ensures
        rows_view(rows@) == spec_rows(node@, is_first),
{
    format_rows(&node, is_first)
}

fn format_rows(node: &MbrPartitionTableEntryNode, is_first: bool) -> (rows: Vec<Vec<String>>)
    requires
        rows_computable(node@),
    ensures
        rows_view(rows@) == spec_rows(node@, is_first),
    decreases node,
{
    let mut partition_table_rows: Vec<Vec<String>> = Vec::new();
    match &node.children {
        Some(children) => {
            let ghost cs = nodes_view(children@);
            assert(node@.children == Some(cs));
            let mut i: usize = 0;
            while i < children.len()
                invariant
                    i <= children@.len(),
                    cs == nodes_view(children@),
                    node@.children == Some(cs),
                    node.children == Some(*children),
                    rows_computable(node@),
                    list_computable(cs, cs.len()),
                    rows_view(partition_table_rows@) == spec_rows_list(cs, is_first, i as nat),
                decreases children@.len() - i,
            {
                let child_node = &children[i];
                let ghost c = cs[i as int];
                assert(c == node_view(*child_node));
                proof {
                    lemma_list_computable(cs, cs.len(), i as int);
                }
                assert(decreases_to!(*node => children@[i as int])) by {
                    assert(decreases_to!(*node => node.children));
                    assert(decreases_to!(node.children => node.children->0));
                    assert(decreases_to!(node.children->0 => node.children->0@));
                    assert(decreases_to!(node.children->0@ => node.children->0@[i as int]));
                }
                let ghost before = partition_table_rows@;
                if child_node.is_extended_partition() && is_first {
                    partition_table_rows.push(child_node.create_row(false));
                }
                let mut sub = format_rows(child_node, false);
                let ghost mid = partition_table_rows@;
                partition_table_rows.append(&mut sub);
                proof {
                    assert(rows_view(mid) =~= rows_view(before) + if spec_node_is_extended(c)
                        && is_first {
                        seq![spec_node_row(c)]
                    } else {
                        seq![]
                    });
                    assert(rows_view(partition_table_rows@) =~= rows_view(mid) + spec_rows(
                        c,
                        false,
                    ));
                }
                i = i + 1;
            }
        },
        None => {
            partition_table_rows.push(node.create_row(false));
            assert(rows_view(partition_table_rows@) =~= seq![spec_node_row(node@)]);
        },
    }
    partition_table_rows
}


/// Whether an entry is all zeros.
pub open spec fn spec_is_empty(e: MbrPartitionTableEntry) -> bool {
    e.bootable == 0 && e.starting_chs@ == seq![0u8, 0u8, 0u8] && e.partition_type == 0
        && e.ending_chs@ == seq![0u8, 0u8, 0u8] && e.lba_start == 0 && e.num_sectors == 0
}

/// Whether an entry's boot indicator is one of the invalid values `0x01` to `0x7F`
/// (`0x80` is active and `0x00` inactive).
pub open spec fn spec_invalid_bootable(e: MbrPartitionTableEntry) -> bool {
    0x01 <= e.bootable <= 0x7F
}

/// What reading the table of the boot record at sector `so` of the image `img` gives: the
/// nodes of its entries, and the buffer and cursor the stream is left with. The stream jumps
/// to the sector and skips the boot code, then reads up to four entries, stopping at an empty
/// one or one whose boot indicator is invalid. An extended partition's entry leads to the
/// table at its starting sector: taken as is in the MBR (`is_first`), which also makes it the
/// base `first_ebr_lba` for the EBRs below, and from that base in an EBR. That table is read
/// with the same stream, which then goes back to this sector for the next entry.
/// A sector number out of range of the arithmetic, or a sector that the tables below the MBR
/// visit twice on one path (`path`), which would repeat for ever, is invalid data.
pub open spec fn spec_sector(
    img: Seq<u8>,
    is_first: bool,
    so: int,
    first_ebr_lba: int,
    path: Seq<usize>,
) -> Result<(Seq<MbrNodeView>, Seq<u8>, int), StreamError>
    decreases img.len() / 512 + 2 - path.len(), 5nat,
{
    if so * 512 > u64::MAX {
        Err(StreamError::InvalidData)
    } else if so * 512 + 512 > img.len() {
        Err(StreamError::UnexpectedEof)
    } else {
        spec_slots(
            img,
            is_first,
            so,
            first_ebr_lba,
            path,
            0,
            img.subrange(so * 512, so * 512 + 512),
            446,
            seq![],
        )
    }
}

/// The rest of `spec_sector` from entry `i`, the stream's buffer being `b` and its cursor `c`,
/// with the nodes `acc` read so far.
pub open spec fn spec_slots(
    img: Seq<u8>,
    is_first: bool,
    so: int,
    first_ebr_lba: int,
    path: Seq<usize>,
    i: nat,
    b: Seq<u8>,
    c: int,
    acc: Seq<MbrNodeView>,
) -> Result<(Seq<MbrNodeView>, Seq<u8>, int), StreamError>
    decreases img.len() / 512 + 2 - path.len(), 4 - i,
{
    if i >= 4 || path.len() > img.len() / 512 + 1 {
        Ok((acc, b, c))
    } else if c < 0 || c + 16 > b.len() {
        Err(StreamError::UnexpectedEof)
    } else {
        let e = spec_entry(b, c);
        if spec_is_empty(e) || spec_invalid_bootable(e) {
            Ok((acc, b, c + 16))
        } else if e.partition_type == 0x05 || e.partition_type == 0x0F {
            let next = if is_first {
                e.lba_start as int
            } else {
                first_ebr_lba + e.lba_start
            };
            let base = if is_first {
                e.lba_start as int
            } else {
                first_ebr_lba
            };
            if next > u64::MAX || next * 512 > u64::MAX {
                Err(StreamError::InvalidData)
            } else if next * 512 + 512 > img.len() {
                Err(StreamError::UnexpectedEof)
            } else if path.contains(next as usize) {
                Err(StreamError::InvalidData)
            } else {
                match spec_sector(img, false, next, base, path.push(next as usize)) {
                    Err(err) => Err(err),
                    Ok((kids, _, _)) => spec_slots(
                        img,
                        is_first,
                        so,
                        first_ebr_lba,
                        path,
                        i + 1,
                        b,
                        c + 16,
                        acc.push(
                            MbrNodeView {
                                partition_table_entry: Some(e),
                                children: children_view(kids),
                                image_offset_sectors: so as u64,
                            },
                        ),
                    ),
                }
            }
        } else {
            spec_slots(
                img,
                is_first,
                so,
                first_ebr_lba,
                path,
                i + 1,
                b,
                c + 16,
                acc.push(leaf_view(e, so as u64)),
            )
        }
    }
}

/// Whether `x` is on `path`.
fn path_contains(path: &Vec<usize>, x: usize) -> (res: bool)
    ensures
        res == path@.contains(x),
{
    let mut i: usize = 0;
    while i < path.len()
        invariant
            i <= path@.len(),
            forall|j: int| 0 <= j < i ==> path@[j] != x,
        decreases path@.len() - i,
    {
        if path[i] == x {
            return true;
        }
        i = i + 1;
    }
    false
}

/// Reads the table of the boot record at sector `sector_offset`, and adds the nodes of its
/// entries to `node`.
fn parse_sector(
    node: &mut MbrPartitionTableEntryNode,
    stream: &mut ByteStream,
    is_first: bool,
    sector_offset: u64,
    first_ebr_lba: u64,
    path: &mut Vec<usize>,
) -> (res: Result<(), StreamError>)
    requires
        old(node)@.children is None,
        distinct_within(old(path)@, old(stream).image().len() / 512),
    ensures
        final(stream).image() == old(stream).image(),
        final(path)@ == old(path)@,
        match spec_sector(
            old(stream).image(),
            is_first,
            sector_offset as int,
            first_ebr_lba as int,
            old(path)@,
        ) {
            Ok((kids, b, c)) => {
                &&& res is Ok
                &&& final(node)@ == (MbrNodeView { children: children_view(kids), ..old(node)@ })
                &&& final(stream).buffer() == b
                &&& final(stream).cursor() == c
            },
            Err(e) => res == Err::<(), StreamError>(e),
        },
    decreases old(stream).image().len() / 512 + 2 - old(path)@.len(), 5nat,
{
    let ghost img = stream.image();
    if sector_offset > u64::MAX / 512 {
        return Err(StreamError::InvalidData);
    }
    stream.jump_to_sector(sector_offset)?;
    stream.skip_bytes(BOOTSTRAPER_LENGTH)?;
    let image_len = stream.image_len();
    let ghost start = *node;
    let ghost target = spec_sector(
        img,
        is_first,
        sector_offset as int,
        first_ebr_lba as int,
        path@,
    );
    let mut i: usize = 0;
    let mut stop = false;
    while i < 4 && !stop
        invariant
            stream.image() == img,
            img == old(stream).image(),
            img.len() == image_len,
            path@ == old(path)@,
            distinct_within(path@, img.len() / 512),
            sector_offset * 512 + 512 <= img.len(),
            stream.buffer() == img.subrange(
                sector_offset * 512,
                sector_offset * 512 + 512,
            ),
            stream.cursor() <= 512,
            !stop ==> stream.cursor() == 446 + 16 * i,
            i <= 4,
            node@.partition_table_entry == start@.partition_table_entry,
            node@.image_offset_sectors == start@.image_offset_sectors,
            node@.children is Some ==> node@.children->0.len() > 0,
            target == spec_sector(
                img,
                is_first,
                sector_offset as int,
                first_ebr_lba as int,
                path@,
            ),
            !stop ==> spec_slots(
                img,
                is_first,
                sector_offset as int,
                first_ebr_lba as int,
                path@,
                i as nat,
                stream.buffer(),
                stream.cursor(),
                match node@.children {
                    Some(cs) => cs,
                    None => Seq::empty(),
                },
            ) == target,
            stop ==> target == Ok::<(Seq<MbrNodeView>, Seq<u8>, int), StreamError>(
                (
                    match node@.children {
                        Some(cs) => cs,
                        None => Seq::empty(),
                    },
                    stream.buffer(),
                    stream.cursor(),
                ),
            ),
        decreases 4 - i,
    {
        proof {
            lemma_path_bound(path@, img.len() / 512);
        }
        let ghost acc = match node@.children {
            Some(cs) => cs,
            None => Seq::<MbrNodeView>::empty(),
        };
        let ghost b = stream.buffer();
        let ghost c = stream.cursor();
        let partition_table_entry = MbrPartitionTableEntry::read(stream)?;
        let ghost e = spec_entry(b, c);
        assert(partition_table_entry == e);
        if partition_table_entry.is_empty() {
            stop = true;
        } else {
            let bootable = partition_table_entry.bootable;
            if 0x01 <= bootable && bootable <= 0x7F {
                stop = true;
            } else {
                let next_node = if partition_table_entry.is_extended_partition() {
                    let start_lba = partition_table_entry.starting_lba() as u64;
                    let mut next_node = MbrPartitionTableEntryNode::new(
                        partition_table_entry,
                        sector_offset,
                    );
                    let (next, base) = if is_first {
                        (start_lba, start_lba)
                    } else {
                        if start_lba > u64::MAX - first_ebr_lba {
                            return Err(StreamError::InvalidData);
                        }
                        (first_ebr_lba + start_lba, first_ebr_lba)
                    };
                    if next > u64::MAX / 512 {
                        return Err(StreamError::InvalidData);
                    }
                    let len = stream.image_len();
                    if next * 512 > len as u64 || 512 > len - (next * 512) as usize {
                        return Err(StreamError::UnexpectedEof);
                    }
                    if path_contains(path, next as usize) {
                        return Err(StreamError::InvalidData);
                    }
                    let ghost before_path = path@;
                    proof {
                        assert(next + 1 <= img.len() / 512) by (nonlinear_arith)
                            requires
                                next * 512 + 512 <= img.len(),
                        ;
                    }
                    path.push(next as usize);
                    proof {
                        assert forall|k: int| 0 <= k < path@.len() implies path@[k] <= img.len()
                            / 512 by {
                            if k < before_path.len() {
                                assert(path@[k] == before_path[k]);
                            }
                        }
                        assert(path@ == before_path.push(next as usize));
                    }
                    let sub = parse_sector(&mut next_node, stream, false, next, base, path);
                    path.pop();
                    proof {
                        assert(path@ =~= before_path);
                    }
                    sub?;
                    stream.jump_to_sector(sector_offset)?;
                    stream.skip_bytes(BOOTSTRAPER_LENGTH as u64 + 16 * (i as u64) + 16)?;
                    next_node
                } else {
                    MbrPartitionTableEntryNode::new(partition_table_entry, sector_offset)
                };
                node.add_child(next_node);
                proof {
                    assert(node@.children->0 == acc.push(next_node@));
                }
            }
        }
        i = i + 1;
    }
    Ok(())
}

/// Reads the MBR of the image and the EBRs it leads to, as a tree under a root without entry.
pub fn parse_mbr(image: &[u8]) -> (res: Result<MbrPartitionTableEntryNode, StreamError>)
    ensures
        image@.len() < SECTOR_SIZE ==> res == Err::<MbrPartitionTableEntryNode, StreamError>(
            StreamError::UnexpectedEof,
        ),
        image@.len() >= SECTOR_SIZE ==> match spec_sector(image@, true, 0, 0, seq![]) {
            Ok((kids, _, _)) => res matches Ok(root) && root@ == (MbrNodeView {
                partition_table_entry: None,
                children: children_view(kids),
                image_offset_sectors: 0,
            }),
            Err(e) => res == Err::<MbrPartitionTableEntryNode, StreamError>(e),
        },
{
    let mut root = MbrPartitionTableEntryNode {
        partition_table_entry: None,
        children: None,
        image_offset_sectors: 0,
    };
    let mut stream = ByteStream::new(image, SECTOR_SIZE, 0)?;
    let mut path: Vec<usize> = Vec::new();
    parse_sector(&mut root, &mut stream, true, 0, 0, &mut path)?;
    Ok(root)
}

} // verus!
