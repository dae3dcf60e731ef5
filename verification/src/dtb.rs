//! Reading a flattened device tree: the header of the blob, the tree of
//! nodes in its structure block, the names in its strings block, and from
//! them the memory and the device regions that the tree describes.

use vstd::prelude::*;
use vstd::string::StringSliceAdditionalSpecFns;

verus! {

/// The first word of every device tree blob.
pub const FDT_MAGIC: u32 = 0xd00d_feed;

/// The number of bytes of the header.
pub const FDT_HEADER_SIZE: usize = 40;

/// The tag that opens a node.
pub const FDT_BEGIN_NODE: u32 = 0x1;

/// The tag that closes a node.
pub const FDT_END_NODE: u32 = 0x2;

/// The tag that opens a property.
pub const FDT_PROP: u32 = 0x3;

/// The tag that stands for nothing.
pub const FDT_NOP: u32 = 0x4;

/// The tag that closes the structure block.
pub const FDT_END: u32 = 0x9;

/// The header of a device tree blob, each field as the number that its four
/// bytes spell.
#[derive(Debug, Clone, Copy, PartialEq, Eq)]
pub struct FdtHeader {
    pub magic: u32,
    pub totalsize: u32,
    pub off_dt_struct: u32,
    pub off_dt_strings: u32,
    pub off_mem_rsvmap: u32,
    pub version: u32,
    pub last_comp_version: u32,
    pub boot_cpuid_phys: u32,
    pub size_dt_strings: u32,
    pub size_dt_struct: u32,
}

/// Why a blob could not be read.
#[derive(Debug, Clone, Copy, PartialEq, Eq)]
pub enum DevTreeError {
    InvalidParameter(&'static str),
    InvalidMagicNumber,
    InvalidOffset,
    ParseError,
    NotEnoughMemory,
}

/// What the tree says of the machine.
#[derive(Debug, PartialEq, Eq)]
pub struct DtbInfo {
    /// Where the memory starts.
    pub memory_addr: usize,
    /// How many bytes of memory there are.
    pub memory_size: usize,
    /// The start and the size of each region of a memory-mapped device.
    pub mmio_regions: Vec<(usize, usize)>,
}

/// Whether four bytes lie at `pos`.
pub open spec fn has_word(bytes: Seq<u8>, pos: int) -> bool {
    0 <= pos && pos + 4 <= bytes.len()
}

/// The number that the four bytes at `pos` spell, the first byte counting
/// most.
pub open spec fn be_u32(bytes: Seq<u8>, pos: int) -> u32 {
    (bytes[pos] * 0x100_0000 + bytes[pos + 1] * 0x1_0000 + bytes[pos + 2] * 0x100 + bytes[pos
        + 3]) as u32
}

/// The number that the eight bytes at `pos` spell, the first byte counting
/// most.
pub open spec fn be_u64(bytes: Seq<u8>, pos: int) -> u64 {
    (be_u32(bytes, pos) * 0x1_0000_0000 + be_u32(bytes, pos + 4)) as u64
}

/// The header that the first forty bytes spell.
pub open spec fn header_of(bytes: Seq<u8>) -> FdtHeader {
    FdtHeader {
        magic: be_u32(bytes, 0),
        totalsize: be_u32(bytes, 4),
        off_dt_struct: be_u32(bytes, 8),
        off_dt_strings: be_u32(bytes, 12),
        off_mem_rsvmap: be_u32(bytes, 16),
        version: be_u32(bytes, 20),
        last_comp_version: be_u32(bytes, 24),
        boot_cpuid_phys: be_u32(bytes, 28),
        size_dt_strings: be_u32(bytes, 32),
        size_dt_struct: be_u32(bytes, 36),
    }
}

/// The bytes from `pos` up to the next zero byte; nothing if `pos` lies
/// outside the bytes or no zero byte follows.
pub open spec fn string_at(bytes: Seq<u8>, pos: int) -> Option<Seq<u8>>
    decreases bytes.len() - pos,
{
    if pos < 0 || pos >= bytes.len() {
        None
    } else if bytes[pos] == 0 {
        Some(Seq::empty())
    } else {
        match string_at(bytes, pos + 1) {
            Some(rest) => Some(seq![bytes[pos]] + rest),
            None => None,
        }
    }
}

/// The number that the four bytes at `pos` spell.
pub fn read_be_u32(data: &[u8], pos: usize) -> (r: u32)
    requires
        pos + 4 <= data@.len(),
    ensures
        r == be_u32(data@, pos as int),
{
    let b0 = data[pos] as u32;
    let b1 = data[pos + 1] as u32;
    let b2 = data[pos + 2] as u32;
    let b3 = data[pos + 3] as u32;
    b0 * 0x100_0000 + b1 * 0x1_0000 + b2 * 0x100 + b3
}

/// The number that the eight bytes at `pos` spell.
pub fn read_be_u64(data: &[u8], pos: usize) -> (r: u64)
    requires
        pos + 8 <= data@.len(),
    ensures
        r == be_u64(data@, pos as int),
{
    assert(data@.len() <= usize::MAX) by {
        let _ = data.len();
    }
    let high = read_be_u32(data, pos) as u64;
    let low = read_be_u32(data, pos + 4) as u64;
    high * 0x1_0000_0000 + low
}

/// The header of the blob; `ParseError` if the blob is shorter than a
/// header.
pub fn read_header(blob: &[u8]) -> (r: Result<FdtHeader, DevTreeError>)
    ensures
        blob@.len() >= FDT_HEADER_SIZE ==> r == Ok::<FdtHeader, DevTreeError>(header_of(blob@)),
        blob@.len() < FDT_HEADER_SIZE ==> r == Err::<FdtHeader, DevTreeError>(
            DevTreeError::ParseError,
        ),
{
    if blob.len() < FDT_HEADER_SIZE {
        return Err(DevTreeError::ParseError);
    }
    Ok(
        FdtHeader {
            magic: read_be_u32(blob, 0),
            totalsize: read_be_u32(blob, 4),
            off_dt_struct: read_be_u32(blob, 8),
            off_dt_strings: read_be_u32(blob, 12),
            off_mem_rsvmap: read_be_u32(blob, 16),
            version: read_be_u32(blob, 20),
            last_comp_version: read_be_u32(blob, 24),
            boot_cpuid_phys: read_be_u32(blob, 28),
            size_dt_strings: read_be_u32(blob, 32),
            size_dt_struct: read_be_u32(blob, 36),
        },
    )
}

/// The string at `pos`: the bytes up to the next zero byte. `InvalidOffset`
/// if `pos` lies behind the last byte, `ParseError` if no zero byte follows.
pub fn get_fdt_string(byte_slice: &[u8], pos: usize) -> (r: Result<Vec<u8>, DevTreeError>)
    ensures
        match r {
            Ok(s) => string_at(byte_slice@, pos as int) == Some(s@),
            Err(e) => string_at(byte_slice@, pos as int) is None && e == (if pos
                > byte_slice@.len() {
                DevTreeError::InvalidOffset
            } else {
                DevTreeError::ParseError
            }),
        },
{
    if pos > byte_slice.len() {
        return Err(DevTreeError::InvalidOffset);
    }
    let mut v: Vec<u8> = Vec::new();
    let mut i: usize = pos;
    while i < byte_slice.len() && byte_slice[i] != 0
        invariant
            pos <= i <= byte_slice@.len(),
            v@ == byte_slice@.subrange(pos as int, i as int),
            forall|j: int| pos <= j < i ==> byte_slice@[j] != 0,
        decreases byte_slice@.len() - i,
    {
        v.push(byte_slice[i]);
        i += 1;
        assert(v@ == byte_slice@.subrange(pos as int, i as int));
    }
    proof {
        lemma_string_at(byte_slice@, pos as int, i as int);
    }
    if i < byte_slice.len() {
        Ok(v)
    } else {
        Err(DevTreeError::ParseError)
    }
}

/// The string at `pos` runs up to the first zero byte, and there is none if
/// there is no such byte.
pub proof fn lemma_string_at(bytes: Seq<u8>, pos: int, end: int)
    requires
        0 <= pos <= end <= bytes.len(),
        forall|j: int| pos <= j < end ==> bytes[j] != 0,
        end < bytes.len() ==> bytes[end] == 0,
    ensures
        end < bytes.len() ==> string_at(bytes, pos) == Some(bytes.subrange(pos, end)),
        end == bytes.len() ==> string_at(bytes, pos) is None,
    decreases end - pos,
{
    if pos < end {
        lemma_string_at(bytes, pos + 1, end);
        if end < bytes.len() {
            assert(seq![bytes[pos]] + bytes.subrange(pos + 1, end) =~= bytes.subrange(pos, end));
        }
    } else if end < bytes.len() {
        assert(bytes.subrange(pos, end) =~= Seq::empty());
    }
}

/// A property of a node as plain values.
pub struct PropertyView {
    /// Where in the strings block the name of the property stands.
    pub nameoff: u32,
    /// The name of the property.
    pub name: Seq<u8>,
    /// The value of the property, with the bytes that pad it to whole words.
    pub data: Seq<u8>,
}

/// A node of the tree as plain values.
pub struct NodeView {
    /// The name of the node, with the zero bytes that end and pad it.
    pub name: Seq<u8>,
    /// The properties of the node, in the order of the blob.
    pub properties: Seq<PropertyView>,
    /// The nodes below the node, in the order of the blob.
    pub children: Seq<NodeView>,
}

/// A property of a node.
#[derive(Debug)]
pub struct FdtProperty {
    pub nameoff: u32,
    pub name: Vec<u8>,
    pub data: Vec<u8>,
}

/// A node of the tree.
#[derive(Debug)]
pub struct FdtNode {
    pub name: Vec<u8>,
    pub properties: Vec<FdtProperty>,
    pub children: Vec<FdtNode>,
}

impl View for FdtProperty {
    type V = PropertyView;

    open spec fn view(&self) -> PropertyView {
        PropertyView { nameoff: self.nameoff, name: self.name@, data: self.data@ }
    }
}

/// The properties in `properties` as plain values.
pub open spec fn property_views(properties: Seq<FdtProperty>) -> Seq<PropertyView> {
    Seq::new(properties.len(), |i: int| properties[i]@)
}

/// The first `count` nodes of `nodes` as plain values.
pub open spec fn node_views(nodes: Seq<FdtNode>, count: nat) -> Seq<NodeView>
    decreases nodes, count,
{
    if count == 0 || count > nodes.len() {
        Seq::empty()
    } else {
        node_views(nodes, (count - 1) as nat).push(nodes[count - 1].view())
    }
}

impl FdtNode {
    /// The node as plain values.
    pub open spec fn view(&self) -> NodeView
        decreases self,
    {
        NodeView {
            name: self.name@,
            properties: property_views(self.properties@),
            children: node_views(self.children@, self.children@.len()),
        }
    }
}

/// The name that a property has until its name is looked up.
pub open spec fn unnamed() -> Seq<u8> {
    seq![110u8, 111u8, 110u8, 101u8]
}

/// The number of bytes that a value of `len` bytes takes in the blob: `len`
/// rounded up to whole words, as far as 32 bits hold it.
pub open spec fn padded(len: u32) -> int {
    if len > 0xFFFF_FFFC {
        0
    } else {
        (len + 3) / 4 * 4
    }
}

/// Where the name that starts at `pos` ends: behind the first word whose
/// last byte is zero.
pub open spec fn name_end(bytes: Seq<u8>, pos: int) -> Option<int>
    decreases bytes.len() - pos,
{
    if !has_word(bytes, pos) {
        None
    } else if bytes[pos + 3] == 0 {
        Some(pos + 4)
    } else {
        name_end(bytes, pos + 4)
    }
}

/// The properties that start with the tag at `pos`, the place behind the
/// first tag that opens no property, and that tag.
pub open spec fn properties_at(bytes: Seq<u8>, pos: int) -> Option<(Seq<PropertyView>, int, u32)>
    decreases bytes.len() - pos,
{
    if !has_word(bytes, pos) {
        None
    } else if be_u32(bytes, pos) != FDT_PROP {
        Some((Seq::empty(), pos + 4, be_u32(bytes, pos)))
    } else if !has_word(bytes, pos + 8) {
        None
    } else {
        let len = padded(be_u32(bytes, pos + 4));
        let first = PropertyView {
            nameoff: be_u32(bytes, pos + 8),
            name: unnamed(),
            data: bytes.subrange(pos + 12, pos + 12 + len),
        };
        if pos + 12 + len > bytes.len() {
            None
        } else {
            match properties_at(bytes, pos + 12 + len) {
                Some((rest, end, tag)) => Some((seq![first] + rest, end, tag)),
                None => None,
            }
        }
    }
}

/// The nodes that follow the tag `tag`, which ends at `pos`, and the place
/// where they end: behind the first tag that neither opens a node nor stands
/// for nothing.
pub open spec fn children_at(bytes: Seq<u8>, pos: int, tag: u32) -> Option<(Seq<NodeView>, int)>
    decreases bytes.len() - pos, 1nat,
{
    if pos < 0 || pos > bytes.len() {
        None
    } else if tag == FDT_BEGIN_NODE {
        match node_at(bytes, pos) {
            Some((first, end)) => if end <= pos || !has_word(bytes, end) {
                None
            } else {
                match children_at(bytes, end + 4, be_u32(bytes, end)) {
                    Some((rest, last)) => Some((seq![first] + rest, last)),
                    None => None,
                }
            },
            None => None,
        }
    } else if tag == FDT_NOP {
        if !has_word(bytes, pos) {
            None
        } else {
            children_at(bytes, pos + 4, be_u32(bytes, pos))
        }
    } else {
        Some((Seq::empty(), pos))
    }
}

/// The node whose name starts at `pos`, and the place where it ends.
pub open spec fn node_at(bytes: Seq<u8>, pos: int) -> Option<(NodeView, int)>
    decreases bytes.len() - pos, 0nat,
{
    match name_end(bytes, pos) {
        Some(named) => match properties_at(bytes, named) {
            Some((properties, behind, tag)) => if behind <= pos || behind > bytes.len() {
                None
            } else {
                match children_at(bytes, behind, tag) {
                    Some((children, end)) => Some(
                        (NodeView { name: bytes.subrange(pos, named), properties, children }, end),
                    ),
                    None => None,
                }
            },
            None => None,
        },
        None => None,
    }
}

/// A place in a run of bytes, from which words and runs of bytes are read
/// one after the other.
pub struct DtbParser<'a> {
    data: &'a [u8],
    pos: usize,
}

impl<'a> DtbParser<'a> {
    /// No parser is behind the last byte.
    #[verifier::type_invariant]
    pub closed spec fn well_formed(self) -> bool {
        self.pos <= self.data@.len()
    }

    /// The bytes that are read.
    pub closed spec fn bytes(&self) -> Seq<u8> {
        self.data@
    }

    /// The place of the next byte to read.
    pub closed spec fn position(&self) -> int {
        self.pos as int
    }

    /// A parser at the first byte of `data`.
    pub fn new(data: &'a [u8]) -> (r: Self)
        ensures
            r.bytes() == data@,
            r.position() == 0,
    {
        DtbParser { data, pos: 0 }
    }

    /// Reads `size` bytes; `ParseError` if fewer are left.
    pub fn read_buf(&mut self, size: usize) -> (r: Result<Vec<u8>, DevTreeError>)
        ensures
            final(self).bytes() == old(self).bytes(),
            old(self).position() <= final(self).position() <= old(self).bytes().len(),
            match r {
                Ok(v) => {
                    &&& old(self).position() + size <= old(self).bytes().len()
                    &&& final(self).position() == old(self).position() + size
                    &&& v@ == old(self).bytes().subrange(
                        old(self).position(),
                        old(self).position() + size,
                    )
                },
                Err(e) => {
                    &&& old(self).position() + size > old(self).bytes().len()
                    &&& final(self).position() == old(self).position()
                    &&& e == DevTreeError::ParseError
                },
            },
    {
        proof {
            use_type_invariant(&*self);
        }
        if size > self.data.len() - self.pos {
            return Err(DevTreeError::ParseError);
        }
        let start = self.pos;
        let mut v: Vec<u8> = Vec::new();
        let mut i: usize = 0;
        while i < size
            invariant
                i <= size,
                start + size <= self.data@.len() <= usize::MAX,
                v@ == self.data@.subrange(start as int, start + i),
            decreases size - i,
        {
            v.push(self.data[start + i]);
            i += 1;
            assert(v@ == self.data@.subrange(start as int, start + i));
        }
        self.pos = start + size;
        Ok(v)
    }

    /// Reads a name: whole words up to the first one whose last byte is
    /// zero; `ParseError` if the bytes end before such a word.
    pub fn read_name(&mut self) -> (r: Result<Vec<u8>, DevTreeError>)
        ensures
            final(self).bytes() == old(self).bytes(),
            match r {
                Ok(name) => {
                    &&& name_end(old(self).bytes(), old(self).position()) == Some(
                        final(self).position(),
                    )
                    &&& old(self).position() + 4 <= final(self).position() <= old(
                        self,
                    ).bytes().len()
                    &&& name@ == old(self).bytes().subrange(
                        old(self).position(),
                        final(self).position(),
                    )
                },
                Err(e) => {
                    &&& name_end(old(self).bytes(), old(self).position()) is None
                    &&& e == DevTreeError::ParseError
                },
            },
    {
        proof {
            use_type_invariant(&*self);
        }
        let start = self.pos;
        let mut end = self.pos;
        loop
            invariant
                start <= end <= self.data@.len(),
                end > start ==> self.data@[end - 1] != 0,
                name_end(self.data@, start as int) == name_end(self.data@, end as int),
                self.pos == start,
                start == old(self).pos,
                self.data == old(self).data,
            decreases self.data@.len() - end,
        {
            if self.data.len() - end < 4 {
                return Err(DevTreeError::ParseError);
            }
            let last = self.data[end + 3];
            end = end + 4;
            if last == 0 {
                self.pos = end;
                let mut name: Vec<u8> = Vec::new();
                let mut i: usize = start;
                while i < end
                    invariant
                        start <= i <= end <= self.data@.len(),
                        name@ == self.data@.subrange(start as int, i as int),
                    decreases end - i,
                {
                    name.push(self.data[i]);
                    i += 1;
                    assert(name@ == self.data@.subrange(start as int, i as int));
                }
                return Ok(name);
            }
        }
    }

    /// Reads one word; `ParseError` if fewer than four bytes are left.
    pub fn read_u32(&mut self) -> (r: Result<u32, DevTreeError>)
        ensures
            final(self).bytes() == old(self).bytes(),
            match r {
                Ok(word) => {
                    &&& final(self).position() <= old(self).bytes().len()
                    &&& has_word(old(self).bytes(), old(self).position())
                    &&& final(self).position() == old(self).position() + 4
                    &&& word == be_u32(old(self).bytes(), old(self).position())
                },
                Err(e) => {
                    &&& !has_word(old(self).bytes(), old(self).position())
                    &&& final(self).position() == old(self).position()
                    &&& e == DevTreeError::ParseError
                },
            },
    {
        proof {
            use_type_invariant(&*self);
        }
        if self.data.len() - self.pos < 4 {
            return Err(DevTreeError::ParseError);
        }
        let word = read_be_u32(self.data, self.pos);
        self.pos = self.pos + 4;
        Ok(word)
    }
}

/// The number of bytes that a value of `len` bytes takes in the blob.
pub fn padded_len(len: u32) -> (r: u32)
    ensures
        r == padded(len),
{
    if len > 0xFFFF_FFFC {
        0
    } else {
        (len + 3) / 4 * 4
    }
}

/// The first `count` views of a run of nodes are those of any run that
/// starts with the same `count` nodes.
pub proof fn lemma_node_views_prefix(a: Seq<FdtNode>, b: Seq<FdtNode>, count: nat)
    requires
        count <= a.len(),
        count <= b.len(),
        forall|i: int| 0 <= i < count ==> a[i] == b[i],
    ensures
        node_views(a, count) == node_views(b, count),
        node_views(a, count).len() == count,
    decreases count,
{
    if count > 0 {
        lemma_node_views_prefix(a, b, (count - 1) as nat);
    }
}

/// The views of a run of nodes: one for each node, in order.
pub proof fn lemma_node_views(nodes: Seq<FdtNode>)
    ensures
        node_views(nodes, nodes.len()).len() == nodes.len(),
        forall|i: int|
            0 <= i < nodes.len() ==> (#[trigger] node_views(nodes, nodes.len())[i])
                == nodes[i].view(),
    decreases nodes.len(),
{
    if nodes.len() > 0 {
        let front = nodes.drop_last();
        lemma_node_views(front);
        lemma_node_views_prefix(nodes, front, front.len());
    }
}

/// Reads the properties of a node, and the first tag behind them.
pub fn read_properties(reader: &mut DtbParser) -> (r: Result<(Vec<FdtProperty>, u32), DevTreeError>)
    ensures
        final(reader).bytes() == old(reader).bytes(),
        match r {
            Ok((properties, tag)) => {
                &&& properties_at(old(reader).bytes(), old(reader).position()) == Some(
                    (property_views(properties@), final(reader).position(), tag),
                )
                &&& old(reader).position() + 4 <= final(reader).position() <= old(
                    reader,
                ).bytes().len()
            },
            Err(e) => {
                &&& properties_at(old(reader).bytes(), old(reader).position()) is None
                &&& e == DevTreeError::ParseError
            },
        },
{
    let ghost bytes = reader.bytes();
    let ghost first = reader.position();
    let mut properties: Vec<FdtProperty> = Vec::new();
    let mut tag = match reader.read_u32() {
        Ok(word) => word,
        Err(e) => {
            return Err(e);
        },
    };
    assert(property_views(properties@) =~= Seq::empty());
    loop
        invariant
            reader.bytes() == bytes,
            bytes == old(reader).bytes(),
            first == old(reader).position(),
            first + 4 <= reader.position() <= bytes.len(),
            tag == be_u32(bytes, reader.position() - 4),
            match properties_at(bytes, reader.position() - 4) {
                Some((rest, end, last)) => properties_at(bytes, first) == Some(
                    (property_views(properties@) + rest, end, last),
                ),
                None => properties_at(bytes, first) is None,
            },
        decreases bytes.len() - reader.position(),
    {
        let ghost at = reader.position() - 4;
        if tag != FDT_PROP {
            assert(property_views(properties@) + Seq::<PropertyView>::empty() =~= property_views(
                properties@,
            ));
            return Ok((properties, tag));
        }
        let len = match reader.read_u32() {
            Ok(word) => word,
            Err(e) => {
                return Err(e);
            },
        };
        let nameoff = match reader.read_u32() {
            Ok(word) => word,
            Err(e) => {
                return Err(e);
            },
        };
        let data = match reader.read_buf(padded_len(len) as usize) {
            Ok(data) => data,
            Err(e) => {
                return Err(e);
            },
        };
        let mut name: Vec<u8> = Vec::new();
        name.push(110);
        name.push(111);
        name.push(110);
        name.push(101);
        assert(name@ =~= unnamed());
        let ghost before = property_views(properties@);
        let property = FdtProperty { nameoff, name, data };
        properties.push(property);
        assert(property_views(properties@) =~= before.push(property@));
        let ghost next = reader.position();
        tag = match reader.read_u32() {
            Ok(word) => word,
            Err(e) => {
                return Err(e);
            },
        };
        proof {
            match properties_at(bytes, next) {
                Some((rest, end, last)) => {
                    assert(before.push(property@) + rest =~= before + (seq![property@] + rest));
                },
                None => {},
            }
        }
    }
}

/// Reads the node whose name starts where the reader stands: its name, its
/// properties and the nodes below it, up to the tag that ends them.
pub fn parse_fdt_node(reader: &mut DtbParser) -> (r: Result<FdtNode, DevTreeError>)
    ensures
        final(reader).bytes() == old(reader).bytes(),
        match r {
            Ok(node) => {
                &&& node_at(old(reader).bytes(), old(reader).position()) == Some(
                    (node.view(), final(reader).position()),
                )
                &&& old(reader).position() < final(reader).position() <= old(
                    reader,
                ).bytes().len()
            },
            Err(e) => {
                &&& node_at(old(reader).bytes(), old(reader).position()) is None
                &&& e == DevTreeError::ParseError
            },
        },
    decreases old(reader).bytes().len() - old(reader).position(),
{
    let ghost bytes = reader.bytes();
    let ghost start = reader.position();
    let name = match reader.read_name() {
        Ok(name) => name,
        Err(e) => {
            return Err(e);
        },
    };
    let (properties, first_tag) = match read_properties(reader) {
        Ok(found) => found,
        Err(e) => {
            return Err(e);
        },
    };
    let ghost behind = reader.position();
    let mut children: Vec<FdtNode> = Vec::new();
    let mut tag = first_tag;
    loop
        invariant
            reader.bytes() == bytes,
            bytes == old(reader).bytes(),
            start == old(reader).position(),
            name_end(bytes, start) is Some,
            name@ == bytes.subrange(start, name_end(bytes, start).unwrap()),
            properties_at(bytes, name_end(bytes, start).unwrap()) == Some(
                (property_views(properties@), behind, first_tag),
            ),
            start < behind <= reader.position() <= bytes.len(),
            match children_at(bytes, reader.position(), tag) {
                Some((rest, end)) => children_at(bytes, behind, first_tag) == Some(
                    (node_views(children@, children@.len()) + rest, end),
                ),
                None => children_at(bytes, behind, first_tag) is None,
            },
        decreases bytes.len() - reader.position(),
    {
        let ghost at = reader.position();
        let ghost before = node_views(children@, children@.len());
        if tag == FDT_BEGIN_NODE {
            let child = match parse_fdt_node(reader) {
                Ok(child) => child,
                Err(e) => {
                    return Err(e);
                },
            };
            proof {
                lemma_node_views_prefix(children@, children@.push(child), children@.len());
            }
            children.push(child);
            assert(node_views(children@, children@.len()) == before.push(child.view()));
        } else if tag != FDT_NOP {
            assert(before + Seq::<NodeView>::empty() =~= before);
            return Ok(FdtNode { name, properties, children });
        }
        let ghost next = reader.position();
        tag = match reader.read_u32() {
            Ok(word) => word,
            Err(e) => {
                return Err(e);
            },
        };
        proof {
            match children_at(bytes, next + 4, tag) {
                Some((rest, end)) => {
                    if at != next {
                        let first = node_views(children@, children@.len()).last();
                        assert(before.push(first) + rest =~= before + (seq![first] + rest));
                    }
                },
                None => {},
            }
        }
    }
}

/// The string at `pos`, or why there is none: `InvalidOffset` if `pos` lies
/// behind the last byte, `ParseError` if no zero byte follows.
pub open spec fn string_or_error(bytes: Seq<u8>, pos: int) -> Result<Seq<u8>, DevTreeError> {
    match string_at(bytes, pos) {
        Some(s) => Ok(s),
        None => Err(
            if pos > bytes.len() {
                DevTreeError::InvalidOffset
            } else {
                DevTreeError::ParseError
            },
        ),
    }
}

/// The first `count` properties of `properties`, each with the name that
/// stands at its offset in the strings block at `strings`; or what is wrong
/// with the first name that cannot be read.
pub open spec fn named_properties(
    properties: Seq<PropertyView>,
    bytes: Seq<u8>,
    strings: int,
    count: nat,
) -> Result<Seq<PropertyView>, DevTreeError>
    decreases count,
{
    if count == 0 || count > properties.len() {
        Ok(Seq::empty())
    } else {
        match named_properties(properties, bytes, strings, (count - 1) as nat) {
            Ok(front) => match string_or_error(bytes, strings + properties[count - 1].nameoff) {
                Ok(name) => Ok(front.push(PropertyView { name, ..properties[count - 1] })),
                Err(e) => Err(e),
            },
            Err(e) => Err(e),
        }
    }
}

/// The first `count` nodes of `nodes` with every property named; or what is
/// wrong with the first name that cannot be read.
pub open spec fn named_nodes(nodes: Seq<NodeView>, bytes: Seq<u8>, strings: int, count: nat)
    -> Result<Seq<NodeView>, DevTreeError>
    decreases nodes, count,
{
    if count == 0 || count > nodes.len() {
        Ok(Seq::empty())
    } else {
        match named_nodes(nodes, bytes, strings, (count - 1) as nat) {
            Ok(front) => match named_node(nodes[count - 1], bytes, strings) {
                Ok(node) => Ok(front.push(node)),
                Err(e) => Err(e),
            },
            Err(e) => Err(e),
        }
    }
}

/// The node with every property named, its own first and then those of the
/// nodes below it; or what is wrong with the first name that cannot be read.
pub open spec fn named_node(node: NodeView, bytes: Seq<u8>, strings: int) -> Result<
    NodeView,
    DevTreeError,
>
    decreases node,
{
    match named_properties(node.properties, bytes, strings, node.properties.len()) {
        Ok(properties) => match named_nodes(node.children, bytes, strings, node.children.len()) {
            Ok(children) => Ok(NodeView { name: node.name, properties, children }),
            Err(e) => Err(e),
        },
        Err(e) => Err(e),
    }
}

/// Once a name cannot be read, naming more properties fails in the same way.
pub proof fn lemma_named_properties_error(
    properties: Seq<PropertyView>,
    bytes: Seq<u8>,
    strings: int,
    count: nat,
    more: nat,
)
    requires
        named_properties(properties, bytes, strings, count) is Err,
        count <= more <= properties.len(),
    ensures
        named_properties(properties, bytes, strings, more) == named_properties(
            properties,
            bytes,
            strings,
            count,
        ),
    decreases more,
{
    if count < more {
        lemma_named_properties_error(properties, bytes, strings, count, (more - 1) as nat);
    }
}

/// Once a name cannot be read, naming more nodes fails in the same way.
pub proof fn lemma_named_nodes_error(
    nodes: Seq<NodeView>,
    bytes: Seq<u8>,
    strings: int,
    count: nat,
    more: nat,
)
    requires
        named_nodes(nodes, bytes, strings, count) is Err,
        count <= more <= nodes.len(),
    ensures
        named_nodes(nodes, bytes, strings, more) == named_nodes(nodes, bytes, strings, count),
    decreases more,
{
    if count < more {
        lemma_named_nodes_error(nodes, bytes, strings, count, (more - 1) as nat);
    }
}

/// Gives every property of the node and of the nodes below it the name that
/// stands at its offset in the strings block, which starts at
/// `off_dt_strings`.
pub fn fill_property_name(node: &mut FdtNode, byte_slice: &[u8], off_dt_strings: usize) -> (r:
    Result<(), DevTreeError>)
    ensures
        match named_node(old(node).view(), byte_slice@, off_dt_strings as int) {
            Ok(named) => r is Ok && final(node).view() == named,
            Err(e) => r == Err::<(), DevTreeError>(e),
        },
    decreases *old(node),
{
    let ghost before = node.view();
    let ghost bytes = byte_slice@;
    let ghost strings = off_dt_strings as int;
    proof {
        lemma_node_views(node.children@);
        assert(property_views(node.properties@).subrange(0, 0) =~= Seq::empty());
        assert(bytes.len() <= usize::MAX) by {
            let _ = byte_slice.len();
        }
    }
    let mut i: usize = 0;
    while i < node.properties.len()
        invariant
            bytes == byte_slice@,
            bytes.len() <= usize::MAX,
            strings == off_dt_strings,
            before.properties == property_views(old(node).properties@),
            i <= node.properties@.len(),
            node.properties@.len() == old(node).properties@.len(),
            node.name == old(node).name,
            node.children == old(node).children,
            before == old(node).view(),
            forall|j: int| i <= j < node.properties@.len() ==> node.properties@[j] == old(
                node,
            ).properties@[j],
            named_properties(before.properties, byte_slice@, off_dt_strings as int, i as nat)
                == Ok::<Seq<PropertyView>, DevTreeError>(
                property_views(node.properties@).subrange(0, i as int),
            ),
        decreases node.properties@.len() - i,
    {
        proof {
            if string_or_error(bytes, strings + before.properties[i as int].nameoff) is Err {
                lemma_named_properties_error(
                    before.properties,
                    bytes,
                    strings,
                    (i + 1) as nat,
                    before.properties.len(),
                );
            }
        }
        let pos = match off_dt_strings.checked_add(node.properties[i].nameoff as usize) {
            Some(pos) => pos,
            None => {
                return Err(DevTreeError::InvalidOffset);
            },
        };
        let name = match get_fdt_string(byte_slice, pos) {
            Ok(name) => name,
            Err(e) => {
                return Err(e);
            },
        };
        let ghost views = property_views(node.properties@);
        node.properties[i].name = name;
        i += 1;
        assert(property_views(node.properties@).subrange(0, i as int) =~= views.subrange(
            0,
            i - 1,
        ).push(property_views(node.properties@)[i - 1]));
    }
    assert(property_views(node.properties@).subrange(0, i as int) =~= property_views(
        node.properties@,
    ));
    let mut k: usize = 0;
    while k < node.children.len()
        invariant
            bytes == byte_slice@,
            strings == off_dt_strings,
            before.children.len() == old(node).children@.len(),
            forall|j: int|
                0 <= j < before.children.len() ==> (#[trigger] before.children[j]) == old(
                    node,
                ).children@[j].view(),
            k <= node.children@.len(),
            node.children@.len() == old(node).children@.len(),
            node.name == old(node).name,
            before == old(node).view(),
            named_properties(
                before.properties,
                byte_slice@,
                off_dt_strings as int,
                before.properties.len(),
            ) == Ok::<Seq<PropertyView>, DevTreeError>(property_views(node.properties@)),
            forall|j: int| k <= j < node.children@.len() ==> node.children@[j] == old(
                node,
            ).children@[j],
            named_nodes(before.children, byte_slice@, off_dt_strings as int, k as nat) == Ok::<
                Seq<NodeView>,
                DevTreeError,
            >(node_views(node.children@, k as nat)),
        decreases node.children@.len() - k,
    {
        proof {
            if named_node(before.children[k as int], bytes, strings) is Err {
                lemma_named_nodes_error(
                    before.children,
                    bytes,
                    strings,
                    (k + 1) as nat,
                    before.children.len(),
                );
            }
        }
        let ghost children = node.children@;
        match fill_property_name(&mut node.children[k], byte_slice, off_dt_strings) {
            Ok(()) => {},
            Err(e) => {
                return Err(e);
            },
        }
        proof {
            lemma_node_views_prefix(children, node.children@, k as nat);
        }
        k += 1;
    }
    Ok(())
}

/// Whether `s` starts with `prefix`.
pub open spec fn is_prefix(prefix: Seq<u8>, s: Seq<u8>) -> bool {
    prefix.len() <= s.len() && s.subrange(0, prefix.len() as int) == prefix
}

/// The first three bytes of the name of a property that holds a region.
pub open spec fn reg_name() -> Seq<u8> {
    seq![114u8, 101u8, 103u8]
}

/// The first property at or behind `from` whose name starts with `reg`.
pub open spec fn first_reg(properties: Seq<PropertyView>, from: int) -> Option<int>
    decreases properties.len() - from,
{
    if from < 0 || from >= properties.len() {
        None
    } else if is_prefix(reg_name(), properties[from].name) {
        Some(from)
    } else {
        first_reg(properties, from + 1)
    }
}

/// The region that the first sixteen bytes of a value spell: its start, then
/// its size, each cut to the width of an address.
pub open spec fn reg_of(data: Seq<u8>) -> (usize, usize) {
    (be_u64(data, 0) as usize, be_u64(data, 8) as usize)
}

/// The region of the node itself, if its name starts with `prefix` and it
/// has a property that holds one; `ParseError` if that property is shorter
/// than a region.
pub open spec fn own_regs(node: NodeView, prefix: Seq<u8>) -> Result<
    Seq<(usize, usize)>,
    DevTreeError,
> {
    if !is_prefix(prefix, node.name) {
        Ok(Seq::empty())
    } else {
        match first_reg(node.properties, 0) {
            Some(i) => if node.properties[i].data.len() < 16 {
                Err(DevTreeError::ParseError)
            } else {
                Ok(seq![reg_of(node.properties[i].data)])
            },
            None => Ok(Seq::empty()),
        }
    }
}

/// The regions of the first `count` nodes of `nodes` and of all nodes below
/// them, in the order of the blob.
pub open spec fn regs_of_nodes(nodes: Seq<NodeView>, prefix: Seq<u8>, count: nat) -> Result<
    Seq<(usize, usize)>,
    DevTreeError,
>
    decreases nodes, count,
{
    if count == 0 || count > nodes.len() {
        Ok(Seq::empty())
    } else {
        match regs_of_nodes(nodes, prefix, (count - 1) as nat) {
            Ok(front) => match regs_of(nodes[count - 1], prefix) {
                Ok(last) => Ok(front + last),
                Err(e) => Err(e),
            },
            Err(e) => Err(e),
        }
    }
}

/// The regions of the nodes whose name starts with `prefix`, among the node
/// and all nodes below it, in the order of the blob.
pub open spec fn regs_of(node: NodeView, prefix: Seq<u8>) -> Result<
    Seq<(usize, usize)>,
    DevTreeError,
>
    decreases node,
{
    match own_regs(node, prefix) {
        Ok(own) => match regs_of_nodes(node.children, prefix, node.children.len()) {
            Ok(below) => Ok(own + below),
            Err(e) => Err(e),
        },
        Err(e) => Err(e),
    }
}

/// Once a region cannot be read, collecting from more nodes fails in the
/// same way.
pub proof fn lemma_regs_of_nodes_error(
    nodes: Seq<NodeView>,
    prefix: Seq<u8>,
    count: nat,
    more: nat,
)
    requires
        regs_of_nodes(nodes, prefix, count) is Err,
        count <= more <= nodes.len(),
    ensures
        regs_of_nodes(nodes, prefix, more) == regs_of_nodes(nodes, prefix, count),
    decreases more,
{
    if count < more {
        lemma_regs_of_nodes_error(nodes, prefix, count, (more - 1) as nat);
    }
}

/// Whether `s` starts with `prefix`.
pub fn starts_with(s: &[u8], prefix: &[u8]) -> (r: bool)
    ensures
        r == is_prefix(prefix@, s@),
{
    if prefix.len() > s.len() {
        return false;
    }
    let mut i: usize = 0;
    while i < prefix.len()
        invariant
            i <= prefix@.len() <= s@.len(),
            s@.subrange(0, i as int) == prefix@.subrange(0, i as int),
        decreases prefix@.len() - i,
    {
        if s[i] != prefix[i] {
            assert(s@.subrange(0, prefix@.len() as int)[i as int] != prefix@[i as int]);
            return false;
        }
        i += 1;
        assert(s@.subrange(0, i as int) =~= s@.subrange(0, i - 1).push(s@[i - 1]));
        assert(prefix@.subrange(0, i as int) =~= prefix@.subrange(0, i - 1).push(prefix@[i - 1]));
    }
    assert(prefix@.subrange(0, i as int) =~= prefix@);
    true
}

/// Whether `name` starts with `reg`.
fn names_a_reg(name: &[u8]) -> (r: bool)
    ensures
        r == is_prefix(reg_name(), name@),
{
    if name.len() < 3 {
        return false;
    }
    assert(reg_name().len() == 3);
    assert(is_prefix(reg_name(), name@) <==> name@[0] == 114 && name@[1] == 101 && name@[2]
        == 103) by {
        if name@[0] == 114 && name@[1] == 101 && name@[2] == 103 {
            assert(name@.subrange(0, 3) =~= reg_name());
        } else {
            assert(name@.subrange(0, 3)[0] == name@[0]);
            assert(name@.subrange(0, 3)[1] == name@[1]);
            assert(name@.subrange(0, 3)[2] == name@[2]);
        }
    }
    name[0] == 114 && name[1] == 101 && name[2] == 103
}

/// Appends to `v` the regions of the nodes whose name starts with `name`,
/// among the node and all nodes below it: for each such node the region in
/// its first property whose name starts with `reg`.
pub fn get_property_reg(node: &FdtNode, name: &str, v: &mut Vec<(usize, usize)>) -> (r: Result<
    (),
    DevTreeError,
>)
    ensures
        match regs_of(node.view(), name.spec_bytes()) {
            Ok(found) => r is Ok && final(v)@ == old(v)@ + found,
            Err(e) => r == Err::<(), DevTreeError>(e),
        },
    decreases node,
{
    let ghost prefix = name.spec_bytes();
    let ghost view = node.view();
    proof {
        lemma_node_views(node.children@);
    }
    if starts_with(node.name.as_slice(), name.as_bytes()) {
        let mut i: usize = 0;
        let mut found = false;
        while !found && i < node.properties.len()
            invariant
                i <= node.properties@.len(),
                view == node.view(),
                prefix == name.spec_bytes(),
                is_prefix(prefix, view.name),
                !found ==> v@ == old(v)@ && first_reg(view.properties, 0) == first_reg(
                    view.properties,
                    i as int,
                ),
                found ==> own_regs(view, prefix) is Ok && v@ == old(v)@ + own_regs(
                    view,
                    prefix,
                ).unwrap(),
            decreases node.properties@.len() - i, (if found {
                    0int
                } else {
                    1int
                }),
        {
            let property = &node.properties[i];
            if names_a_reg(property.name.as_slice()) {
                assert(first_reg(view.properties, 0) == Some(i as int));
                assert(view.properties[i as int].data == property.data@);
                if property.data.len() < 16 {
                    return Err(DevTreeError::ParseError);
                }
                let start = read_be_u64(property.data.as_slice(), 0);
                let size = read_be_u64(property.data.as_slice(), 8);
                v.push((
                    #[verifier::truncate]
                    (start as usize),
                    #[verifier::truncate]
                    (size as usize),
                ));
                found = true;
                assert(v@ =~= old(v)@ + seq![reg_of(view.properties[i as int].data)]);
            } else {
                i += 1;
            }
        }
        assert(!found ==> old(v)@ + Seq::<(usize, usize)>::empty() =~= old(v)@);
    } else {
        assert(old(v)@ + Seq::<(usize, usize)>::empty() =~= old(v)@);
    }
    let ghost own = own_regs(view, prefix).unwrap();
    assert(own_regs(view, prefix) is Ok && v@ == old(v)@ + own);
    let mut k: usize = 0;
    while k < node.children.len()
        invariant
            k <= node.children@.len(),
            view == node.view(),
            prefix == name.spec_bytes(),
            view.children.len() == node.children@.len(),
            forall|j: int|
                0 <= j < view.children.len() ==> (#[trigger] view.children[j])
                    == node.children@[j].view(),
            own_regs(view, prefix) == Ok::<Seq<(usize, usize)>, DevTreeError>(own),
            regs_of_nodes(view.children, prefix, k as nat) is Ok,
            v@ == old(v)@ + own + regs_of_nodes(view.children, prefix, k as nat).unwrap(),
        decreases node.children@.len() - k,
    {
        proof {
            if regs_of(view.children[k as int], prefix) is Err {
                lemma_regs_of_nodes_error(
                    view.children,
                    prefix,
                    (k + 1) as nat,
                    view.children.len(),
                );
            }
        }
        let ghost front = regs_of_nodes(view.children, prefix, k as nat).unwrap();
        match get_property_reg(&node.children[k], name, v) {
            Ok(()) => {},
            Err(e) => {
                return Err(e);
            },
        }
        proof {
            let last = regs_of(view.children[k as int], prefix).unwrap();
            assert(old(v)@ + own + front + last =~= old(v)@ + own + (front + last));
        }
        k += 1;
    }
    proof {
        let below = regs_of_nodes(view.children, prefix, view.children.len()).unwrap();
        assert(old(v)@ + own + below =~= old(v)@ + (own + below));
    }
    Ok(())
}

/// What a blob says of the machine: where the memory starts, how large it
/// is, and the regions of the memory-mapped devices; or why the blob cannot
/// be read.
///
/// The blob is its first `totalsize` bytes. Its structure block starts at
/// `off_dt_struct` with the tag that opens the root node, and the names of
/// the properties stand in the strings block at `off_dt_strings`. The memory
/// is the first region of the nodes whose name starts with `memory`, the
/// devices are the regions of the nodes whose name starts with `virtio_mmio`.
pub open spec fn dtb_info(blob: Seq<u8>) -> Result<
    (usize, usize, Seq<(usize, usize)>),
    DevTreeError,
> {
    let header = header_of(blob);
    let bytes = blob.subrange(0, header.totalsize as int);
    let structure = bytes.subrange(header.off_dt_struct as int, bytes.len() as int);
    if blob.len() < FDT_HEADER_SIZE {
        Err(DevTreeError::ParseError)
    } else if header.magic != FDT_MAGIC {
        Err(DevTreeError::InvalidMagicNumber)
    } else if header.totalsize > blob.len() || header.off_dt_struct > header.totalsize {
        Err(DevTreeError::InvalidOffset)
    } else if !has_word(structure, 0) || be_u32(structure, 0) != FDT_BEGIN_NODE {
        Err(DevTreeError::ParseError)
    } else {
        match node_at(structure, 4) {
            Some((root, _)) => match named_node(root, bytes, header.off_dt_strings as int) {
                Ok(named) => match regs_of(named, "memory".spec_bytes()) {
                    Ok(memory) => match regs_of(named, "virtio_mmio".spec_bytes()) {
                        Ok(mmio) => if memory.len() == 0 {
                            Err(DevTreeError::ParseError)
                        } else {
                            Ok((memory[0].0, memory[0].1, mmio))
                        },
                        Err(e) => Err(e),
                    },
                    Err(e) => Err(e),
                },
                Err(e) => Err(e),
            },
            None => Err(DevTreeError::ParseError),
        }
    }
}

/// Reads a device tree blob, and says where the memory of the machine lies
/// and where its memory-mapped devices are.
pub fn parse_dtb(blob: &[u8]) -> (r: Result<DtbInfo, DevTreeError>)
    ensures
        match dtb_info(blob@) {
            Ok((memory_addr, memory_size, mmio_regions)) => {
                &&& r is Ok
                &&& r.unwrap().memory_addr == memory_addr
                &&& r.unwrap().memory_size == memory_size
                &&& r.unwrap().mmio_regions@ == mmio_regions
            },
            Err(e) => r == Err::<DtbInfo, DevTreeError>(e),
        },
{
    let fdt_hdr = match read_header(blob) {
        Ok(header) => header,
        Err(e) => {
            return Err(e);
        },
    };
    if fdt_hdr.magic != FDT_MAGIC {
        return Err(DevTreeError::InvalidMagicNumber);
    }
    let totalsize = fdt_hdr.totalsize as usize;
    let off_dt_struct = fdt_hdr.off_dt_struct as usize;
    if totalsize > blob.len() || off_dt_struct > totalsize {
        return Err(DevTreeError::InvalidOffset);
    }
    let (byte_slice, _) = blob.split_at(totalsize);
    let (_, structure) = byte_slice.split_at(off_dt_struct);
    let mut parser = DtbParser::new(structure);
    let tag = match parser.read_u32() {
        Ok(tag) => tag,
        Err(e) => {
            return Err(e);
        },
    };
    if tag != FDT_BEGIN_NODE {
        return Err(DevTreeError::ParseError);
    }
    let mut root_node = match parse_fdt_node(&mut parser) {
        Ok(node) => node,
        Err(e) => {
            return Err(e);
        },
    };
    let off_dt_strings = fdt_hdr.off_dt_strings as usize;
    match fill_property_name(&mut root_node, byte_slice, off_dt_strings) {
        Ok(()) => {},
        Err(e) => {
            return Err(e);
        },
    }
    let mut v_mem: Vec<(usize, usize)> = Vec::new();
    match get_property_reg(&root_node, "memory", &mut v_mem) {
        Ok(()) => {},
        Err(e) => {
            return Err(e);
        },
    }
    let mut v_virtio: Vec<(usize, usize)> = Vec::new();
    match get_property_reg(&root_node, "virtio_mmio", &mut v_virtio) {
        Ok(()) => {},
        Err(e) => {
            return Err(e);
        },
    }
    proof {
        let named = root_node.view();
        assert(Seq::<(usize, usize)>::empty() + regs_of(named, "memory".spec_bytes()).unwrap()
            =~= regs_of(named, "memory".spec_bytes()).unwrap());
        assert(Seq::<(usize, usize)>::empty() + regs_of(
            named,
            "virtio_mmio".spec_bytes(),
        ).unwrap() =~= regs_of(named, "virtio_mmio".spec_bytes()).unwrap());
    }
    if v_mem.len() == 0 {
        return Err(DevTreeError::ParseError);
    }
    Ok(DtbInfo { memory_addr: v_mem[0].0, memory_size: v_mem[0].1, mmio_regions: v_virtio })
}

} // verus!
