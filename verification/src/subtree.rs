//! The `.subtree` binary: a header, the JSON document of the subtree and
//! its availability bitstreams.

use crate::availability::{
    count_set, get_child_subtree_availability_buffer, get_content_availability_buffer,
    get_tile_availability_buffer, level_bits, subtree_bits, AvailabilityKind, AvailabilityRecord,
    MAX_STREAM_BITS, MAX_STREAM_BYTES,
};
use crate::bits::pack_bits;
use crate::bytes::{
    append_bytes, le_bytes, lemma_le_bytes_len, lemma_round_up, pad_in_place, pad_to_multiple,
    round_up,
};
use crate::error::Error;
use crate::morton::can_list;
use crate::occupancy::OctreeOccupancy;
use crate::octant::{OctantIndex, MAX_LEVEL};
use vstd::prelude::*;

verus! {

/// The character with which the JSON document is padded.
pub const STRING_PADDING_CHARACTER: u8 = 0x20;

/// The version of the subtree format.
pub const SUBTREE_VERSION: u32 = 1;

/// The header of a `.subtree` file.
#[derive(Debug, Clone, Copy, PartialEq, Eq)]
pub struct SubtreeBinaryHeader {
    pub magic: [char; 4],
    pub version: u32,
    pub json_byte_length: u64,
    pub binary_byte_length: u64,
}

/// A buffer of the subtree document.
#[derive(Debug, Clone, PartialEq, Eq)]
pub struct Buffer {
    pub name: Option<String>,
    pub byte_length: u32,
    pub uri: Option<String>,
}

/// A slice of a buffer that holds one bitstream.
#[derive(Debug, Clone, PartialEq, Eq)]
pub struct BufferView {
    pub buffer: u32,
    pub byte_offset: u32,
    pub byte_length: u32,
    pub name: Option<String>,
}

/// Where the availability of a kind is found: in a bitstream, or the same
/// for all cells.
#[derive(Debug, Clone, Copy, PartialEq, Eq)]
pub struct Availability {
    pub bitstream: Option<u32>,
    pub available_count: Option<u32>,
    pub constant: Option<Constant>,
}

/// An availability that holds for all cells.
#[derive(Debug, Clone, Copy, PartialEq, Eq, Structural)]
pub enum Constant {
    Unavailable,
    Available,
}

impl Constant {
    /// The number that stands for the constant in the document.
    pub fn value(&self) -> (value: u8)
        ensures
            value == match *self {
                Constant::Unavailable => 0u8,
                Constant::Available => 1u8,
            },
    {
        match self {
            Constant::Unavailable => 0,
            Constant::Available => 1,
        }
    }
}

/// The JSON document of a subtree.
#[derive(Debug, Clone, PartialEq, Eq)]
pub struct Subtree {
    pub buffers: Vec<Buffer>,
    pub buffer_views: Vec<BufferView>,
    pub tile_availability: Availability,
    pub content_availability: Vec<Availability>,
    pub child_subtree_availability: Availability,
}

/// What a subtree document holds, with its lists as sequences.
pub struct SubtreeView {
    pub buffers: Seq<Buffer>,
    pub buffer_views: Seq<BufferView>,
    pub tile_availability: Availability,
    pub content_availability: Seq<Availability>,
    pub child_subtree_availability: Availability,
}

impl View for Subtree {
    type V = SubtreeView;

    open spec fn view(&self) -> SubtreeView {
        SubtreeView {
            buffers: self.buffers@,
            buffer_views: self.buffer_views@,
            tile_availability: self.tile_availability,
            content_availability: self.content_availability@,
            child_subtree_availability: self.child_subtree_availability,
        }
    }
}

/// The three bitstreams of one subtree, as streams of bits.
pub struct AvailabilityBits {
    pub tile: Seq<bool>,
    pub content: Seq<bool>,
    pub child_subtree: Seq<bool>,
}

/// A bitstream as it stands in the binary section: packed into bytes and
/// padded with zero bytes to a multiple of eight.
pub open spec fn padded_stream(bits: Seq<bool>) -> Seq<u8> {
    pad_to_multiple(pack_bits(bits), 8, 0)
}

impl AvailabilityBits {
    /// No stream is longer than the deepest level of a subtree.
    pub open spec fn within_limits(self) -> bool {
        &&& self.tile.len() <= MAX_STREAM_BITS
        &&& self.content.len() <= MAX_STREAM_BITS
        &&& self.child_subtree.len() <= MAX_STREAM_BITS
    }

    /// No cell just below the subtree is occupied: the child-subtree stream
    /// has no set bit.
    pub open spec fn has_no_child_subtree(self) -> bool {
        count_set(self.child_subtree) == 0
    }

    /// The binary section of the subtree: the streams, each padded to a
    /// multiple of eight bytes. The child-subtree stream is left out where
    /// no cell just below the subtree is occupied.
    pub open spec fn combined(self) -> Seq<u8> {
        if self.has_no_child_subtree() {
            padded_stream(self.tile) + padded_stream(self.content)
        } else {
            padded_stream(self.tile) + padded_stream(self.content) + padded_stream(
                self.child_subtree,
            )
        }
    }

    /// The views of the binary section, one for each stream that stands in
    /// it: each starts where the padded streams before it end and is as
    /// long as its stream without padding.
    pub open spec fn buffer_views(self) -> Seq<BufferView> {
        let tile = BufferView {
            buffer: 0,
            byte_offset: 0,
            byte_length: pack_bits(self.tile).len() as u32,
            name: None,
        };
        let content = BufferView {
            buffer: 0,
            byte_offset: padded_stream(self.tile).len() as u32,
            byte_length: pack_bits(self.content).len() as u32,
            name: None,
        };
        let child_subtree = BufferView {
            buffer: 0,
            byte_offset: (padded_stream(self.tile).len() + padded_stream(self.content).len()) as u32,
            byte_length: pack_bits(self.child_subtree).len() as u32,
            name: None,
        };
        if self.has_no_child_subtree() {
            seq![tile, content]
        } else {
            seq![tile, content, child_subtree]
        }
    }

    /// Where the document finds the tile availability: in the first view.
    pub open spec fn tile_availability(self) -> Availability {
        Availability {
            bitstream: Some(0),
            available_count: Some(count_set(self.tile) as u32),
            constant: None,
        }
    }

    /// Where the document finds the content availability: in the second
    /// view.
    pub open spec fn content_availability(self) -> Seq<Availability> {
        seq![
            Availability {
                bitstream: Some(1),
                available_count: Some(count_set(self.content) as u32),
                constant: None,
            },
        ]
    }

    /// Where the document finds the child-subtree availability: nowhere, as
    /// the constant `Unavailable`, where no cell just below the subtree is
    /// occupied, else in the third view.
    pub open spec fn child_subtree_availability(self) -> Availability {
        if self.has_no_child_subtree() {
            Availability {
                bitstream: None,
                available_count: None,
                constant: Some(Constant::Unavailable),
            }
        } else {
            Availability {
                bitstream: Some(2),
                available_count: Some(count_set(self.child_subtree) as u32),
                constant: None,
            }
        }
    }

    /// The document that describes the streams: one buffer for the binary
    /// section, its views, and where each availability is found.
    pub open spec fn document(self) -> SubtreeView {
        SubtreeView {
            buffers: seq![
                Buffer { name: None, byte_length: self.combined().len() as u32, uri: None },
            ],
            buffer_views: self.buffer_views(),
            tile_availability: self.tile_availability(),
            content_availability: self.content_availability(),
            child_subtree_availability: self.child_subtree_availability(),
        }
    }

    /// The lengths of the streams and of the binary section fit into 32
    /// bits, and the section is a whole number of eight-byte words.
    pub proof fn lemma_lengths(self)
        requires
            self.within_limits(),
        ensures
            pack_bits(self.tile).len() <= MAX_STREAM_BYTES,
            pack_bits(self.content).len() <= MAX_STREAM_BYTES,
            pack_bits(self.child_subtree).len() <= MAX_STREAM_BYTES,
            padded_stream(self.tile).len() <= MAX_STREAM_BYTES,
            padded_stream(self.content).len() <= MAX_STREAM_BYTES,
            padded_stream(self.child_subtree).len() <= MAX_STREAM_BYTES,
            padded_stream(self.tile).len() % 8 == 0,
            padded_stream(self.content).len() % 8 == 0,
            padded_stream(self.child_subtree).len() % 8 == 0,
            self.combined().len() <= 3 * MAX_STREAM_BYTES,
            self.combined().len() % 8 == 0,
    {
        lemma_round_up(pack_bits(self.tile).len() as int, 8);
        lemma_round_up(pack_bits(self.content).len() as int, 8);
        lemma_round_up(pack_bits(self.child_subtree).len() as int, 8);
    }
}

/// The bitstreams of the subtree of `levels` levels rooted at `base`: tile
/// and content availability of the cells of the subtree, and the occupancy
/// of the cells just below it.
pub open spec fn subtree_availability(
    occupancy: &OctreeOccupancy,
    base: OctantIndex,
    levels: nat,
) -> AvailabilityBits {
    AvailabilityBits {
        tile: subtree_bits(occupancy, AvailabilityKind::Tile, base, levels),
        content: subtree_bits(occupancy, AvailabilityKind::Content, base, levels),
        child_subtree: level_bits(occupancy, AvailabilityKind::Tile, base, levels),
    }
}

/// The three bitstreams of one subtree.
pub struct AvailabilityInfo {
    pub tile: AvailabilityRecord,
    pub content: AvailabilityRecord,
    pub child_subtree: AvailabilityRecord,
}

/// The view holds the bits of the three streams. The count that each
/// record keeps is not part of it: `wf()` states it as the number of set
/// bits.
impl View for AvailabilityInfo {
    type V = AvailabilityBits;

    open spec fn view(&self) -> AvailabilityBits {
        AvailabilityBits {
            tile: self.tile.bits(),
            content: self.content.bits(),
            child_subtree: self.child_subtree.bits(),
        }
    }
}

impl AvailabilityInfo {
    /// All three records are well formed.
    pub open spec fn wf(&self) -> bool {
        self.tile.wf() && self.content.wf() && self.child_subtree.wf()
    }

    /// The padded streams one after the other, without the child-subtree
    /// stream where no cell just below the subtree is occupied.
    pub fn get_combined_buffer(&self) -> (bytes: Vec<u8>)
        requires
            self.wf(),
        ensures
            bytes@ == self@.combined(),
    {
        let mut bytes = self.tile.get_padded_buffer();
        let content = self.content.get_padded_buffer();
        append_bytes(&mut bytes, &content);
        if !self.child_subtree.is_empty() {
            let child_subtree = self.child_subtree.get_padded_buffer();
            append_bytes(&mut bytes, &child_subtree);
        }
        bytes
    }

    /// The buffer views of the document.
    pub fn get_buffer_views(&self) -> (views: Vec<BufferView>)
        requires
            self.wf(),
        ensures
            views@ == self@.buffer_views(),
    {
        proof {
            self@.lemma_lengths();
        }
        let tile_length = self.tile.buffer().len();
        let tile_padded_length = self.tile.get_padded_buffer().len();
        let content_length = self.content.buffer().len();
        let content_padded_length = self.content.get_padded_buffer().len();
        let child_subtree_length = self.child_subtree.buffer().len();
        let mut buffer_views: Vec<BufferView> = Vec::new();
        buffer_views.push(
            BufferView { buffer: 0, byte_offset: 0, byte_length: tile_length as u32, name: None },
        );
        buffer_views.push(
            BufferView {
                buffer: 0,
                byte_offset: tile_padded_length as u32,
                byte_length: content_length as u32,
                name: None,
            },
        );
        if !self.child_subtree.is_empty() {
            buffer_views.push(
                BufferView {
                    buffer: 0,
                    byte_offset: (tile_padded_length + content_padded_length) as u32,
                    byte_length: child_subtree_length as u32,
                    name: None,
                },
            );
        }
        assert(buffer_views@ =~= self@.buffer_views());
        buffer_views
    }

    /// Where the document finds the tile availability.
    pub fn get_tile_availability(&self) -> (availability: Availability)
        requires
            self.wf(),
        ensures
            availability == self@.tile_availability(),
    {
        Availability { bitstream: Some(0), available_count: Some(self.tile.count()), constant: None }
    }

    /// Where the document finds the content availability.
    pub fn get_content_availability(&self) -> (availability: Vec<Availability>)
        requires
            self.wf(),
        ensures
            availability@ == self@.content_availability(),
    {
        let mut availability: Vec<Availability> = Vec::new();
        availability.push(
            Availability {
                bitstream: Some(1),
                available_count: Some(self.content.count()),
                constant: None,
            },
        );
        assert(availability@ =~= self@.content_availability());
        availability
    }

    /// Where the document finds the child-subtree availability.
    pub fn get_child_subtree_availability(&self) -> (availability: Availability)
        requires
            self.wf(),
        ensures
            availability == self@.child_subtree_availability(),
    {
        if self.child_subtree.is_empty() {
            Availability {
                bitstream: None,
                available_count: None,
                constant: Some(Constant::Unavailable),
            }
        } else {
            Availability {
                bitstream: Some(2),
                available_count: Some(self.child_subtree.count()),
                constant: None,
            }
        }
    }
}

/// The three bitstreams of the subtree rooted at `base_octant_index`.
///
/// The subtree may have as many levels as `can_list` admits: at most ten,
/// so that its cells are counted in 32 bits, and no more than the target
/// can hold in one list.
pub fn get_availability_buffer(
    base_octant_index: OctantIndex,
    levels_per_subtree: usize,
    content_octree: &OctreeOccupancy,
) -> (info: AvailabilityInfo)
    requires
        content_octree.wf(),
        content_octree.is_occupied(base_octant_index),
        can_list(levels_per_subtree as nat),
        base_octant_index.level + levels_per_subtree <= MAX_LEVEL,
    ensures
        info.wf(),
        info@ == subtree_availability(content_octree, base_octant_index, levels_per_subtree as nat),
{
    let tile = get_tile_availability_buffer(base_octant_index, levels_per_subtree, content_octree);
    let content = get_content_availability_buffer(
        base_octant_index,
        levels_per_subtree,
        content_octree,
    );
    let child_subtree = get_child_subtree_availability_buffer(
        base_octant_index,
        levels_per_subtree,
        content_octree,
    );
    AvailabilityInfo { tile, content, child_subtree }
}

/// The error of the encoder of bincode, carried through unread.
#[verifier::external_type_specification]
#[verifier::external_body]
pub struct ExEncodeError(bincode::error::EncodeError);

/// The four characters every `.subtree` file starts with.
pub open spec fn subtree_magic() -> Seq<char> {
    seq!['s', 'u', 'b', 't']
}

/// The bytes of the four characters every `.subtree` file starts with.
pub open spec fn subtree_magic_bytes() -> Seq<u8> {
    seq![0x73u8, 0x75u8, 0x62u8, 0x74u8]
}

/// The bytes of a header: the magic as UTF-8, then version and lengths as
/// little-endian integers of their full width.
pub open spec fn subtree_header_bytes(header: SubtreeBinaryHeader) -> Seq<u8> {
    vstd::utf8::encode_utf8(header.magic@) + le_bytes(header.version as nat, 4) + le_bytes(
        header.json_byte_length as nat,
        8,
    ) + le_bytes(header.binary_byte_length as nat, 8)
}

/// The `.subtree` file for the serialized document `json` and the binary
/// section `binary`: the header, the document padded with spaces to a
/// multiple of eight bytes, and the binary section.
pub open spec fn subtree_binary(json: Seq<u8>, binary: Seq<u8>) -> Seq<u8> {
    let padded = pad_to_multiple(json, 8, STRING_PADDING_CHARACTER);
    subtree_magic_bytes() + le_bytes(SUBTREE_VERSION as nat, 4) + le_bytes(padded.len(), 8)
        + le_bytes(binary.len(), 8) + padded + binary
}

/// `bincode::encode_to_vec` with the standard configuration switched to
/// integers of fixed width: each character of the magic as UTF-8, then the
/// three integers least significant byte first. The encoder writes into a
/// vector, which takes every byte, and none of the four fields has an
/// encoding that can fail.
#[verifier::external_body]
fn encode_header(header: &SubtreeBinaryHeader) -> (r: Result<
    Vec<u8>,
    bincode::error::EncodeError,
>)
    ensures
        r is Ok,
        r matches Ok(bytes) ==> bytes@ == subtree_header_bytes(*header),
{
    bincode::encode_to_vec(
        (header.magic, header.version, header.json_byte_length, header.binary_byte_length),
        bincode::config::standard().with_fixed_int_encoding(),
    )
}

/// The header of every subtree file is 24 bytes long and starts with the
/// bytes of `subt`.
pub proof fn lemma_header_bytes(header: SubtreeBinaryHeader)
    requires
        header.magic@ == subtree_magic(),
    ensures
        subtree_header_bytes(header) == subtree_magic_bytes() + le_bytes(header.version as nat, 4)
            + le_bytes(header.json_byte_length as nat, 8) + le_bytes(
            header.binary_byte_length as nat,
            8,
        ),
        subtree_header_bytes(header).len() == 24,
{
    let magic = subtree_magic();
    assert(vstd::utf8::is_ascii_chars(magic));
    vstd::utf8::is_ascii_chars_encode_utf8(magic);
    let encoded = vstd::utf8::encode_utf8(magic);
    assert(encoded == subtree_magic_bytes()) by {
        assert(encoded[0] == magic[0] as u8);
        assert(encoded[1] == magic[1] as u8);
        assert(encoded[2] == magic[2] as u8);
        assert(encoded[3] == magic[3] as u8);
        assert(encoded =~= subtree_magic_bytes());
    }
    lemma_le_bytes_len(header.version as nat, 4);
    lemma_le_bytes_len(header.json_byte_length as nat, 8);
    lemma_le_bytes_len(header.binary_byte_length as nat, 8);
}

impl Subtree {
    /// The document that describes the bitstreams of `availability_info`.
    pub fn from_availability(availability_info: &AvailabilityInfo) -> (document: Subtree)
        requires
            availability_info.wf(),
        ensures
            document@ == availability_info@.document(),
    {
        proof {
            availability_info@.lemma_lengths();
        }
        let mut buffers: Vec<Buffer> = Vec::new();
        buffers.push(
            Buffer {
                name: None,
                byte_length: availability_info.get_combined_buffer().len() as u32,
                uri: None,
            },
        );
        assert(buffers@ =~= availability_info@.document().buffers);
        Subtree {
            buffers,
            buffer_views: availability_info.get_buffer_views(),
            tile_availability: availability_info.get_tile_availability(),
            content_availability: availability_info.get_content_availability(),
            child_subtree_availability: availability_info.get_child_subtree_availability(),
        }
    }

    /// The serialized document `json`, followed by spaces up to a multiple
    /// of eight bytes.
    pub fn encode_as_bytes(json: &Vec<u8>) -> (encoded_data: Vec<u8>)
        ensures
            encoded_data@ == pad_to_multiple(json@, 8, STRING_PADDING_CHARACTER),
            encoded_data@.len() % 8 == 0,
            json@.len() <= encoded_data@.len() < json@.len() + 8,
            json@.len() > 0 ==> encoded_data@.len() > 0,
            encoded_data@.subrange(0, json@.len() as int) == json@,
            forall|i: int|
                json@.len() <= i < encoded_data@.len() ==> encoded_data@[i]
                    == STRING_PADDING_CHARACTER,
    {
        let mut encoded_data: Vec<u8> = Vec::new();
        append_bytes(&mut encoded_data, json);
        assert(encoded_data@ == json@);
        pad_in_place(&mut encoded_data, 8, STRING_PADDING_CHARACTER);
        proof {
            lemma_round_up(json@.len() as int, 8);
            assert(encoded_data@.subrange(0, json@.len() as int) =~= json@);
        }
        encoded_data
    }
}

/// Writes the `.subtree` file of one subtree to `writer`: the header, the
/// padded document and the binary section of `availability_info`.
/// `subtree_json` is the serialized document of the subtree.
pub fn write_subtree(
    writer: &mut Vec<u8>,
    availability_info: &AvailabilityInfo,
    subtree_json: &Vec<u8>,
) -> (r: Result<(), Error>)
    requires
        availability_info.wf(),
    ensures
        r is Ok,
        final(writer)@ == old(writer)@ + subtree_binary(
            subtree_json@,
            availability_info@.combined(),
        ),
{
    let encoded_subtree_json = Subtree::encode_as_bytes(subtree_json);
    let combined_buffer = availability_info.get_combined_buffer();
    let subtree_binary_header = SubtreeBinaryHeader {
        magic: ['s', 'u', 'b', 't'],
        version: SUBTREE_VERSION,
        json_byte_length: encoded_subtree_json.len() as u64,
        binary_byte_length: combined_buffer.len() as u64,
    };
    proof {
        assert(subtree_binary_header.magic@ =~= subtree_magic());
        lemma_header_bytes(subtree_binary_header);
    }
    let encoded_subtree_binary_header = match encode_header(&subtree_binary_header) {
        Ok(bytes) => bytes,
        Err(_) => unreached(),
    };
    let ghost before = writer@;
    append_bytes(writer, &encoded_subtree_binary_header);
    append_bytes(writer, &encoded_subtree_json);
    append_bytes(writer, &combined_buffer);
    proof {
        assert(writer@ =~= before + subtree_binary(subtree_json@, availability_info@.combined()));
    }
    Ok(())
}

/// Each buffer view cuts the packed bytes of its stream out of the binary
/// section, and there is a third view if and only if a cell just below the
/// subtree is occupied.
pub proof fn lemma_views_cut_streams(bits: AvailabilityBits)
    requires
        bits.within_limits(),
    ensures
        ({
            let views = bits.buffer_views();
            let section = bits.combined();
            &&& views.len() == if count_set(bits.child_subtree) == 0 {
                2nat
            } else {
                3nat
            }
            &&& section.subrange(
                views[0].byte_offset as int,
                views[0].byte_offset + views[0].byte_length,
            ) == pack_bits(bits.tile)
            &&& section.subrange(
                views[1].byte_offset as int,
                views[1].byte_offset + views[1].byte_length,
            ) == pack_bits(bits.content)
            &&& views.len() == 3 ==> section.subrange(
                views[2].byte_offset as int,
                views[2].byte_offset + views[2].byte_length,
            ) == pack_bits(bits.child_subtree)
        }),
{
    bits.lemma_lengths();
    let views = bits.buffer_views();
    let section = bits.combined();
    let tile = pack_bits(bits.tile);
    let content = pack_bits(bits.content);
    let child_subtree = pack_bits(bits.child_subtree);
    assert(section.subrange(0, tile.len() as int) =~= tile);
    let second = padded_stream(bits.tile).len() as int;
    let third = second + padded_stream(bits.content).len();
    assert(section.subrange(second, second + content.len()) =~= content);
    if !bits.has_no_child_subtree() {
        assert(section.subrange(third, third + child_subtree.len()) =~= child_subtree);
    }
}

/// The layout of a `.subtree` file: 24 bytes of header, the document, spaces
/// up to a multiple of eight bytes, and the binary section.
pub proof fn lemma_subtree_binary_layout(json: Seq<u8>, binary: Seq<u8>)
    ensures
        ({
            let file = subtree_binary(json, binary);
            let padded_length = round_up(json.len() as int, 8);
            &&& padded_length % 8 == 0
            &&& json.len() <= padded_length < json.len() + 8
            &&& file.len() == 24 + padded_length + binary.len()
            &&& file.subrange(0, 4) == subtree_magic_bytes()
            &&& file.subrange(24, 24 + json.len() as int) == json
            &&& forall|i: int|
                24 + json.len() <= i < 24 + padded_length ==> file[i] == STRING_PADDING_CHARACTER
            &&& file.subrange(24 + padded_length, file.len() as int) == binary
        }),
{
    let file = subtree_binary(json, binary);
    let padded = pad_to_multiple(json, 8, STRING_PADDING_CHARACTER);
    lemma_round_up(json.len() as int, 8);
    lemma_le_bytes_len(SUBTREE_VERSION as nat, 4);
    lemma_le_bytes_len(padded.len(), 8);
    lemma_le_bytes_len(binary.len(), 8);
    assert(file.subrange(0, 4) =~= subtree_magic_bytes());
    assert(file.subrange(24, 24 + json.len() as int) =~= json);
    assert(file.subrange(24 + padded.len() as int, file.len() as int) =~= binary);
}

} // verus!
