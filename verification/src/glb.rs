//! Framing of binary glTF content: one buffer of packed vertices behind a
//! JSON document, in a `.glb` container.

use crate::bytes::{
    append_bytes, le_bytes, lemma_le_bytes_len, lemma_round_up, pad_in_place, pad_to_multiple,
    round_up,
};
use crate::error::{encoding_outcome, Error};
use vstd::prelude::*;

verus! {

/// Bytes of one packed vertex: three position and three colour components of
/// four bytes each.
pub const VERTEX_STRIDE: usize = 24;

/// Offset of the colour components within a packed vertex.
pub const COLOR_OFFSET: usize = 12;

/// The four bytes every `.glb` file starts with.
pub open spec fn glb_magic() -> Seq<u8> {
    seq![0x67u8, 0x6Cu8, 0x54u8, 0x46u8]
}

/// The type tag of the JSON chunk.
pub open spec fn json_chunk_tag() -> Seq<u8> {
    seq![0x4Au8, 0x53u8, 0x4Fu8, 0x4Eu8]
}

/// The type tag of the binary chunk.
pub open spec fn bin_chunk_tag() -> Seq<u8> {
    seq![0x42u8, 0x49u8, 0x4Eu8, 0x00u8]
}

/// One chunk of a `.glb` file: the padded length, the tag, the padded payload.
pub open spec fn glb_chunk(tag: Seq<u8>, payload: Seq<u8>, fill: u8) -> Seq<u8> {
    let padded = pad_to_multiple(payload, 4, fill);
    le_bytes(padded.len() % 0x1_0000_0000, 4) + tag + padded
}

/// The `.glb` file that holds `json` and `bin`: the twelve-byte header with
/// the length of the whole file, the JSON chunk padded with spaces and the
/// binary chunk padded with zeros.
pub open spec fn glb_container(json: Seq<u8>, bin: Seq<u8>) -> Seq<u8> {
    let json_chunk = glb_chunk(json_chunk_tag(), json, 0x20);
    let bin_chunk = glb_chunk(bin_chunk_tag(), bin, 0);
    let total = 12 + json_chunk.len() + bin_chunk.len();
    glb_magic() + le_bytes(2, 4) + le_bytes(total % 0x1_0000_0000, 4) + json_chunk + bin_chunk
}

/// The header section of a `.glb` file.
#[derive(Debug, Clone, Copy, PartialEq, Eq)]
pub struct GlbHeader {
    pub magic: [u8; 4],
    pub version: u32,
    pub length: u32,
}

/// What the glTF document of a tile says about its vertex buffer.
#[derive(Debug, Clone, Copy, PartialEq, Eq)]
pub struct VertexBufferLayout {
    /// Number of vertices, the `count` of both accessors.
    pub vertex_count: usize,
    /// Length of the buffer and of its one view.
    pub byte_length: usize,
    /// Distance between two vertices in the view.
    pub byte_stride: usize,
    /// Offset of the position accessor.
    pub position_byte_offset: usize,
    /// Offset of the colour accessor.
    pub color_byte_offset: usize,
}

/// The layout of `vertex_count` tightly packed vertices.
pub fn vertex_buffer_layout(vertex_count: usize) -> (layout: VertexBufferLayout)
    requires
        vertex_count * VERTEX_STRIDE <= usize::MAX,
    ensures
        layout == (VertexBufferLayout {
            vertex_count,
            byte_length: (vertex_count * 24) as usize,
            byte_stride: 24,
            position_byte_offset: 0,
            color_byte_offset: 12,
        }),
{
    VertexBufferLayout {
        vertex_count,
        byte_length: vertex_count * VERTEX_STRIDE,
        byte_stride: VERTEX_STRIDE,
        position_byte_offset: 0,
        color_byte_offset: COLOR_OFFSET,
    }
}

/// Rounds `n` up to the next multiple of four.
pub fn align_to_multiple_of_four(n: &mut usize)
    requires
        *old(n) <= usize::MAX - 3,
    ensures
        *final(n) == round_up(*old(n) as int, 4),
        *final(n) % 4 == 0,
        *old(n) <= *final(n) < *old(n) + 4,
{
    let bumped: usize = *n + 3;
    assert(bumped & !3usize == (bumped / 4) * 4) by (bit_vector);
    *n = bumped & !3;
}

/// A copy of `data`, followed by zero bytes up to a multiple of four.
pub fn to_padded_byte_vector(data: &Vec<u8>) -> (padded: Vec<u8>)
    ensures
        padded@ == pad_to_multiple(data@, 4, 0),
        padded@.len() % 4 == 0,
{
    let mut new_vec: Vec<u8> = Vec::new();
    append_bytes(&mut new_vec, data);
    assert(new_vec@ == data@);
    pad_in_place(&mut new_vec, 4, 0);
    new_vec
}

/// The header that is handed to the encoder for a JSON document of
/// `json_length` bytes and a vertex buffer of `buffer_length` bytes: its
/// length is that of the padded document and the buffer together. The
/// encoder writes the length of the whole file in its place, which is 28
/// bytes more.
pub fn glb_header(json_length: usize, buffer_length: usize) -> (header: GlbHeader)
    requires
        round_up(json_length as int, 4) + buffer_length <= u32::MAX,
    ensures
        header.magic@ == glb_magic(),
        header.version == 2,
        header.length == round_up(json_length as int, 4) + buffer_length,
{
    let mut json_offset: usize = json_length;
    proof {
        lemma_round_up(json_length as int, 4);
    }
    align_to_multiple_of_four(&mut json_offset);
    let magic: [u8; 4] = [0x67, 0x6C, 0x54, 0x46];
    assert(magic@ == glb_magic());
    GlbHeader { magic, version: 2, length: (json_offset + buffer_length) as u32 }
}

/// `gltf::binary::Glb::to_writer` on a byte vector. The crate writes the
/// magic, version 2 and the length of the whole file, then the JSON chunk
/// padded with spaces and the binary chunk padded with zeros, each behind its
/// padded length and its tag; all lengths are cut to 32 bits. It takes none
/// of these from `header`. It fails only where its writer fails, and the
/// byte vector it writes to takes every byte.
#[verifier::external_body]
fn glb_to_writer(writer: &mut Vec<u8>, header: &GlbHeader, json: &Vec<u8>, bin: &Vec<u8>) -> (r:
    Result<(), std::io::Error>)
    requires
        json@.len() + bin@.len() + 36 <= usize::MAX,
    ensures
        r is Ok,
        final(writer)@ == old(writer)@ + glb_container(json@, bin@),
{
    let glb = gltf::binary::Glb {
        header: gltf::binary::Header {
            magic: header.magic,
            version: header.version,
            length: header.length,
        },
        json: std::borrow::Cow::Borrowed(json.as_slice()),
        bin: Some(std::borrow::Cow::Borrowed(bin.as_slice())),
    };
    glb.to_writer(writer).map_err(std::io::Error::other)
}

/// A chunk is eight bytes longer than its payload rounded up to a multiple
/// of four.
pub proof fn lemma_glb_chunk_length(tag: Seq<u8>, payload: Seq<u8>, fill: u8)
    requires
        tag.len() == 4,
    ensures
        glb_chunk(tag, payload, fill).len() == 8 + round_up(payload.len() as int, 4),
        glb_chunk(tag, payload, fill).len() % 4 == 0,
        pad_to_multiple(payload, 4, fill).len() == round_up(payload.len() as int, 4),
{
    lemma_round_up(payload.len() as int, 4);
    let padded = pad_to_multiple(payload, 4, fill);
    assert(padded.len() == round_up(payload.len() as int, 4));
    lemma_le_bytes_len(padded.len() % 0x1_0000_0000, 4);
}

/// In every `.glb` file the JSON chunk is padded to a multiple of four
/// bytes, so the header of the binary chunk starts at a multiple of four, and
/// so does whatever follows the file. The file is 28 bytes longer than the
/// padded document and the padded buffer together, and its header tells
/// the length of the whole file.
pub proof fn lemma_glb_chunks_aligned(json: Seq<u8>, bin: Seq<u8>)
    ensures
        pad_to_multiple(json, 4, 0x20).len() % 4 == 0,
        glb_chunk(json_chunk_tag(), json, 0x20).len() == 8 + round_up(json.len() as int, 4),
        (12 + glb_chunk(json_chunk_tag(), json, 0x20).len()) % 4 == 0,
        glb_container(json, bin).len() == 28 + round_up(json.len() as int, 4) + round_up(
            bin.len() as int,
            4,
        ),
        glb_container(json, bin).len() % 4 == 0,
        glb_container(json, bin).subrange(8, 12) == le_bytes(
            glb_container(json, bin).len() % 0x1_0000_0000,
            4,
        ),
{
    lemma_glb_chunk_length(json_chunk_tag(), json, 0x20);
    lemma_glb_chunk_length(bin_chunk_tag(), bin, 0);
    let json_chunk = glb_chunk(json_chunk_tag(), json, 0x20);
    let bin_chunk = glb_chunk(bin_chunk_tag(), bin, 0);
    let total = (12 + json_chunk.len() + bin_chunk.len()) as nat;
    let length = le_bytes(total % 0x1_0000_0000, 4);
    lemma_le_bytes_len(2, 4);
    lemma_le_bytes_len(total % 0x1_0000_0000, 4);
    let file = glb_container(json, bin);
    assert(file == glb_magic() + le_bytes(2, 4) + length + json_chunk + bin_chunk);
    assert(file.len() == 4 + 4 + 4 + json_chunk.len() + bin_chunk.len());
    assert(file.subrange(8, 12) =~= length);
}

/// Writes the `.glb` file of one tile to `writer`: `json` is the serialized
/// glTF document and `vertex_data` the packed vertices it describes.
///
/// The call succeeds, and `writer` has grown by exactly the container of
/// `json` and `vertex_data`.
pub fn write_gltf_tile(writer: &mut Vec<u8>, json: &Vec<u8>, vertex_data: &Vec<u8>) -> (r: Result<
    (),
    Error,
>)
    requires
        vertex_data@.len() > 0,
        vertex_data@.len() % (VERTEX_STRIDE as nat) == 0,
        round_up(json@.len() as int, 4) + vertex_data@.len() <= u32::MAX,
        json@.len() + vertex_data@.len() + 36 <= usize::MAX,
    ensures
        r is Ok,
        final(writer)@ == old(writer)@ + glb_container(json@, vertex_data@),
{
    let padded_byte_vector = to_padded_byte_vector(vertex_data);
    proof {
        lemma_round_up(vertex_data@.len() as int, 4);
        lemma_round_up(json@.len() as int, 4);
        assert(padded_byte_vector@ =~= vertex_data@);
    }
    let header = glb_header(json.len(), vertex_data.len());
    let written = glb_to_writer(writer, &header, json, &padded_byte_vector);
    encoding_outcome(written)
}

} // verus!
