//! Content of a cell that can be encoded for the archive.

use crate::bytes::round_up;
use crate::error::Error;
use crate::glb::{glb_container, write_gltf_tile, VERTEX_STRIDE};
use vstd::prelude::*;

verus! {

/// Content that has an encoding as a file of the archive.
pub trait EncodableContent {
    /// The content is complete and small enough to be encoded.
    spec fn encodable(&self) -> bool;

    /// The bytes of the encoded content.
    spec fn encoding(&self) -> Seq<u8>;

    /// The encoded content, or `EncodingFailed` where the encoder fails.
    fn encode(&self) -> (r: Result<Vec<u8>, Error>)
        requires
            self.encodable(),
        ensures
            r matches Ok(bytes) ==> bytes@ == self.encoding(),
            r is Err ==> r == Err::<Vec<u8>, Error>(Error::EncodingFailed),
    ;
}

/// The points of one cell: their packed vertices and the serialized glTF
/// document that describes them.
#[derive(Debug, Clone, PartialEq, Eq)]
pub struct PointContent {
    pub document: Vec<u8>,
    pub vertex_data: Vec<u8>,
}

impl PointContent {
    /// Whether the content can be encoded: there is at least one vertex,
    /// the vertex data are whole vertices, and document and data are within
    /// what a binary glTF file can hold.
    pub fn is_encodable(&self) -> (encodable: bool)
        ensures
            encodable == self.encodable(),
    {
        let vertex_length = self.vertex_data.len();
        let document_length = self.document.len();
        if vertex_length == 0 || vertex_length % VERTEX_STRIDE != 0 {
            return false;
        }
        proof {
            crate::bytes::lemma_round_up(document_length as int, 4);
        }
        if document_length > 0xffff_fff0 || vertex_length > 0xffff_fff0 {
            return false;
        }
        let padded_length: u64 = (document_length as u64 + 3) / 4 * 4;
        padded_length + vertex_length as u64 <= 0xffff_ffff && document_length as u64
            + vertex_length as u64 + 36 <= usize::MAX as u64
    }
}

impl EncodableContent for PointContent {
    open spec fn encodable(&self) -> bool {
        &&& self.vertex_data@.len() > 0
        &&& self.vertex_data@.len() % (VERTEX_STRIDE as nat) == 0
        &&& round_up(self.document@.len() as int, 4) + self.vertex_data@.len() <= u32::MAX
        &&& self.document@.len() + self.vertex_data@.len() + 36 <= usize::MAX
    }

    open spec fn encoding(&self) -> Seq<u8> {
        glb_container(self.document@, self.vertex_data@)
    }

    /// The `.glb` file of the points. The call succeeds.
    fn encode(&self) -> (r: Result<Vec<u8>, Error>)
        ensures
            r matches Ok(bytes) && bytes@ == self.encoding(),
    {
        let mut point_data_buffer: Vec<u8> = Vec::new();
        match write_gltf_tile(&mut point_data_buffer, &self.document, &self.vertex_data) {
            Ok(()) => Ok(point_data_buffer),
            Err(_) => unreached(),
        }
    }
}

} // verus!
