//! The data values block, which holds raw record bytes.

use vstd::prelude::*;

use super::block::Block;
use super::block_header::{has_block_id, id_error, lemma_encoded_id, BlockHeader};
use super::utils::{lemma_slice_len, read_array, read_uint, read_vec, uint_at};
use crate::text::invalid_id_message;

verus! {

/// The number of data bytes that the data values block at `pos` announces.
pub open spec fn dv_data_len(bytes: Seq<u8>, pos: int, little_endian: bool) -> nat {
    uint_at(bytes, pos + 52, 8, little_endian)
}

/// A data values block: header, links to the next data values block, to the data block and
/// to the parent data group, the data type, reserved bytes, and the data.
#[derive(Debug)]
pub struct Dvblock {
    pub header: BlockHeader,
    pub dv_next_dv_block: u64,
    pub dv_data_block: u64,
    pub dv_parent_dg_block: u64,
    pub dv_data_type: u8,
    pub dv_reserved: [u8; 3],
    pub dv_data: Vec<u8>,
}

impl Dvblock {
    /// This block is the one stored at `pos`.
    pub open spec fn encoded_at(&self, bytes: Seq<u8>, pos: int, little_endian: bool) -> bool {
        &&& self.header.encoded_at(bytes, pos, little_endian)
        &&& self.dv_next_dv_block == uint_at(bytes, pos + 24, 8, little_endian)
        &&& self.dv_data_block == uint_at(bytes, pos + 32, 8, little_endian)
        &&& self.dv_parent_dg_block == uint_at(bytes, pos + 40, 8, little_endian)
        &&& self.dv_data_type == bytes[pos + 48]
        &&& self.dv_reserved@ == bytes.subrange(pos + 49, pos + 52)
        &&& self.dv_data@ == bytes.subrange(pos + 60, pos + 60 + dv_data_len(bytes, pos, little_endian))
    }

    /// An empty `##DV` block with null links.
    pub fn new() -> (b: Self)
        ensures
            b.header.id@ == seq![35u8, 35u8, 68u8, 86u8],
            b.header.reserved@ == seq![0u8, 0u8, 0u8, 0u8],
            b.header.length == 24,
            b.header.link_count == 0,
            b.dv_next_dv_block == 0,
            b.dv_data_block == 0,
            b.dv_parent_dg_block == 0,
            b.dv_data_type == 0,
            b.dv_reserved@ == seq![0u8, 0u8, 0u8],
            b.dv_data@ == Seq::<u8>::empty(),
    {
        let id: [u8; 4] = [35u8, 35u8, 68u8, 86u8];
        let b = Self {
            header: BlockHeader::new(id.as_slice()),
            dv_next_dv_block: 0,
            dv_data_block: 0,
            dv_parent_dg_block: 0,
            dv_data_type: 0,
            dv_reserved: [0u8; 3],
            dv_data: Vec::new(),
        };
        assert(b.header.id@ =~= seq![35u8, 35u8, 68u8, 86u8]);
        assert(b.dv_reserved@ =~= seq![0u8, 0u8, 0u8]);
        b
    }

    /// The data of the block.
    pub fn data(&self) -> (d: &[u8])
        ensures
            d@ == self.dv_data@,
    {
        self.dv_data.as_slice()
    }
}

impl Block for Dvblock {
    open spec fn spec_byte_len(&self) -> nat {
        60 + self.dv_data@.len()
    }

    open spec fn spec_readable(bytes: Seq<u8>, pos: int, little_endian: bool) -> bool {
        &&& pos + 24 <= bytes.len()
        &&& has_block_id(bytes, pos, 68u8, 86u8) ==> pos + 60 <= bytes.len() && pos + 60
            + dv_data_len(bytes, pos, little_endian) <= bytes.len()
    }

    /// Reads the block at `pos`, whose header must be that of a `##DV` block.
    /// The block ends `byte_len` bytes after `pos`.
    fn read(bytes: &[u8], pos: usize, little_endian: bool) -> (res: Result<(usize, Self), String>)
        ensures
            res matches Err(e) ==> e@ == id_error(bytes@, pos as int, "DV"@),
            res is Ok <==> has_block_id(bytes@, pos as int, 68u8, 86u8),
            res matches Ok((end, b)) ==> b.encoded_at(bytes@, pos as int, little_endian) && end
                == pos + b.spec_byte_len(),
    {
        proof {
            lemma_slice_len(bytes);
        }
        let (start, header) = match BlockHeader::read(bytes, pos, little_endian) {
            Ok(r) => r,
            Err(e) => return Err(e),
        };
        proof {
            lemma_encoded_id(header, bytes@, pos as int, little_endian, 68u8, 86u8);
        }
        if !header.has_id(68u8, 86u8) {
            return Err(invalid_id_message("DV", &header.id));
        }
        let dv_next_dv_block: u64 = read_uint(bytes, start, 8, little_endian);
        let dv_data_block: u64 = read_uint(bytes, start + 8, 8, little_endian);
        let dv_parent_dg_block: u64 = read_uint(bytes, start + 16, 8, little_endian);
        let dv_data_type: u8 = bytes[start + 24];
        let dv_reserved: [u8; 3] = read_array::<3>(bytes, start + 25);
        let data_len: usize = read_uint(bytes, start + 28, 8, little_endian) as usize;
        let dv_data: Vec<u8> = read_vec(bytes, start + 36, data_len);
        let b = Self {
            header,
            dv_next_dv_block,
            dv_data_block,
            dv_parent_dg_block,
            dv_data_type,
            dv_reserved,
            dv_data,
        };
        Ok((start + 36 + data_len, b))
    }

    fn read_at(bytes: &[u8], pos: usize, little_endian: bool) -> (res: Result<(usize, Self), String>)
        ensures
            res matches Err(e) ==> e@ == id_error(bytes@, pos as int, "DV"@),
            res is Ok <==> has_block_id(bytes@, pos as int, 68u8, 86u8),
            res matches Ok((end, b)) ==> b.encoded_at(bytes@, pos as int, little_endian) && end
                == pos + b.spec_byte_len(),
    {
        Self::read(bytes, pos, little_endian)
    }

    /// The header, three links, eight bytes of fields and the data.
    fn byte_len(&self) -> (n: usize) {
        24 + 8 + 8 + 8 + 1 + 3 + 8 + self.dv_data.len()
    }
}

} // verus!
