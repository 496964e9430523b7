//! The data block, which holds records as they are.

use vstd::prelude::*;

use super::block::{Block, DataBlock};
use super::block_header::{has_block_id, header_length, id_error, lemma_encoded_id, BlockHeader};
use super::utils::{lemma_slice_len, read_uint, read_vec};
use crate::text::invalid_id_message;

verus! {

/// A data block: its header and the bytes after it, up to the block's length.
#[derive(Debug, Clone, PartialEq, Eq)]
pub struct Dtblock {
    pub header: BlockHeader,
    pub dt_data: Vec<u8>,
}

impl Dtblock {
    /// The two blocks have the same fields.
    pub open spec fn same_fields(&self, other: &Self) -> bool {
        self.header == other.header && self.dt_data@ == other.dt_data@
    }

    /// This block is the one stored at `pos`.
    pub open spec fn encoded_at(&self, bytes: Seq<u8>, pos: int, little_endian: bool) -> bool {
        &&& self.header.encoded_at(bytes, pos, little_endian)
        &&& self.dt_data@ == bytes.subrange(pos + 24, pos + header_length(bytes, pos, little_endian))
    }

    /// A `##DT` block is stored at `pos`, and all of it lies within the bytes.
    pub open spec fn spec_parses(bytes: Seq<u8>, pos: int, little_endian: bool) -> bool {
        &&& pos + 24 <= bytes.len()
        &&& has_block_id(bytes, pos, 68u8, 84u8)
        &&& header_length(bytes, pos, little_endian) >= 24
        &&& pos + header_length(bytes, pos, little_endian) <= bytes.len()
    }

    /// Whether a `##DT` block, with all of it within the bytes, is stored at `pos`.
    pub fn parses_at(bytes: &[u8], pos: usize, little_endian: bool) -> (r: bool)
        ensures
            r == Self::spec_parses(bytes@, pos as int, little_endian),
    {
        let len: usize = bytes.len();
        if pos > len || len - pos < 24 {
            return false;
        }
        if bytes[pos] != 35u8 || bytes[pos + 1] != 35u8 || bytes[pos + 2] != 68u8 || bytes[pos + 3] != 84u8 {
            return false;
        }
        let length: u64 = read_uint(bytes, pos + 8, 8, little_endian);
        length >= 24 && length <= (len - pos) as u64
    }

    /// The data of the block.
    pub fn data(&self) -> (d: &[u8])
        ensures
            d@ == self.dt_data@,
    {
        self.dt_data.as_slice()
    }
}

impl Block for Dtblock {
    open spec fn spec_byte_len(&self) -> nat {
        24 + self.dt_data@.len()
    }

    open spec fn spec_readable(bytes: Seq<u8>, pos: int, little_endian: bool) -> bool {
        &&& pos + 24 <= bytes.len()
        &&& has_block_id(bytes, pos, 68u8, 84u8) && header_length(bytes, pos, little_endian) >= 24
            ==> pos + header_length(bytes, pos, little_endian) <= bytes.len()
    }

    /// Reads the block at `pos`, whose header must be that of a `##DT` block no shorter
    /// than a header. The block ends `length` bytes after `pos`.
    fn read(bytes: &[u8], pos: usize, little_endian: bool) -> (res: Result<(usize, Self), String>)
        ensures
            res matches Err(e) ==> e@ == (if !has_block_id(bytes@, pos as int, 68u8, 84u8) {
                id_error(bytes@, pos as int, "DT"@)
            } else {
                "Invalid DT block length"@
            }),
            res is Ok <==> Self::spec_parses(bytes@, pos as int, little_endian),
            res matches Ok((end, b)) ==> b.encoded_at(bytes@, pos as int, little_endian) && end
                == pos + b.spec_byte_len() && end == pos + b.header.length,
    {
        proof {
            lemma_slice_len(bytes);
        }
        let (start, header) = match BlockHeader::read(bytes, pos, little_endian) {
            Ok(r) => r,
            Err(e) => return Err(e),
        };
        proof {
            lemma_encoded_id(header, bytes@, pos as int, little_endian, 68u8, 84u8);
        }
        if !header.has_id(68u8, 84u8) {
            return Err(invalid_id_message("DT", &header.id));
        }
        if header.length < 24 {
            return Err("Invalid DT block length".to_owned());
        }
        let end: usize = pos + header.length as usize;
        let dt_data: Vec<u8> = read_vec(bytes, start, end - start);
        Ok((end, Self { header, dt_data }))
    }

    fn read_at(bytes: &[u8], pos: usize, little_endian: bool) -> (res: Result<(usize, Self), String>)
        ensures
            res matches Err(e) ==> e@ == (if !has_block_id(bytes@, pos as int, 68u8, 84u8) {
                id_error(bytes@, pos as int, "DT"@)
            } else {
                "Invalid DT block length"@
            }),
            res is Ok <==> Self::spec_parses(bytes@, pos as int, little_endian),
            res matches Ok((end, b)) ==> b.encoded_at(bytes@, pos as int, little_endian) && end
                == pos + b.spec_byte_len() && end == pos + b.header.length,
    {
        Self::read(bytes, pos, little_endian)
    }

    fn byte_len(&self) -> (n: usize) {
        24 + self.dt_data.len()
    }
}

impl DataBlock for Dtblock {
    open spec fn spec_data_available(&self, stream: Seq<u8>, little_endian: bool) -> bool {
        true
    }

    open spec fn spec_data(&self, stream: Seq<u8>, little_endian: bool) -> Seq<u8> {
        self.dt_data@
    }

    /// The bytes that the block holds.
    fn data_array(&self, stream: &[u8], little_endian: bool) -> (d: Vec<u8>) {
        self.dt_data.clone()
    }
}

} // verus!
