//! The text block.

use vstd::prelude::*;

use super::block::Block;
use super::block_header::{has_block_id, header_length, id_error, lemma_encoded_id, BlockHeader};
use super::md_block::{md_text_bytes, read_text};
use super::utils::{lemma_slice_len, read_uint};
use crate::text::{invalid_id_message, lossy_utf8};

verus! {

/// A `##TX` block no shorter than a header is stored at `pos`.
pub open spec fn tx_ok(bytes: Seq<u8>, pos: int, little_endian: bool) -> bool {
    has_block_id(bytes, pos, 84u8, 88u8) && header_length(bytes, pos, little_endian) >= 24
}

/// The message of a failed read of a text block at `pos`: that of a wrong identifier, else
/// that of a length shorter than a header.
pub open spec fn tx_error(bytes: Seq<u8>, pos: int) -> Seq<char> {
    if !has_block_id(bytes, pos, 84u8, 88u8) {
        id_error(bytes, pos, "TX"@)
    } else {
        "Invalid TX block length"@
    }
}

/// A text block: its header and its text, which ends at the first zero byte.
#[derive(Debug, Clone, PartialEq, Eq)]
pub struct Txblock {
    pub header: BlockHeader,
    pub tx_data: String,
}

impl Txblock {
    /// A copy of the text of the block.
    pub fn text(&self) -> (s: String)
        ensures
            s@ == self.tx_data@,
    {
        self.tx_data.clone()
    }

    /// Reads the text block at `pos`, where all of it lies within the bytes;
    /// fails where it does not, as `read` does.
    pub fn try_read(stream: &[u8], pos: usize, little_endian: bool) -> (res: Result<(usize, Self), String>)
        ensures
            res is Ok <==> pos + 24 <= stream@.len() && tx_ok(stream@, pos as int, little_endian)
                && pos + header_length(stream@, pos as int, little_endian) <= stream@.len(),
            res matches Err(e) ==> e@ == (if pos + 24 > stream@.len() || pos + header_length(
                stream@,
                pos as int,
                little_endian,
            ) > stream@.len() {
                "TX block runs past the end of the bytes"@
            } else {
                tx_error(stream@, pos as int)
            }),
            res matches Ok((end, b)) ==> {
                &&& b.header.encoded_at(stream@, pos as int, little_endian)
                &&& b.tx_data@ == lossy_utf8(md_text_bytes(stream@, pos as int, little_endian))
                &&& end == pos + b.header.length
            },
    {
        let len: usize = stream.len();
        if pos > len || len - pos < 24 {
            return Err("TX block runs past the end of the bytes".to_owned());
        }
        let length: u64 = read_uint(stream, pos + 8, 8, little_endian);
        if length > (len - pos) as u64 {
            return Err("TX block runs past the end of the bytes".to_owned());
        }
        Self::read(stream, pos, little_endian)
    }
}

impl Block for Txblock {
    open spec fn spec_byte_len(&self) -> nat {
        self.header.length as nat
    }

    open spec fn spec_readable(bytes: Seq<u8>, pos: int, little_endian: bool) -> bool {
        &&& pos + 24 <= bytes.len()
        &&& tx_ok(bytes, pos, little_endian) ==> pos + header_length(bytes, pos, little_endian)
            <= bytes.len()
    }

    /// Reads the block at `pos`: its header, which must be that of a `##TX` block no shorter
    /// than a header, then its text, up to the first zero byte or to the block's end.
    /// The block ends `length` bytes after `pos`.
    fn read(bytes: &[u8], pos: usize, little_endian: bool) -> (res: Result<(usize, Self), String>)
        ensures
            res matches Err(e) ==> e@ == tx_error(bytes@, pos as int),
            res is Ok <==> tx_ok(bytes@, pos as int, little_endian),
            res matches Ok((end, b)) ==> {
                &&& b.header.encoded_at(bytes@, pos as int, little_endian)
                &&& b.tx_data@ == lossy_utf8(md_text_bytes(bytes@, pos as int, little_endian))
                &&& end == pos + b.spec_byte_len()
            },
    {
        proof {
            lemma_slice_len(bytes);
        }
        let (start, header) = match BlockHeader::read(bytes, pos, little_endian) {
            Ok(r) => r,
            Err(e) => return Err(e),
        };
        proof {
            lemma_encoded_id(header, bytes@, pos as int, little_endian, 84u8, 88u8);
        }
        if !header.has_id(84u8, 88u8) {
            return Err(invalid_id_message("TX", &header.id));
        }
        if header.length < 24 {
            return Err("Invalid TX block length".to_owned());
        }
        let end: usize = pos + header.length as usize;
        let text: String = read_text(bytes, start, end);
        Ok((end, Self { header, tx_data: text }))
    }

    fn read_at(bytes: &[u8], pos: usize, little_endian: bool) -> (res: Result<(usize, Self), String>)
        ensures
            res matches Err(e) ==> e@ == tx_error(bytes@, pos as int),
            res is Ok <==> tx_ok(bytes@, pos as int, little_endian),
            res matches Ok((end, b)) ==> {
                &&& b.header.encoded_at(bytes@, pos as int, little_endian)
                &&& b.tx_data@ == lossy_utf8(md_text_bytes(bytes@, pos as int, little_endian))
                &&& end == pos + b.spec_byte_len()
            },
    {
        Self::read(bytes, pos, little_endian)
    }

    /// The length that the header gives.
    fn byte_len(&self) -> (n: usize) {
        self.header.length as usize
    }
}

} // verus!
