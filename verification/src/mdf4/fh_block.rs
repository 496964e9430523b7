//! The file history block.

use vstd::prelude::*;

use super::block::Block;
use super::block_header::{has_block_id, header_link_count, id_error, lemma_encoded_id, BlockHeader};
use super::mdf4_file::{link_extract, links_at};
use crate::text::invalid_id_message;

verus! {

/// A file history block: its header and its links, the first of which leads to the comment.
#[derive(Debug, Clone, PartialEq)]
pub struct Fhblock {
    pub header: BlockHeader,
    pub links: Vec<u64>,
}

impl Fhblock {
    /// The address of the comment: the first link, where there is one.
    pub fn comment_addr(&self) -> (addr: Option<u64>)
        ensures
            addr == (if self.links@.len() > 0 {
                Some(self.links@[0])
            } else {
                None
            }),
    {
        if self.links.len() > 0 {
            Some(self.links[0])
        } else {
            None
        }
    }

    /// An `##FH` block of 56 bytes with two null links.
    pub fn new() -> (b: Self)
        ensures
            b.header.id@ == seq![35u8, 35u8, 70u8, 72u8],
            b.header.reserved@ == seq![0u8, 0u8, 0u8, 0u8],
            b.header.length == 56,
            b.header.link_count == 2,
            b.links@ == seq![0u64, 0u64],
    {
        let header = BlockHeader { id: [35u8, 35u8, 70u8, 72u8], reserved: [0u8; 4], length: 56, link_count: 2 };
        let mut links: Vec<u64> = Vec::new();
        links.push(0);
        links.push(0);
        let b = Self { header, links };
        assert(b.header.id@ =~= seq![35u8, 35u8, 70u8, 72u8]);
        assert(b.header.reserved@ =~= seq![0u8, 0u8, 0u8, 0u8]);
        assert(b.links@ =~= seq![0u64, 0u64]);
        b
    }

    /// The same as `new`.
    pub fn default() -> (b: Self)
        ensures
            b.header.id@ == seq![35u8, 35u8, 70u8, 72u8],
            b.header.reserved@ == seq![0u8, 0u8, 0u8, 0u8],
            b.header.length == 56,
            b.header.link_count == 2,
            b.links@ == seq![0u64, 0u64],
    {
        Self::new()
    }
}

impl Block for Fhblock {
    open spec fn spec_byte_len(&self) -> nat {
        24 + 8 * self.links@.len()
    }

    open spec fn spec_readable(bytes: Seq<u8>, pos: int, little_endian: bool) -> bool {
        &&& pos + 24 <= bytes.len()
        &&& has_block_id(bytes, pos, 70u8, 72u8) ==> pos + 24 + 8 * header_link_count(
            bytes,
            pos,
            little_endian,
        ) <= bytes.len()
    }

    /// Reads the block at `pos`: its header, which must be that of an `##FH` block,
    /// then as many links as the header counts.
    fn read(bytes: &[u8], pos: usize, little_endian: bool) -> (res: Result<(usize, Self), String>)
        ensures
            res matches Err(e) ==> e@ == id_error(bytes@, pos as int, "FH"@),
            res is Ok <==> has_block_id(bytes@, pos as int, 70u8, 72u8),
            res matches Ok((end, b)) ==> {
                &&& b.header.encoded_at(bytes@, pos as int, little_endian)
                &&& b.links@ == links_at(
                    bytes@,
                    pos + 24,
                    b.header.link_count as nat,
                    little_endian,
                )
                &&& end == pos + b.spec_byte_len()
            },
    {
        let (start, header) = match BlockHeader::read(bytes, pos, little_endian) {
            Ok(r) => r,
            Err(e) => return Err(e),
        };
        proof {
            lemma_encoded_id(header, bytes@, pos as int, little_endian, 70u8, 72u8);
        }
        if !header.has_id(70u8, 72u8) {
            return Err(invalid_id_message("FH", &header.id));
        }
        let (end, links) = link_extract(bytes, start, little_endian, header.link_count);
        Ok((end, Self { header, links }))
    }

    fn read_at(bytes: &[u8], pos: usize, little_endian: bool) -> (res: Result<(usize, Self), String>)
        ensures
            res matches Err(e) ==> e@ == id_error(bytes@, pos as int, "FH"@),
            res is Ok <==> has_block_id(bytes@, pos as int, 70u8, 72u8),
            res matches Ok((end, b)) ==> {
                &&& b.header.encoded_at(bytes@, pos as int, little_endian)
                &&& b.links@ == links_at(
                    bytes@,
                    pos + 24,
                    b.header.link_count as nat,
                    little_endian,
                )
                &&& end == pos + b.spec_byte_len()
            },
    {
        Self::read(bytes, pos, little_endian)
    }

    fn byte_len(&self) -> (n: usize) {
        24 + 8 * self.links.len()
    }
}

} // verus!
