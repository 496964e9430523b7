//! The header list block, which leads to a list of data blocks.

use vstd::prelude::*;

use super::block::Block;
use super::block_header::{has_block_id, header_length, header_link_count, id_error, lemma_encoded_id, BlockHeader};
use super::dl_block::{
    chain_available, chain_data, chain_data_array, chain_entries_ok, dl_chain_addrs, dl_chain_ends,
};
use super::mdf4_file::{link_extract, links_at};
use super::utils::{lemma_slice_len, read_array, read_uint, uint_at};
use crate::text::invalid_id_message;

verus! {

/// Where the fields after the links of the block at `pos` start.
pub open spec fn fields_pos(bytes: Seq<u8>, pos: int, little_endian: bool) -> int {
    pos + 24 + 8 * header_link_count(bytes, pos, little_endian)
}

/// A header list block: its header, its links (the first leads to the first data list
/// block), flags, the compression method of the listed blocks, and reserved bytes.
#[derive(Debug, Clone, PartialEq, Eq)]
pub struct Hlblock {
    pub header: BlockHeader,
    pub links: Vec<u64>,
    pub hl_flags: u16,
    pub hl_zip_type: u8,
    pub hl_reserved: [u8; 5],
}

impl Hlblock {
    /// The two blocks have the same fields.
    pub open spec fn same_fields(&self, other: &Self) -> bool {
        &&& self.header == other.header
        &&& self.links@ == other.links@
        &&& self.hl_flags == other.hl_flags
        &&& self.hl_zip_type == other.hl_zip_type
        &&& self.hl_reserved == other.hl_reserved
    }

    /// This block is the one stored at `pos`.
    pub open spec fn encoded_at(&self, bytes: Seq<u8>, pos: int, little_endian: bool) -> bool {
        let f = fields_pos(bytes, pos, little_endian);
        &&& self.header.encoded_at(bytes, pos, little_endian)
        &&& self.links@ == links_at(bytes, pos + 24, self.header.link_count as nat, little_endian)
        &&& self.hl_flags == uint_at(bytes, f, 2, little_endian)
        &&& self.hl_zip_type == bytes[f + 2]
        &&& self.hl_reserved@ == bytes.subrange(f + 3, f + 8)
    }

    /// A `##HL` block whose length covers its links and fields is stored at `pos`,
    /// and all of it lies within the bytes.
    pub open spec fn spec_parses(bytes: Seq<u8>, pos: int, little_endian: bool) -> bool {
        &&& pos + 24 <= bytes.len()
        &&& has_block_id(bytes, pos, 72u8, 76u8)
        &&& fields_pos(bytes, pos, little_endian) + 8 <= pos + header_length(bytes, pos, little_endian)
        &&& pos + header_length(bytes, pos, little_endian) <= bytes.len()
    }

    /// The address of the first data list block: the first link, null where there is none.
    pub open spec fn first_dl(&self) -> int {
        if self.links@.len() > 0 {
            self.links@[0] as int
        } else {
            0
        }
    }

    /// Following next links from the first data list block reaches a null link.
    pub open spec fn spec_chain_ends(&self, stream: Seq<u8>, little_endian: bool) -> bool {
        dl_chain_ends(stream, self.first_dl(), little_endian)
    }

    /// Every data list block of the chain lists data blocks that all have data.
    pub open spec fn spec_data_available(&self, stream: Seq<u8>, little_endian: bool) -> bool {
        chain_entries_ok(stream, dl_chain_addrs(stream, self.first_dl(), little_endian), little_endian)
    }

    /// The data of the data blocks listed along the chain of data list blocks that starts at
    /// the first link, in list order.
    pub open spec fn spec_data(&self, stream: Seq<u8>, little_endian: bool) -> Seq<u8> {
        chain_data(stream, dl_chain_addrs(stream, self.first_dl(), little_endian), little_endian)
    }

    /// The data of the data blocks that the block leads to, where the rest of the file is
    /// `stream`.
    pub fn read_data(&self, stream: &[u8], little_endian: bool) -> (d: Vec<u8>)
        requires
            self.spec_chain_ends(stream@, little_endian),
            self.spec_data_available(stream@, little_endian),
        ensures
            d@ == self.spec_data(stream@, little_endian),
    {
        let first: u64 = match self.dl_first() {
            Some(addr) => addr,
            None => 0,
        };
        chain_data_array(stream, first, little_endian)
    }

    /// Whether reading the data of the block from `stream` succeeds.
    pub fn data_available(&self, stream: &[u8], little_endian: bool) -> (r: bool)
        requires
            self.spec_chain_ends(stream@, little_endian),
        ensures
            r == self.spec_data_available(stream@, little_endian),
    {
        let first: u64 = match self.dl_first() {
            Some(addr) => addr,
            None => 0,
        };
        chain_available(stream, first, little_endian)
    }

    /// The address of the first data list block, where there is a link.
    pub fn dl_first(&self) -> (addr: Option<u64>)
        ensures
            addr == (if self.links@.len() > 0 {
                Some(self.links@[0])
            } else {
                None
            }),
    {
        if self.links.len() > 0 {
            Some(self.links[0])
        } else {
            None
        }
    }
}

impl Block for Hlblock {
    open spec fn spec_byte_len(&self) -> nat {
        self.header.length as nat
    }

    open spec fn spec_readable(bytes: Seq<u8>, pos: int, little_endian: bool) -> bool {
        &&& pos + 24 <= bytes.len()
        &&& has_block_id(bytes, pos, 72u8, 76u8) && fields_pos(bytes, pos, little_endian) + 8
            <= pos + header_length(bytes, pos, little_endian) ==> pos + header_length(
            bytes,
            pos,
            little_endian,
        ) <= bytes.len()
    }

    /// Reads the block at `pos`, whose header must be that of a `##HL` block long enough
    /// for its links and fields. The block ends `length` bytes after `pos`.
    fn read(bytes: &[u8], pos: usize, little_endian: bool) -> (res: Result<(usize, Self), String>)
        ensures
            res matches Err(e) ==> e@ == (if !has_block_id(bytes@, pos as int, 72u8, 76u8) {
                id_error(bytes@, pos as int, "HL"@)
            } else {
                "Invalid HL block length"@
            }),
            res is Ok <==> Self::spec_parses(bytes@, pos as int, little_endian),
            res matches Ok((end, b)) ==> b.encoded_at(bytes@, pos as int, little_endian) && end
                == pos + b.spec_byte_len(),
    {
        proof {
            lemma_slice_len(bytes);
        }
        let (start, header) = match BlockHeader::read(bytes, pos, little_endian) {
            Ok(r) => r,
            Err(e) => return Err(e),
        };
        proof {
            lemma_encoded_id(header, bytes@, pos as int, little_endian, 72u8, 76u8);
        }
        if !header.has_id(72u8, 76u8) {
            return Err(invalid_id_message("HL", &header.id));
        }
        if header.length < 32 || (header.length - 32) / 8 < header.link_count {
            return Err("Invalid HL block length".to_owned());
        }
        let (fields, links) = link_extract(bytes, start, little_endian, header.link_count);
        let hl_flags: u16 = read_uint(bytes, fields, 2, little_endian) as u16;
        let hl_zip_type: u8 = bytes[fields + 2];
        let hl_reserved: [u8; 5] = read_array::<5>(bytes, fields + 3);
        proof {
            crate::mdf4::utils::lemma_pow256_values();
        }
        Ok((pos + header.length as usize, Self { header, links, hl_flags, hl_zip_type, hl_reserved }))
    }

    fn read_at(bytes: &[u8], pos: usize, little_endian: bool) -> (res: Result<(usize, Self), String>)
        ensures
            res matches Err(e) ==> e@ == (if !has_block_id(bytes@, pos as int, 72u8, 76u8) {
                id_error(bytes@, pos as int, "HL"@)
            } else {
                "Invalid HL block length"@
            }),
            res is Ok <==> Self::spec_parses(bytes@, pos as int, little_endian),
            res matches Ok((end, b)) ==> b.encoded_at(bytes@, pos as int, little_endian) && end
                == pos + b.spec_byte_len(),
    {
        Self::read(bytes, pos, little_endian)
    }

    /// The length that the header gives.
    fn byte_len(&self) -> (n: usize) {
        self.header.length as usize
    }
}

} // verus!
